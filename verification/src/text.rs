//! Text as sequences of characters.
//!
//! File names, HTTP headers and `/proc` files are all taken apart the same way, so the
//! handful of string operations the crate needs is gathered here. The executable functions
//! work on slices of characters; the spec functions beside them say what each one means.

use vstd::prelude::*;
use vstd::slice::slice_subrange;

verus! {

/// `std::string::String::push`: appends one character to the end of the string.
pub assume_specification[ std::string::String::push ](s: &mut std::string::String, c: char)
    ensures
        final(s)@ == old(s)@.push(c),
;

/// What `std::string::String::from_utf8_lossy` makes of a byte string.
pub uninterp spec fn lossy_text(bytes: Seq<u8>) -> Seq<char>;

/// `std::string::String::from_utf8_lossy`: the text that the bytes encode. Bytes that are
/// valid UTF-8 come out as the text they encode; what stands for invalid bytes is only named,
/// by [`lossy_text`].
#[verifier::external_body]
fn lossy(bytes: &[u8]) -> (r: String)
    ensures
        r@ == lossy_text(bytes@),
        vstd::utf8::valid_utf8(bytes@) ==> r@ == vstd::utf8::decode_utf8(bytes@),
{
    String::from_utf8_lossy(bytes).into_owned()
}

/// The text that bytes stand for: what they encode, where they are valid UTF-8; what
/// `std::string::String::from_utf8_lossy` makes of them, where they are not.
pub open spec fn text_of(bytes: Seq<u8>) -> Seq<char> {
    if vstd::utf8::valid_utf8(bytes) {
        vstd::utf8::decode_utf8(bytes)
    } else {
        lossy_text(bytes)
    }
}

/// The text that bytes stand for.
pub fn decoded(bytes: &[u8]) -> (r: String)
    ensures
        r@ == text_of(bytes@),
{
    lossy(bytes)
}

/// `std::string::String::from_utf8`: the text that the bytes encode, if they are valid UTF-8.
#[verifier::external_body]
pub(crate) fn utf8(bytes: &[u8]) -> (r: Option<String>)
    ensures
        match r {
            Some(s) => vstd::utf8::valid_utf8(bytes@) && s@ == vstd::utf8::decode_utf8(bytes@),
            None => !vstd::utf8::valid_utf8(bytes@),
        },
{
    String::from_utf8(bytes.to_vec()).ok()
}

/// The characters of a string.
pub fn chars_of(s: &str) -> (r: Vec<char>)
    ensures
        r@ == s@,
{
    let mut out: Vec<char> = Vec::new();
    for c in it: s.chars()
        invariant
            out@ == it.seq().take(it.index()),
    {
        out.push(c);
    }
    out
}

/// A string made of the given characters.
pub fn string_of(v: &[char]) -> (r: String)
    ensures
        r@ == v@,
{
    let mut out = String::new();
    let mut i: usize = 0;
    while i < v.len()
        invariant
            i <= v@.len(),
            out@ == v@.take(i as int),
        decreases v@.len() - i,
    {
        out.push(v[i]);
        i += 1;
    }
    out
}

/// Whether two character slices hold the same text.
pub fn same(a: &[char], b: &[char]) -> (r: bool)
    ensures
        r == (a@ == b@),
{
    if a.len() != b.len() {
        return false;
    }
    let mut i: usize = 0;
    while i < a.len()
        invariant
            a@.len() == b@.len(),
            i <= a@.len(),
            forall|k: int| 0 <= k < i ==> a@[k] == b@[k],
        decreases a@.len() - i,
    {
        if a[i] != b[i] {
            return false;
        }
        i += 1;
    }
    assert(a@ =~= b@);
    true
}

/// Whether two strings hold the same text.
pub fn same_str(a: &str, b: &str) -> (r: bool)
    ensures
        r == (a@ == b@),
{
    let x = chars_of(a);
    let y = chars_of(b);
    same(x.as_slice(), y.as_slice())
}

/// A copy of a character slice.
pub fn copy_chars(v: &[char]) -> (r: Vec<char>)
    ensures
        r@ == v@,
{
    let mut out: Vec<char> = Vec::new();
    push_all(&mut out, v);
    assert(out@ =~= v@);
    out
}

/// Appends `v` to `out`.
pub fn push_all(out: &mut Vec<char>, v: &[char])
    ensures
        final(out)@ == old(out)@ + v@,
{
    let mut i: usize = 0;
    while i < v.len()
        invariant
            i <= v@.len(),
            out@ == old(out)@ + v@.take(i as int),
        decreases v@.len() - i,
    {
        out.push(v[i]);
        assert(v@.take(i + 1) =~= v@.take(i as int).push(v@[i as int]));
        assert(out@ =~= old(out)@ + v@.take(i + 1));
        i += 1;
    }
    assert(v@.take(i as int) =~= v@);
}

// ---------------------------------------------------------------------------
// Searching

/// `p` stands in `s` at index `i`.
pub open spec fn occurs_at(s: Seq<char>, p: Seq<char>, i: int) -> bool {
    &&& 0 <= i
    &&& i + p.len() <= s.len()
    &&& s.subrange(i, i + p.len()) == p
}

/// `p` stands somewhere in `s`.
pub open spec fn contains(s: Seq<char>, p: Seq<char>) -> bool {
    exists|i: int| occurs_at(s, p, i)
}

/// `s` starts with `p`.
pub open spec fn starts_with(s: Seq<char>, p: Seq<char>) -> bool {
    occurs_at(s, p, 0)
}

/// `s` ends with `p`.
pub open spec fn ends_with(s: Seq<char>, p: Seq<char>) -> bool {
    occurs_at(s, p, s.len() - p.len())
}

/// `i` is the last index at which `p` stands in `s`.
pub open spec fn last_at(s: Seq<char>, p: Seq<char>, i: int) -> bool {
    occurs_at(s, p, i) && forall|j: int| occurs_at(s, p, j) ==> j <= i
}

/// `s` around the last `p` in it, if there is one: the text before and the text after.
pub open spec fn rsplit_once(s: Seq<char>, p: Seq<char>) -> Option<(Seq<char>, Seq<char>)> {
    if contains(s, p) {
        let i = choose|i: int| last_at(s, p, i);
        Some((s.take(i), s.skip(i + p.len())))
    } else {
        None
    }
}

/// `s` without the `p` at its end, if it ends with `p`.
pub open spec fn strip_suffix(s: Seq<char>, p: Seq<char>) -> Option<Seq<char>> {
    if ends_with(s, p) {
        Some(s.take(s.len() - p.len()))
    } else {
        None
    }
}

/// `s` without the `p` at its start, if it starts with `p`.
pub open spec fn strip_prefix(s: Seq<char>, p: Seq<char>) -> Option<Seq<char>> {
    if starts_with(s, p) {
        Some(s.skip(p.len() as int))
    } else {
        None
    }
}

/// What follows the last `c` in `s`; all of `s` when there is none.
pub open spec fn after_last(s: Seq<char>, c: char) -> Seq<char> {
    match rsplit_once(s, seq![c]) {
        Some((_, tail)) => tail,
        None => s,
    }
}

/// Two indices that are both the last occurrence are the same index.
proof fn lemma_last_at_unique(s: Seq<char>, p: Seq<char>, i: int, j: int)
    requires
        last_at(s, p, i),
        last_at(s, p, j),
    ensures
        i == j,
{
}

/// The last occurrence fixes what `rsplit_once` gives.
pub proof fn lemma_rsplit_once_at(s: Seq<char>, p: Seq<char>, i: int)
    requires
        last_at(s, p, i),
    ensures
        rsplit_once(s, p) == Some((s.take(i), s.skip(i + p.len()))),
{
    assert(contains(s, p));
    let k = choose|k: int| last_at(s, p, k);
    lemma_last_at_unique(s, p, i, k);
}

/// Splitting a text at the last `p` and putting `p` back between the parts gives the text.
pub proof fn lemma_rsplit_once_rejoins(s: Seq<char>, p: Seq<char>)
    ensures
        rsplit_once(s, p) matches Some((a, b)) ==> a + p + b == s,
{
    if contains(s, p) {
        let i = lemma_last_exists(s, p);
        lemma_rsplit_once_at(s, p, i);
        assert(s.take(i) + p + s.skip(i + p.len()) =~= s) by {
            assert(s.subrange(i, i + p.len()) == p);
        }
    }
}

/// A text that occurs has a last occurrence.
proof fn lemma_last_exists(s: Seq<char>, p: Seq<char>) -> (i: int)
    requires
        contains(s, p),
    ensures
        last_at(s, p, i),
{
    let w = choose|w: int| occurs_at(s, p, w);
    lemma_last_from(s, p, w)
}

proof fn lemma_last_from(s: Seq<char>, p: Seq<char>, w: int) -> (i: int)
    requires
        occurs_at(s, p, w),
    ensures
        last_at(s, p, i),
    decreases s.len() - w,
{
    if exists|j: int| occurs_at(s, p, j) && j > w {
        let j = choose|j: int| occurs_at(s, p, j) && j > w;
        lemma_last_from(s, p, j)
    } else {
        w
    }
}

/// Whether `p` stands in `s` at index `i`.
pub fn is_at(s: &[char], p: &[char], i: usize) -> (r: bool)
    ensures
        r == occurs_at(s@, p@, i as int),
{
    let n = s.len();
    if i > n || p.len() > n - i {
        return false;
    }
    let mut k: usize = 0;
    while k < p.len()
        invariant
            n == s@.len(),
            i + p@.len() <= n,
            k <= p@.len(),
            forall|m: int| 0 <= m < k ==> s@[i + m] == p@[m],
        decreases p@.len() - k,
    {
        if s[i + k] != p[k] {
            assert(s@.subrange(i as int, i + p@.len())[k as int] != p@[k as int]);
            return false;
        }
        k += 1;
    }
    assert(s@.subrange(i as int, i + p@.len()) =~= p@);
    true
}

/// Whether `s` starts with `p`.
pub fn has_prefix(s: &[char], p: &[char]) -> (r: bool)
    ensures
        r == starts_with(s@, p@),
{
    is_at(s, p, 0)
}

/// Whether `s` ends with `p`.
pub fn has_suffix(s: &[char], p: &[char]) -> (r: bool)
    ensures
        r == ends_with(s@, p@),
{
    p.len() <= s.len() && is_at(s, p, s.len() - p.len())
}

/// Whether `p` stands somewhere in `s`.
pub fn has(s: &[char], p: &[char]) -> (r: bool)
    ensures
        r == contains(s@, p@),
{
    rfind(s, p).is_some()
}

/// The last index at which `p` stands in `s`.
pub fn rfind(s: &[char], p: &[char]) -> (r: Option<usize>)
    ensures
        match r {
            Some(i) => last_at(s@, p@, i as int),
            None => !contains(s@, p@),
        },
{
    if p.len() > s.len() {
        return None;
    }
    let mut i: usize = s.len() - p.len();
    loop
        invariant
            i + p@.len() <= s@.len(),
            forall|j: int| occurs_at(s@, p@, j) ==> j <= i,
        decreases i,
    {
        if is_at(s, p, i) {
            return Some(i);
        }
        if i == 0 {
            return None;
        }
        i -= 1;
    }
}

/// `s` around the last `p` in it.
pub fn split_last<'a>(s: &'a [char], p: &[char]) -> (r: Option<(&'a [char], &'a [char])>)
    ensures
        match r {
            Some((a, b)) => rsplit_once(s@, p@) == Some((a@, b@)),
            None => rsplit_once(s@, p@) is None,
        },
{
    match rfind(s, p) {
        Some(i) => {
            proof {
                lemma_rsplit_once_at(s@, p@, i as int);
            }
            let n = s.len();
            let a = slice_subrange(s, 0, i);
            let b = slice_subrange(s, i + p.len(), n);
            assert(a@ =~= s@.take(i as int));
            assert(b@ =~= s@.skip(i + p@.len()));
            Some((a, b))
        },
        None => None,
    }
}

/// `s` without the `p` at its end.
pub fn without_suffix<'a>(s: &'a [char], p: &[char]) -> (r: Option<&'a [char]>)
    ensures
        match r {
            Some(a) => strip_suffix(s@, p@) == Some(a@),
            None => strip_suffix(s@, p@) is None,
        },
{
    if has_suffix(s, p) {
        let a = slice_subrange(s, 0, s.len() - p.len());
        assert(a@ =~= s@.take(s@.len() - p@.len()));
        Some(a)
    } else {
        None
    }
}

/// `s` without the `p` at its start.
pub fn without_prefix<'a>(s: &'a [char], p: &[char]) -> (r: Option<&'a [char]>)
    ensures
        match r {
            Some(a) => strip_prefix(s@, p@) == Some(a@),
            None => strip_prefix(s@, p@) is None,
        },
{
    if has_prefix(s, p) {
        let a = slice_subrange(s, p.len(), s.len());
        assert(a@ =~= s@.skip(p@.len() as int));
        Some(a)
    } else {
        None
    }
}

/// What follows the last `c` in `s`.
pub fn tail_after(s: &[char], c: char) -> (r: &[char])
    ensures
        r@ == after_last(s@, c),
{
    let p: Vec<char> = vec![c];
    assert(p@ =~= seq![c]);
    match split_last(s, p.as_slice()) {
        Some((_, tail)) => tail,
        None => s,
    }
}

// ---------------------------------------------------------------------------
// Letter case and blanks

/// `c` with an ASCII lower-case letter made upper-case.
pub open spec fn upper_char(c: char) -> char {
    if 'a' <= c <= 'z' {
        (c as u32 - 32) as char
    } else {
        c
    }
}

/// `c` with an ASCII upper-case letter made lower-case.
pub open spec fn lower_char(c: char) -> char {
    if 'A' <= c <= 'Z' {
        (c as u32 + 32) as char
    } else {
        c
    }
}

/// `s` with its ASCII letters made upper-case; every other character is kept.
pub open spec fn upper(s: Seq<char>) -> Seq<char> {
    s.map_values(|c: char| upper_char(c))
}

/// `s` with its ASCII letters made lower-case; every other character is kept.
pub open spec fn lower(s: Seq<char>) -> Seq<char> {
    s.map_values(|c: char| lower_char(c))
}

/// An ASCII decimal digit.
pub open spec fn is_digit(c: char) -> bool {
    '0' <= c <= '9'
}

/// An ASCII letter.
pub open spec fn is_letter(c: char) -> bool {
    'a' <= c <= 'z' || 'A' <= c <= 'Z'
}

/// A character with the Unicode property `White_Space`.
pub open spec fn is_blank(c: char) -> bool {
    let u = c as u32;
    ||| 0x09 <= u <= 0x0D
    ||| u == 0x20
    ||| u == 0x85
    ||| u == 0xA0
    ||| u == 0x1680
    ||| 0x2000 <= u <= 0x200A
    ||| u == 0x2028
    ||| u == 0x2029
    ||| u == 0x202F
    ||| u == 0x205F
    ||| u == 0x3000
}

/// `s` without the blanks at its start.
pub open spec fn trim_start(s: Seq<char>) -> Seq<char>
    decreases s.len(),
{
    if s.len() > 0 && is_blank(s.first()) {
        trim_start(s.drop_first())
    } else {
        s
    }
}

/// `s` without the blanks at its end.
pub open spec fn trim_end(s: Seq<char>) -> Seq<char>
    decreases s.len(),
{
    if s.len() > 0 && is_blank(s.last()) {
        trim_end(s.drop_last())
    } else {
        s
    }
}

/// `s` without the blanks around it.
pub open spec fn trim(s: Seq<char>) -> Seq<char> {
    trim_end(trim_start(s))
}

/// The part of `s` before its first blank.
pub open spec fn until_blank(s: Seq<char>) -> Seq<char>
    decreases s.len(),
{
    if s.len() == 0 || is_blank(s.first()) {
        Seq::empty()
    } else {
        seq![s.first()] + until_blank(s.drop_first())
    }
}

/// The first word of `s`, if there is anything but blanks in it.
pub open spec fn first_word(s: Seq<char>) -> Option<Seq<char>> {
    let t = trim_start(s);
    if t.len() == 0 {
        None
    } else {
        Some(until_blank(t))
    }
}

/// `s` with its ASCII letters made upper-case.
pub fn to_upper(s: &[char]) -> (r: Vec<char>)
    ensures
        r@ == upper(s@),
{
    let mut out: Vec<char> = Vec::new();
    let mut i: usize = 0;
    while i < s.len()
        invariant
            i <= s@.len(),
            out@ == upper(s@.take(i as int)),
        decreases s@.len() - i,
    {
        let c = s[i];
        let u = if 'a' <= c && c <= 'z' {
            ((c as u8) - 32) as char
        } else {
            c
        };
        out.push(u);
        assert(s@.take(i + 1) =~= s@.take(i as int).push(c));
        assert(out@ =~= upper(s@.take(i + 1)));
        i += 1;
    }
    assert(s@.take(i as int) =~= s@);
    out
}

/// `s` with its ASCII letters made lower-case.
pub fn to_lower(s: &[char]) -> (r: Vec<char>)
    ensures
        r@ == lower(s@),
{
    let mut out: Vec<char> = Vec::new();
    let mut i: usize = 0;
    while i < s.len()
        invariant
            i <= s@.len(),
            out@ == lower(s@.take(i as int)),
        decreases s@.len() - i,
    {
        let c = s[i];
        let u = if 'A' <= c && c <= 'Z' {
            ((c as u8) + 32) as char
        } else {
            c
        };
        out.push(u);
        assert(s@.take(i + 1) =~= s@.take(i as int).push(c));
        assert(out@ =~= lower(s@.take(i + 1)));
        i += 1;
    }
    assert(s@.take(i as int) =~= s@);
    out
}

/// Whether `c` has the Unicode property `White_Space`.
pub fn blank(c: char) -> (r: bool)
    ensures
        r == is_blank(c),
{
    let u = c as u32;
    (0x09 <= u && u <= 0x0D) || u == 0x20 || u == 0x85 || u == 0xA0 || u == 0x1680 || (0x2000 <= u
        && u <= 0x200A) || u == 0x2028 || u == 0x2029 || u == 0x202F || u == 0x205F || u == 0x3000
}

/// `s` without the blanks at its start.
pub fn skip_blanks(s: &[char]) -> (r: &[char])
    ensures
        r@ == trim_start(s@),
{
    let n = s.len();
    let mut i: usize = 0;
    assert(s@.skip(0) =~= s@);
    while i < n && blank(s[i])
        invariant
            n == s@.len(),
            i <= n,
            trim_start(s@.skip(i as int)) == trim_start(s@),
        decreases n - i,
    {
        assert(s@.skip(i as int).drop_first() =~= s@.skip(i + 1));
        i += 1;
    }
    let r = slice_subrange(s, i, n);
    assert(r@ =~= s@.skip(i as int));
    r
}

/// `s` without the blanks around it.
pub fn trimmed(s: &[char]) -> (r: &[char])
    ensures
        r@ == trim(s@),
{
    let t = skip_blanks(s);
    let mut n = t.len();
    assert(t@.take(n as int) =~= t@);
    while n > 0 && blank(t[n - 1])
        invariant
            n <= t@.len(),
            trim_end(t@.take(n as int)) == trim_end(t@),
        decreases n,
    {
        assert(t@.take(n as int).drop_last() =~= t@.take(n - 1));
        n -= 1;
    }
    let r = slice_subrange(t, 0, n);
    assert(r@ =~= t@.take(n as int));
    r
}

/// The first word of `s`.
pub fn word(s: &[char]) -> (r: Option<&[char]>)
    ensures
        match r {
            Some(w) => first_word(s@) == Some(w@),
            None => first_word(s@) is None,
        },
{
    let t = skip_blanks(s);
    let n = t.len();
    if n == 0 {
        return None;
    }
    let mut i: usize = 0;
    assert(t@.skip(0) =~= t@);
    assert(t@.take(0) + until_blank(t@.skip(0)) =~= until_blank(t@));
    while i < n && !blank(t[i])
        invariant
            n == t@.len(),
            i <= n,
            until_blank(t@) == t@.take(i as int) + until_blank(t@.skip(i as int)),
        decreases n - i,
    {
        proof {
            let rest = t@.skip(i as int);
            assert(rest.drop_first() =~= t@.skip(i + 1));
            assert(until_blank(rest) == seq![rest.first()] + until_blank(rest.drop_first()));
            assert(t@.take(i as int) + (seq![rest.first()] + until_blank(rest.drop_first()))
                =~= t@.take(i + 1) + until_blank(t@.skip(i + 1)));
        }
        i += 1;
    }
    let w = slice_subrange(t, 0, i);
    assert(until_blank(t@.skip(i as int)) =~= Seq::<char>::empty());
    assert(w@ =~= until_blank(t@));
    Some(w)
}

// ---------------------------------------------------------------------------
// Pieces

/// The pieces of `s` between the separators `c`: one more piece than there are separators.
pub open spec fn split_on(s: Seq<char>, c: char) -> Seq<Seq<char>>
    decreases s.len(),
{
    if s.len() == 0 {
        seq![Seq::empty()]
    } else {
        let head = split_on(s.drop_last(), c);
        if s.last() == c {
            head.push(Seq::empty())
        } else {
            head.drop_last().push(head.last().push(s.last()))
        }
    }
}

/// The pieces, with `sep` between each two of them.
pub open spec fn join(parts: Seq<Seq<char>>, sep: Seq<char>) -> Seq<char>
    decreases parts.len(),
{
    if parts.len() == 0 {
        Seq::empty()
    } else if parts.len() == 1 {
        parts[0]
    } else {
        join(parts.drop_last(), sep) + sep + parts.last()
    }
}

/// The texts that a list of character vectors holds.
pub open spec fn texts(v: Seq<Vec<char>>) -> Seq<Seq<char>> {
    v.map_values(|x: Vec<char>| x@)
}

/// The texts that a list of strings holds.
pub open spec fn strings(v: Seq<String>) -> Seq<Seq<char>> {
    v.map_values(|x: String| x@)
}

/// A split has at least one piece.
pub proof fn lemma_split_not_empty(s: Seq<char>, c: char)
    ensures
        split_on(s, c).len() >= 1,
    decreases s.len(),
{
    if s.len() > 0 {
        lemma_split_not_empty(s.drop_last(), c);
    }
}

/// Joining the pieces of a text with its separator gives the text back.
pub proof fn lemma_join_undoes_split(s: Seq<char>, c: char)
    ensures
        join(split_on(s, c), seq![c]) == s,
    decreases s.len(),
{
    if s.len() > 0 {
        let head = split_on(s.drop_last(), c);
        lemma_split_not_empty(s.drop_last(), c);
        lemma_join_undoes_split(s.drop_last(), c);
        if s.last() == c {
            assert(head.push(Seq::empty()).drop_last() =~= head);
            assert(s.drop_last() + seq![c] + Seq::<char>::empty() =~= s);
        } else {
            let last = head.last().push(s.last());
            let all = head.drop_last().push(last);
            assert(all.drop_last() =~= head.drop_last());
            if head.len() == 1 {
                assert(all.len() == 1);
                assert(all[0] =~= s);
            } else {
                let a = join(head.drop_last(), seq![c]);
                assert(a + seq![c] + last =~= (a + seq![c] + head.last()).push(s.last()));
                assert(s.drop_last().push(s.last()) =~= s);
            }
        }
    }
}

/// The pieces of `s` between the separators `c`.
pub fn pieces(s: &[char], c: char) -> (r: Vec<Vec<char>>)
    ensures
        texts(r@) == split_on(s@, c),
{
    let mut out: Vec<Vec<char>> = Vec::new();
    let mut cur: Vec<char> = Vec::new();
    let mut i: usize = 0;
    assert(texts(out@).push(cur@) =~= split_on(s@.take(0), c));
    while i < s.len()
        invariant
            i <= s@.len(),
            texts(out@).push(cur@) == split_on(s@.take(i as int), c),
        decreases s@.len() - i,
    {
        let ghost all = texts(out@).push(cur@);
        let ghost done = texts(out@);
        let x = s[i];
        assert(s@.take(i + 1).drop_last() =~= s@.take(i as int));
        assert(all.drop_last() =~= done);
        if x == c {
            out.push(cur);
            cur = Vec::new();
            assert(texts(out@) =~= all);
            assert(cur@ =~= Seq::<char>::empty());
        } else {
            cur.push(x);
        }
        i += 1;
    }
    assert(s@.take(i as int) =~= s@);
    let ghost all = texts(out@).push(cur@);
    out.push(cur);
    assert(texts(out@) =~= all);
    out
}

/// The pieces from index `from` on, with `sep` between each two of them.
pub fn joined(parts: &Vec<Vec<char>>, from: usize, sep: &[char]) -> (r: Vec<char>)
    requires
        from <= parts@.len(),
    ensures
        r@ == join(texts(parts@).skip(from as int), sep@),
{
    let mut out: Vec<char> = Vec::new();
    let mut i: usize = from;
    let ghost all = texts(parts@).skip(from as int);
    assert(all.take(0) =~= Seq::<Seq<char>>::empty());
    while i < parts.len()
        invariant
            from <= i <= parts@.len(),
            all == texts(parts@).skip(from as int),
            out@ == join(all.take(i - from), sep@),
        decreases parts@.len() - i,
    {
        let ghost k = i - from;
        assert(all.take(k + 1).drop_last() =~= all.take(k));
        assert(all[k] == parts@[i as int]@);
        if i > from {
            push_all(&mut out, sep);
        }
        push_all(&mut out, parts[i].as_slice());
        assert(out@ =~= join(all.take(k + 1), sep@));
        i += 1;
    }
    assert(all.take(i - from) =~= all);
    out
}

/// A line without the carriage return that a line feed followed.
pub open spec fn without_return(s: Seq<char>) -> Seq<char> {
    if s.len() > 0 && s.last() == '\r' {
        s.drop_last()
    } else {
        s
    }
}

/// The lines of a text. A line ends in a line feed, with or without a carriage return
/// before it; what follows the last line feed is a line too, unless it is empty.
pub open spec fn lines(s: Seq<char>) -> Seq<Seq<char>> {
    let parts = split_on(s, '\n');
    let ended = parts.drop_last().map_values(|p: Seq<char>| without_return(p));
    if parts.last().len() == 0 {
        ended
    } else {
        ended.push(parts.last())
    }
}

/// The lines of a text.
pub fn lines_of(s: &[char]) -> (r: Vec<Vec<char>>)
    ensures
        texts(r@) == lines(s@),
{
    proof {
        lemma_split_not_empty(s@, '\n');
    }
    let mut parts = pieces(s, '\n');
    let ghost all = texts(parts@);
    let last = parts.pop();
    assert(texts(parts@) =~= all.drop_last());
    let mut out: Vec<Vec<char>> = Vec::new();
    let mut i: usize = 0;
    while i < parts.len()
        invariant
            i <= parts@.len(),
            texts(parts@) == all.drop_last(),
            texts(out@) == all.drop_last().take(i as int).map_values(
                |p: Seq<char>| without_return(p),
            ),
        decreases parts@.len() - i,
    {
        let ghost before = texts(out@);
        let p = parts[i].as_slice();
        assert(all.drop_last()[i as int] == p@);
        let n = p.len();
        let line = if n > 0 && p[n - 1] == '\r' {
            let q = slice_subrange(p, 0, n - 1);
            assert(q@ =~= p@.drop_last());
            copy_chars(q)
        } else {
            copy_chars(p)
        };
        out.push(line);
        assert(texts(out@) =~= before.push(without_return(p@)));
        assert(all.drop_last().take(i + 1).map_values(|p: Seq<char>| without_return(p)) =~= before.push(
            without_return(p@),
        ));
        i += 1;
    }
    assert(all.drop_last().take(i as int) =~= all.drop_last());
    match last {
        Some(tail) => {
            if tail.len() > 0 {
                let ghost before = texts(out@);
                out.push(tail);
                assert(texts(out@) =~= before.push(tail@));
            }
        },
        None => {},
    }
    out
}

// ---------------------------------------------------------------------------
// Numbers

/// The character that stands for a digit.
pub open spec fn digit_char(d: nat) -> char {
    (d + 0x30) as char
}

/// The number that a digit stands for.
pub open spec fn digit_value(c: char) -> nat {
    (c as u32 - 0x30) as nat
}

/// `n` written in decimal, without leading zeros.
pub open spec fn decimal(n: nat) -> Seq<char>
    decreases n,
{
    if n < 10 {
        seq![digit_char(n)]
    } else {
        decimal(n / 10).push(digit_char(n % 10))
    }
}

/// Every character of `s` is a decimal digit.
pub open spec fn all_digits(s: Seq<char>) -> bool {
    forall|i: int| 0 <= i < s.len() ==> is_digit(#[trigger] s[i])
}

/// The number that a row of digits stands for.
pub open spec fn digits_value(s: Seq<char>) -> nat
    decreases s.len(),
{
    if s.len() == 0 {
        0
    } else {
        digits_value(s.drop_last()) * 10 + digit_value(s.last())
    }
}

/// The digits of a number as it is written, without the plus sign that may precede them.
pub open spec fn unsigned_digits(s: Seq<char>) -> Seq<char> {
    if s.len() > 0 && s.first() == '+' {
        s.drop_first()
    } else {
        s
    }
}

/// The number up to `max` that `s` stands for, if it is one: digits only, at least one of
/// them, with an optional plus sign before them.
pub open spec fn parse_uint(s: Seq<char>, max: nat) -> Option<nat> {
    let d = unsigned_digits(s);
    if d.len() > 0 && all_digits(d) && digits_value(d) <= max {
        Some(digits_value(d))
    } else {
        None
    }
}

/// A number written in decimal is all digits, at least one, and reads back as itself.
pub proof fn lemma_decimal_reads_back(n: nat)
    ensures
        decimal(n).len() >= 1,
        all_digits(decimal(n)),
        digits_value(decimal(n)) == n,
    decreases n,
{
    if n >= 10 {
        lemma_decimal_reads_back(n / 10);
        assert(decimal(n).drop_last() =~= decimal(n / 10));
    } else {
        assert(decimal(n).drop_last() =~= Seq::<char>::empty());
        assert(digits_value(decimal(n).drop_last()) == 0);
        assert(digits_value(decimal(n)) == digit_value(decimal(n).last()));
    }
}

/// A number that is no larger than `max` is parsed from its decimal form.
pub proof fn lemma_parse_undoes_decimal(n: nat, max: nat)
    requires
        n <= max,
    ensures
        parse_uint(decimal(n), max) == Some(n),
{
    lemma_decimal_reads_back(n);
    assert(is_digit(decimal(n)[0]));
}

/// A longer row of digits stands for a number that is no smaller.
pub proof fn lemma_digits_grow(s: Seq<char>, i: int)
    requires
        0 <= i <= s.len(),
    ensures
        digits_value(s.take(i)) <= digits_value(s),
    decreases s.len() - i,
{
    if i == s.len() {
        assert(s.take(i) =~= s);
    } else {
        lemma_digits_grow(s, i + 1);
        assert(s.take(i + 1).drop_last() =~= s.take(i));
    }
}

/// `n` written in decimal.
pub fn to_decimal(n: u64) -> (r: Vec<char>)
    ensures
        r@ == decimal(n as nat),
    decreases n,
{
    let mut out: Vec<char> = if n < 10 {
        Vec::new()
    } else {
        to_decimal(n / 10)
    };
    let d = (n % 10) as u8;
    out.push((d + 0x30) as char);
    assert(out@ =~= decimal(n as nat));
    out
}

/// The digits that a text starts with.
pub open spec fn leading_digits(s: Seq<char>) -> Seq<char>
    decreases s.len(),
{
    if s.len() > 0 && is_digit(s.first()) {
        seq![s.first()] + leading_digits(s.drop_first())
    } else {
        Seq::empty()
    }
}

/// A text starts with the digits put in front of something that does not start with one.
pub proof fn lemma_leading_digits(d: Seq<char>, rest: Seq<char>)
    requires
        all_digits(d),
        rest.len() > 0 ==> !is_digit(rest.first()),
    ensures
        leading_digits(d + rest) == d,
    decreases d.len(),
{
    if d.len() > 0 {
        assert(is_digit(d[0]));
        assert forall|i: int| 0 <= i < d.drop_first().len() implies is_digit(
            #[trigger] d.drop_first()[i],
        ) by {
            assert(is_digit(d[i + 1]));
        }
        lemma_leading_digits(d.drop_first(), rest);
        assert((d + rest).drop_first() =~= d.drop_first() + rest);
        assert(seq![d.first()] + d.drop_first() =~= d);
    } else {
        assert(d + rest =~= rest);
        assert(d =~= Seq::<char>::empty());
    }
}

/// The digits that a text starts with.
pub fn digits_before(s: &[char]) -> (r: &[char])
    ensures
        r@ == leading_digits(s@),
{
    let mut i: usize = 0;
    while i < s.len() && '0' <= s[i] && s[i] <= '9'
        invariant
            i <= s@.len(),
            all_digits(s@.take(i as int)),
        decreases s@.len() - i,
    {
        assert forall|k: int| 0 <= k < i + 1 implies is_digit(
            #[trigger] s@.take(i + 1)[k],
        ) by {
            if k < i {
                assert(is_digit(s@.take(i as int)[k]));
            }
        }
        i += 1;
    }
    let r = slice_subrange(s, 0, i);
    proof {
        let rest = s@.skip(i as int);
        assert(s@ =~= s@.take(i as int) + rest);
        lemma_leading_digits(s@.take(i as int), rest);
        assert(r@ =~= s@.take(i as int));
    }
    r
}

/// Whether every character is a digit.
pub fn is_digits(s: &[char]) -> (r: bool)
    ensures
        r == all_digits(s@),
{
    let mut i: usize = 0;
    while i < s.len()
        invariant
            i <= s@.len(),
            forall|k: int| 0 <= k < i ==> is_digit(#[trigger] s@[k]),
        decreases s@.len() - i,
    {
        if s[i] < '0' || s[i] > '9' {
            assert(!is_digit(s@[i as int]));
            return false;
        }
        i += 1;
    }
    true
}

/// The number up to `max` that `s` stands for.
pub fn parse_number(s: &[char], max: u64) -> (r: Option<u64>)
    ensures
        match r {
            Some(n) => parse_uint(s@, max as nat) == Some(n as nat),
            None => parse_uint(s@, max as nat) is None,
        },
{
    let n = s.len();
    let start: usize = if n > 0 && s[0] == '+' {
        1
    } else {
        0
    };
    let d = slice_subrange(s, start, n);
    assert(d@ =~= unsigned_digits(s@));
    if d.len() == 0 {
        return None;
    }
    let mut value: u64 = 0;
    let mut i: usize = 0;
    while i < d.len()
        invariant
            d@ == unsigned_digits(s@),
            i <= d@.len(),
            value <= max,
            value == digits_value(d@.take(i as int)),
            forall|k: int| 0 <= k < i ==> is_digit(#[trigger] d@[k]),
        decreases d@.len() - i,
    {
        let c = d[i];
        if c < '0' || c > '9' {
            assert(!is_digit(d@[i as int]));
            return None;
        }
        let v = (c as u32 - 0x30) as u64;
        proof {
            lemma_digits_grow(d@, i + 1);
            assert(d@.take(i + 1).drop_last() =~= d@.take(i as int));
        }
        if value > (max - (if v <= max { v } else { max })) / 10 || v > max {
            return None;
        }
        value = value * 10 + v;
        i += 1;
    }
    assert(d@.take(i as int) =~= d@);
    Some(value)
}

/// The character that stands for a hexadecimal digit, lower-case.
pub open spec fn hex_char(d: nat) -> char {
    if d < 10 {
        (d + 0x30) as char
    } else {
        (d + 0x57) as char
    }
}

/// The last `width` hexadecimal digits of `n`.
pub open spec fn hex(n: nat, width: nat) -> Seq<char>
    decreases width,
{
    if width == 0 {
        Seq::empty()
    } else {
        hex(n / 16, (width - 1) as nat).push(hex_char(n % 16))
    }
}

/// The last `width` hexadecimal digits of `n`.
pub fn to_hex(n: u64, width: u32) -> (r: Vec<char>)
    ensures
        r@ == hex(n as nat, width as nat),
    decreases width,
{
    if width == 0 {
        let out: Vec<char> = Vec::new();
        assert(out@ =~= hex(n as nat, 0));
        return out;
    }
    let mut out = to_hex(n / 16, width - 1);
    let d = (n % 16) as u8;
    let c = if d < 10 {
        (d + 0x30) as char
    } else {
        (d + 0x57) as char
    };
    out.push(c);
    out
}

/// Appends characters to a string.
pub fn append_chars(s: &mut String, v: &[char])
    ensures
        final(s)@ == old(s)@ + v@,
{
    let mut i: usize = 0;
    while i < v.len()
        invariant
            i <= v@.len(),
            s@ == old(s)@ + v@.take(i as int),
        decreases v@.len() - i,
    {
        s.push(v[i]);
        assert(v@.take(i + 1) =~= v@.take(i as int).push(v@[i as int]));
        assert(s@ =~= old(s)@ + v@.take(i + 1));
        i += 1;
    }
    assert(v@.take(i as int) =~= v@);
}

/// `n` written in decimal, as a string.
pub fn decimal_string(n: u64) -> (r: String)
    ensures
        r@ == decimal(n as nat),
{
    let d = to_decimal(n);
    string_of(d.as_slice())
}

// ---------------------------------------------------------------------------
// Alphabetical order

/// `a` comes before `b` in the order of code points, which is the order of their UTF-8 bytes.
pub open spec fn comes_before(a: Seq<char>, b: Seq<char>) -> bool
    decreases a.len(),
{
    if b.len() == 0 {
        false
    } else if a.len() == 0 {
        true
    } else if a.first() == b.first() {
        comes_before(a.drop_first(), b.drop_first())
    } else {
        a.first() < b.first()
    }
}

/// Of two texts one comes before the other, unless they are the same.
pub proof fn lemma_alphabet_total(a: Seq<char>, b: Seq<char>)
    ensures
        comes_before(a, b) || comes_before(b, a) || a == b,
        !(comes_before(a, b) && comes_before(b, a)),
        !comes_before(a, a),
    decreases a.len(),
{
    if a.len() > 0 {
        lemma_alphabet_total(a.drop_first(), a.drop_first());
    }
    if a.len() > 0 && b.len() > 0 {
        lemma_alphabet_total(a.drop_first(), b.drop_first());
        if a.first() == b.first() && a.drop_first() == b.drop_first() {
            assert(a =~= seq![a.first()] + a.drop_first());
            assert(b =~= seq![b.first()] + b.drop_first());
        }
    } else if a.len() == 0 && b.len() == 0 {
        assert(a =~= b);
    }
}

/// The order carries over.
pub proof fn lemma_alphabet_transitive(a: Seq<char>, b: Seq<char>, c: Seq<char>)
    requires
        comes_before(a, b),
        comes_before(b, c),
    ensures
        comes_before(a, c),
    decreases a.len(),
{
    if a.len() > 0 && a.first() == b.first() && b.first() == c.first() {
        lemma_alphabet_transitive(a.drop_first(), b.drop_first(), c.drop_first());
    }
}

/// Whether `a` comes before `b` in the order of code points.
pub fn is_before(a: &[char], b: &[char]) -> (r: bool)
    ensures
        r == comes_before(a@, b@),
{
    let mut i: usize = 0;
    assert(a@.skip(0) =~= a@);
    assert(b@.skip(0) =~= b@);
    while i < a.len() && i < b.len() && a[i] == b[i]
        invariant
            i <= a@.len(),
            i <= b@.len(),
            comes_before(a@, b@) == comes_before(a@.skip(i as int), b@.skip(i as int)),
        decreases a@.len() - i,
    {
        assert(a@.skip(i as int).drop_first() =~= a@.skip(i + 1));
        assert(b@.skip(i as int).drop_first() =~= b@.skip(i + 1));
        i += 1;
    }
    if i >= b.len() {
        false
    } else if i >= a.len() {
        true
    } else {
        a[i] < b[i]
    }
}

// ---------------------------------------------------------------------------
// Paths

/// The path of `rel` in the directory `base`: a slash between the two, unless `base` ends in
/// one or is empty.
pub open spec fn under(base: Seq<char>, rel: Seq<char>) -> Seq<char> {
    if base.len() == 0 || base.last() == '/' {
        base + rel
    } else {
        base + "/"@ + rel
    }
}

/// The path of `rel` in the directory `base`.
pub fn join_under(base: &str, rel: &str) -> (r: String)
    ensures
        r@ == under(base@, rel@),
{
    let chars = chars_of(base);
    let n = chars.len();
    let mut s = String::from_str(base);
    if n > 0 && chars[n - 1] != '/' {
        s.append("/");
    }
    s.append(rel);
    s
}

/// The extension of a file name: what follows its last dot, if that dot is not the first
/// character of the name.
pub open spec fn extension(name: Seq<char>) -> Option<Seq<char>> {
    match rsplit_once(name, "."@) {
        Some((stem, ext)) => if stem.len() == 0 || name == ".."@ {
            None
        } else {
            Some(ext)
        },
        None => None,
    }
}

/// The extension of a file name.
pub fn extension_of(name: &[char]) -> (r: Option<&[char]>)
    ensures
        match r {
            Some(ext) => extension(name@) == Some(ext@),
            None => extension(name@) is None,
        },
{
    let dot = chars_of(".");
    let parent = chars_of("..");
    match split_last(name, dot.as_slice()) {
        Some((stem, ext)) => if stem.len() == 0 || same(name, parent.as_slice()) {
            None
        } else {
            Some(ext)
        },
        None => None,
    }
}

// ---------------------------------------------------------------------------
// What the operations on text keep

/// Spaces, tabs and the ends of lines are blank; letters, digits and what is printed between
/// them are not.
pub proof fn lemma_what_is_blank(c: char)
    ensures
        c == ' ' || c == '\t' || c == '\n' || c == '\r' ==> is_blank(c),
        '!' <= c <= '~' ==> !is_blank(c),
{
}

proof fn lemma_trim_start_at(s: Seq<char>) -> (a: int)
    ensures
        0 <= a <= s.len(),
        trim_start(s) == s.skip(a),
        forall|i: int| 0 <= i < a ==> is_blank(#[trigger] s[i]),
        a < s.len() ==> !is_blank(s[a]),
    decreases s.len(),
{
    if s.len() > 0 && is_blank(s.first()) {
        let b = lemma_trim_start_at(s.drop_first());
        assert(s.skip(b + 1) =~= s.drop_first().skip(b));
        assert forall|i: int| 0 <= i < b + 1 implies is_blank(#[trigger] s[i]) by {
            if i > 0 {
                assert(s[i] == s.drop_first()[i - 1]);
            }
        }
        b + 1
    } else {
        assert(s.skip(0) =~= s);
        0
    }
}

proof fn lemma_trim_end_at(s: Seq<char>) -> (b: int)
    ensures
        0 <= b <= s.len(),
        trim_end(s) == s.take(b),
        forall|i: int| b <= i < s.len() ==> is_blank(#[trigger] s[i]),
        b > 0 ==> !is_blank(s[b - 1]),
    decreases s.len(),
{
    if s.len() > 0 && is_blank(s.last()) {
        let b = lemma_trim_end_at(s.drop_last());
        assert(s.take(b) =~= s.drop_last().take(b));
        assert forall|i: int| b <= i < s.len() implies is_blank(#[trigger] s[i]) by {
            if i < s.len() - 1 {
                assert(s[i] == s.drop_last()[i]);
            }
        }
        b
    } else {
        assert(s.take(s.len() as int) =~= s);
        s.len() as int
    }
}

/// Trimming takes blanks away at both ends, all of them, and nothing else: what is left is a
/// part of the text that neither starts nor ends with a blank.
pub proof fn lemma_trimming_takes_the_blanks(s: Seq<char>) -> (at: (int, int))
    ensures
        0 <= at.0 <= at.1 <= s.len(),
        trim(s) == s.subrange(at.0, at.1),
        forall|i: int| 0 <= i < s.len() && !(at.0 <= i < at.1) ==> is_blank(#[trigger] s[i]),
        at.0 < at.1 ==> !is_blank(s[at.0]) && !is_blank(s[at.1 - 1]),
{
    let a = lemma_trim_start_at(s);
    let t = s.skip(a);
    let b = lemma_trim_end_at(t);
    assert(t.take(b) =~= s.subrange(a, a + b));
    assert forall|i: int| 0 <= i < s.len() && !(a <= i < a + b) implies is_blank(
        #[trigger] s[i],
    ) by {
        if i >= a + b {
            assert(s[i] == t[i - a]);
        }
    }
    if b > 0 {
        assert(t[b - 1] == s[a + b - 1]);
    }
    (a, a + b)
}

/// A text without blanks at its ends is what is left of it between any blanks.
pub proof fn lemma_trimming_undoes_padding(left: Seq<char>, s: Seq<char>, right: Seq<char>)
    requires
        forall|i: int| 0 <= i < left.len() ==> is_blank(#[trigger] left[i]),
        forall|i: int| 0 <= i < right.len() ==> is_blank(#[trigger] right[i]),
        s.len() > 0 ==> !is_blank(s.first()) && !is_blank(s.last()),
    ensures
        trim(left + s + right) == s,
{
    let all = left + s + right;
    let at = lemma_trimming_takes_the_blanks(all);
    let n = left.len() as int;
    let m = n + s.len();
    assert forall|i: int| 0 <= i < n implies is_blank(#[trigger] all[i]) by {
        assert(all[i] == left[i]);
    }
    assert forall|i: int| m <= i < all.len() implies is_blank(#[trigger] all[i]) by {
        assert(all[i] == right[i - m]);
    }
    if s.len() > 0 {
        assert(all[n] == s.first());
        assert(all[m - 1] == s.last());
        assert(at.0 == n && at.1 == m);
        assert(all.subrange(n, m) =~= s);
    } else {
        assert(at.0 == at.1) by {
            if at.0 < at.1 {
                assert(is_blank(all[at.0]));
            }
        }
        assert(all.subrange(at.0, at.1) =~= s);
    }
}

/// Only the letters of the English alphabet change their case, each to its counterpart; nothing
/// is added and nothing moves.
pub proof fn lemma_case_of_letters(s: Seq<char>)
    ensures
        upper(s).len() == s.len(),
        lower(s).len() == s.len(),
        forall|i: int|
            0 <= i < s.len() ==> #[trigger] upper(s)[i] as int == (if 97 <= s[i] as int <= 122 {
                s[i] as int - 32
            } else {
                s[i] as int
            }),
        forall|i: int|
            0 <= i < s.len() ==> #[trigger] lower(s)[i] as int == (if 65 <= s[i] as int <= 90 {
                s[i] as int + 32
            } else {
                s[i] as int
            }),
        upper(lower(s)) == upper(s),
        lower(upper(s)) == lower(s),
{
    assert(upper(lower(s)) =~= upper(s));
    assert(lower(upper(s)) =~= lower(s));
}

proof fn lemma_until_blank(w: Seq<char>, rest: Seq<char>)
    requires
        forall|i: int| 0 <= i < w.len() ==> !is_blank(#[trigger] w[i]),
        rest.len() > 0 ==> is_blank(rest.first()),
    ensures
        until_blank(w + rest) == w,
    decreases w.len(),
{
    if w.len() == 0 {
        assert(w + rest =~= rest);
        assert(until_blank(w + rest) =~= w);
    } else {
        assert((w + rest).first() == w[0]);
        assert((w + rest).drop_first() =~= w.drop_first() + rest);
        assert forall|i: int| 0 <= i < w.drop_first().len() implies !is_blank(
            #[trigger] w.drop_first()[i],
        ) by {
            assert(w.drop_first()[i] == w[i + 1]);
        }
        lemma_until_blank(w.drop_first(), rest);
        assert(seq![w.first()] + w.drop_first() =~= w);
    }
}

/// The first word is what stands between the blanks in front and the next blank, and there is
/// one unless all is blank.
pub proof fn lemma_the_first_word(left: Seq<char>, w: Seq<char>, rest: Seq<char>)
    requires
        forall|i: int| 0 <= i < left.len() ==> is_blank(#[trigger] left[i]),
        forall|i: int| 0 <= i < w.len() ==> !is_blank(#[trigger] w[i]),
        w.len() == 0 ==> rest.len() == 0,
        rest.len() > 0 ==> is_blank(rest.first()),
    ensures
        first_word(left + w + rest) == (if w.len() > 0 {
            Some(w)
        } else {
            None
        }),
{
    let all = left + w + rest;
    let n = left.len() as int;
    let a = lemma_trim_start_at(all);
    assert forall|i: int| 0 <= i < n implies is_blank(#[trigger] all[i]) by {
        assert(all[i] == left[i]);
    }
    if w.len() > 0 {
        assert(all[n] == w[0]);
    }
    assert(a == n);
    assert(all.skip(n) =~= w + rest);
    lemma_until_blank(w, rest);
}

/// No piece of a split holds the separator, and there is one piece more than there are
/// separators.
pub proof fn lemma_pieces_hold_no_separator(s: Seq<char>, c: char)
    ensures
        forall|i: int| 0 <= i < split_on(s, c).len() ==> !(#[trigger] split_on(s, c)[i]).contains(c),
        split_on(s, c).len() == s.filter(|x: char| x == c).len() + 1,
    decreases s.len(),
{
    reveal(Seq::filter);
    if s.len() > 0 {
        let head = split_on(s.drop_last(), c);
        lemma_pieces_hold_no_separator(s.drop_last(), c);
        lemma_split_not_empty(s.drop_last(), c);
        let all = split_on(s, c);
        assert forall|i: int| 0 <= i < all.len() implies !(#[trigger] all[i]).contains(c) by {
            if s.last() == c {
                if i < head.len() {
                    assert(all[i] == head[i]);
                }
            } else if i < head.len() - 1 {
                assert(all[i] == head[i]);
            } else {
                let p = head.last();
                assert(p == head[head.len() - 1]);
                assert(all[i] == p.push(s.last()));
                if all[i].contains(c) {
                    let k = choose|k: int| 0 <= k < all[i].len() && all[i][k] == c;
                    assert(k < p.len());
                    assert(p[k] == c);
                }
            }
        }
    } else {
        assert(split_on(s, c)[0] =~= Seq::<char>::empty());
    }
}

proof fn lemma_split_without(s: Seq<char>, c: char)
    requires
        !s.contains(c),
    ensures
        split_on(s, c) == seq![s],
    decreases s.len(),
{
    if s.len() > 0 {
        assert(s.contains(s.last()));
        assert(!s.drop_last().contains(c)) by {
            if s.drop_last().contains(c) {
                let k = choose|k: int| 0 <= k < s.drop_last().len() && s.drop_last()[k] == c;
                assert(s[k] == c);
            }
        }
        lemma_split_without(s.drop_last(), c);
        assert(s.drop_last().push(s.last()) =~= s);
        assert(split_on(s, c) =~= seq![s]);
    } else {
        assert(s =~= Seq::<char>::empty());
        assert(split_on(s, c) =~= seq![s]);
    }
}

/// A separator ends the first piece: the pieces behind it are those of the rest.
pub proof fn lemma_a_separator_ends_a_piece(a: Seq<char>, c: char, rest: Seq<char>)
    requires
        !a.contains(c),
    ensures
        split_on(a, c) == seq![a],
        split_on(a.push(c) + rest, c) == seq![a] + split_on(rest, c),
    decreases rest.len(),
{
    lemma_split_without(a, c);
    let all = a.push(c) + rest;
    if rest.len() == 0 {
        assert(all =~= a.push(c));
        assert(a.push(c).drop_last() =~= a);
        assert(split_on(all, c) =~= seq![a] + split_on(rest, c));
    } else {
        lemma_a_separator_ends_a_piece(a, c, rest.drop_last());
        lemma_split_not_empty(rest.drop_last(), c);
        let tail = split_on(rest.drop_last(), c);
        assert(all.drop_last() =~= a.push(c) + rest.drop_last());
        assert(all.last() == rest.last());
        assert((seq![a] + tail).last() == tail.last());
        assert((seq![a] + tail).drop_last() =~= seq![a] + tail.drop_last());
        assert(split_on(all, c) =~= seq![a] + split_on(rest, c));
    }
}

/// A line ends at a line feed, and a carriage return before it is no part of the line. What
/// follows is lines of its own; the last needs no line feed, and an empty rest is no line.
pub proof fn lemma_lines_end_at_line_feeds(a: Seq<char>, rest: Seq<char>)
    requires
        !a.contains('\n'),
    ensures
        lines(a.push('\n') + rest) == seq![
            if a.len() > 0 && a.last() == '\r' {
                a.drop_last()
            } else {
                a
            },
        ] + lines(rest),
        lines(a) == (if a.len() == 0 {
            Seq::empty()
        } else {
            seq![a]
        }),
{
    lemma_a_separator_ends_a_piece(a, '\n', rest);
    lemma_split_not_empty(rest, '\n');
    let tail = split_on(rest, '\n');
    let all = seq![a] + tail;
    assert(all.last() == tail.last());
    assert(all.drop_last() =~= seq![a] + tail.drop_last());
    assert(lines(a.push('\n') + rest) =~= seq![without_return(a)] + lines(rest));
    assert(lines(a) =~= (if a.len() == 0 {
        Seq::empty()
    } else {
        seq![a]
    }));
}

proof fn lemma_single_at(s: Seq<char>, c: char, i: int)
    ensures
        occurs_at(s, seq![c], i) <==> 0 <= i < s.len() && s[i] == c,
{
    if 0 <= i < s.len() {
        assert(s.subrange(i, i + 1) =~= seq![s[i]]);
        assert(seq![c][0] == c);
        assert(seq![s[i]][0] == s[i]);
    }
}

/// What follows the last separator, and what stands before it: the separator is not in the
/// part behind, and a text without it is not split.
pub proof fn lemma_split_at_the_last(head: Seq<char>, c: char, tail: Seq<char>)
    requires
        !tail.contains(c),
    ensures
        rsplit_once(head.push(c) + tail, seq![c]) == Some((head, tail)),
        rsplit_once(tail, seq![c]) is None,
        after_last(head.push(c) + tail, c) == tail,
        after_last(tail, c) == tail,
{
    let s = head.push(c) + tail;
    let n = head.len() as int;
    lemma_single_at(s, c, n);
    assert(s[n] == c);
    assert forall|j: int| occurs_at(s, seq![c], j) implies j <= n by {
        lemma_single_at(s, c, j);
        if j > n {
            assert(tail[j - n - 1] == c);
        }
    }
    lemma_rsplit_once_at(s, seq![c], n);
    assert(s.take(n) =~= head);
    assert(s.skip(n + 1) =~= tail);
    assert(!contains(tail, seq![c])) by {
        if contains(tail, seq![c]) {
            let i = choose|i: int| occurs_at(tail, seq![c], i);
            lemma_single_at(tail, c, i);
            assert(tail[i] == c);
        }
    }
}

/// The extension is what follows the last dot of a name, where something stands before it.
pub proof fn lemma_the_extension_follows_the_last_dot(stem: Seq<char>, ext: Seq<char>)
    requires
        !ext.contains('.'),
    ensures
        stem.len() > 0 && (stem.push('.') + ext) != ".."@ ==> extension(stem.push('.') + ext)
            == Some(ext),
        stem.len() == 0 ==> extension(stem.push('.') + ext) is None,
        extension(ext) is None,
{
    reveal_strlit(".");
    assert("."@ =~= seq!['.']);
    lemma_split_at_the_last(stem, '.', ext);
}

/// Zeros in front of a row of digits do not count.
pub proof fn lemma_zeros_in_front_do_not_count(zeros: Seq<char>, d: Seq<char>)
    requires
        forall|i: int| 0 <= i < zeros.len() ==> #[trigger] zeros[i] == '0',
    ensures
        digits_value(zeros + d) == digits_value(d),
    decreases zeros.len() + d.len(),
{
    if d.len() > 0 {
        assert((zeros + d).drop_last() =~= zeros + d.drop_last());
        lemma_zeros_in_front_do_not_count(zeros, d.drop_last());
    } else if zeros.len() > 0 {
        assert(zeros + d =~= zeros);
        assert(zeros.drop_last() + d =~= zeros.drop_last());
        assert(zeros.last() == zeros[zeros.len() - 1]);
        lemma_zeros_in_front_do_not_count(zeros.drop_last(), d);
    } else {
        assert(zeros + d =~= d);
    }
}

/// A number is read from its digits, with any zeros and one plus sign before them; a text with
/// anything else in it is no number, and neither is one that is too large.
pub proof fn lemma_what_reads_as_a_number(s: Seq<char>, max: nat)
    ensures
        parse_uint(seq!['+'] + s, max) == (if s.len() > 0 && s.first() == '+' {
            None
        } else {
            parse_uint(s, max)
        }),
        forall|i: int|
            0 < i < s.len() && !('0' <= #[trigger] s[i] <= '9') ==> parse_uint(s, max) is None,
        s.len() == 0 ==> parse_uint(s, max) is None,
        s.len() > 0 && s[0] != '+' && !('0' <= s[0] <= '9') ==> parse_uint(s, max) is None,
        parse_uint(s, max) matches Some(n) ==> n <= max,
{
    let signed = seq!['+'] + s;
    assert(signed.drop_first() =~= s);
    assert(signed.first() == '+');
    if s.len() > 0 && s.first() == '+' {
        assert(!is_digit(s[0]));
        assert(!all_digits(s));
    }
    assert forall|i: int| 0 < i < s.len() && !('0' <= #[trigger] s[i] <= '9') implies parse_uint(
        s,
        max,
    ) is None by {
        let d = unsigned_digits(s);
        if s.first() == '+' {
            assert(d[i - 1] == s[i]);
        } else {
            assert(d[i] == s[i]);
        }
    }
    if s.len() > 0 && s[0] != '+' && !('0' <= s[0] <= '9') {
        assert(!is_digit(s[0]));
    }
}

/// A path under a directory has exactly one slash between the two where the directory has a
/// name and does not end in one.
pub proof fn lemma_paths_under_a_directory(base: Seq<char>, rel: Seq<char>)
    ensures
        ends_with(under(base, rel), rel),
        starts_with(under(base, rel), base),
        base.len() > 0 ==> under(base, rel).len() > base.len() + rel.len() || base.last() == '/',
        base.len() > 0 && base.last() != '/' ==> under(base, rel) == base.push('/') + rel,
        base.len() == 0 ==> under(base, rel) == rel,
{
    reveal_strlit("/");
    let u = under(base, rel);
    assert(u.subrange(u.len() - rel.len(), u.len() as int) =~= rel);
    assert(u.subrange(0, base.len() as int) =~= base);
    assert(base + "/"@ + rel =~= base.push('/') + rel);
    assert(base.len() == 0 ==> base + rel =~= rel);
}

/// The number that a hexadecimal digit stands for.
pub open spec fn hex_value(c: char) -> int {
    if '0' <= c <= '9' {
        c as int - 48
    } else {
        c as int - 87
    }
}

/// A number written in hexadecimal has as many digits as asked for, each lower-case, and the
/// last of them is the number's remainder by sixteen.
pub proof fn lemma_hexadecimal_digits(n: nat, width: nat)
    ensures
        hex(n, width).len() == width,
        forall|i: int|
            0 <= i < width ==> '0' <= #[trigger] hex(n, width)[i] <= '9' || 'a' <= hex(n, width)[i]
                <= 'f',
        width > 0 ==> hex_value(hex(n, width).last()) == n % 16,
        width > 0 ==> hex(n, width).drop_last() == hex(n / 16, (width - 1) as nat),
    decreases width,
{
    if width > 0 {
        lemma_hexadecimal_digits(n / 16, (width - 1) as nat);
        let head = hex(n / 16, (width - 1) as nat);
        assert forall|i: int| 0 <= i < width implies '0' <= #[trigger] hex(n, width)[i] <= '9' || 'a'
            <= hex(n, width)[i] <= 'f' by {
            if i < width - 1 {
                assert(hex(n, width)[i] == head[i]);
            }
        }
        assert(hex(n, width).drop_last() =~= head);
    }
}

/// The pieces of two texts with a separator between them are those of the one, then those of
/// the other.
pub proof fn lemma_pieces_of_both(a: Seq<char>, c: char, b: Seq<char>)
    ensures
        split_on(a.push(c) + b, c) == split_on(a, c) + split_on(b, c),
    decreases b.len(),
{
    let all = a.push(c) + b;
    lemma_split_not_empty(a, c);
    if b.len() == 0 {
        assert(all =~= a.push(c));
        assert(a.push(c).drop_last() =~= a);
        assert(split_on(all, c) =~= split_on(a, c) + split_on(b, c));
    } else {
        lemma_pieces_of_both(a, c, b.drop_last());
        lemma_split_not_empty(b.drop_last(), c);
        let head = split_on(a, c);
        let tail = split_on(b.drop_last(), c);
        assert(all.drop_last() =~= a.push(c) + b.drop_last());
        assert(all.last() == b.last());
        assert((head + tail).last() == tail.last());
        assert((head + tail).drop_last() =~= head + tail.drop_last());
        assert(split_on(all, c) =~= head + split_on(b, c));
    }
}

/// Pieces without the separator come back out of the text that they are joined to.
pub proof fn lemma_split_undoes_join(parts: Seq<Seq<char>>, c: char)
    requires
        parts.len() > 0,
        forall|i: int| 0 <= i < parts.len() ==> !(#[trigger] parts[i]).contains(c),
    ensures
        split_on(join(parts, seq![c]), c) == parts,
    decreases parts.len(),
{
    let last = parts[parts.len() - 1];
    lemma_split_without(last, c);
    if parts.len() == 1 {
        assert(parts =~= seq![last]);
    } else {
        let less = parts.drop_last();
        assert forall|i: int| 0 <= i < less.len() implies !(#[trigger] less[i]).contains(c) by {
            assert(less[i] == parts[i]);
        }
        lemma_split_undoes_join(less, c);
        let a = join(less, seq![c]);
        assert(a + seq![c] + last =~= a.push(c) + last);
        lemma_pieces_of_both(a, c, last);
        assert(less + seq![last] =~= parts);
    }
}

/// What none of the pieces holds, and the separator is not, is not in what they are joined to.
pub proof fn lemma_join_adds_only_separators(parts: Seq<Seq<char>>, c: char, x: char)
    requires
        x != c,
        forall|i: int| 0 <= i < parts.len() ==> !(#[trigger] parts[i]).contains(x),
    ensures
        !join(parts, seq![c]).contains(x),
    decreases parts.len(),
{
    let all = join(parts, seq![c]);
    if parts.len() > 1 {
        let less = parts.drop_last();
        assert forall|i: int| 0 <= i < less.len() implies !(#[trigger] less[i]).contains(x) by {
            assert(less[i] == parts[i]);
        }
        lemma_join_adds_only_separators(less, c, x);
        let a = join(less, seq![c]);
        let last = parts[parts.len() - 1];
        if all.contains(x) {
            let k = choose|k: int| 0 <= k < all.len() && all[k] == x;
            if k < a.len() {
                assert(a[k] == x);
            } else if k > a.len() {
                assert(last[k - a.len() - 1] == x);
            }
        }
    }
}

/// A text holds another where it is something, that other and something again; it starts with it
/// where nothing stands before it, and ends with it where nothing follows.
pub proof fn lemma_what_a_text_holds(s: Seq<char>, p: Seq<char>, a: Seq<char>, b: Seq<char>)
    ensures
        contains(a + p + b, p),
        starts_with(p + b, p),
        ends_with(a + p, p),
        contains(s, p) ==> exists|i: int|
            0 <= i <= s.len() - p.len() && s == #[trigger] s.take(i) + p + s.skip(i + p.len()),
        starts_with(s, p) ==> s.len() >= p.len() && s == p + s.skip(p.len() as int),
        ends_with(s, p) ==> s.len() >= p.len() && s == s.take(s.len() - p.len()) + p,
        strip_prefix(p + b, p) == Some(b),
        strip_suffix(a + p, p) == Some(a),
{
    let all = a + p + b;
    assert(all.subrange(a.len() as int, (a.len() + p.len()) as int) =~= p);
    assert(occurs_at(all, p, a.len() as int));
    assert((p + b).subrange(0, p.len() as int) =~= p);
    assert((p + b).skip(p.len() as int) =~= b);
    let ap = a + p;
    assert(ap.subrange(ap.len() - p.len(), ap.len() as int) =~= p);
    assert(ap.take(ap.len() - p.len()) =~= a);
    if contains(s, p) {
        let i = choose|i: int| occurs_at(s, p, i);
        assert(s =~= s.take(i) + s.subrange(i, i + p.len()) + s.skip(i + p.len()));
    }
    if starts_with(s, p) {
        assert(s =~= s.subrange(0, p.len() as int) + s.skip(p.len() as int));
    }
    if ends_with(s, p) {
        let n = s.len() - p.len();
        assert(s =~= s.take(n) + s.subrange(n, n + p.len()));
    }
}

/// Of two texts the one comes first whose character is lower where they first differ, and one
/// that ends there comes before one that goes on.
pub proof fn lemma_the_first_difference_decides(
    p: Seq<char>,
    x: char,
    a: Seq<char>,
    y: char,
    b: Seq<char>,
)
    ensures
        x < y ==> comes_before(p + (seq![x] + a), p + (seq![y] + b)),
        comes_before(p, p + (seq![x] + a)),
    decreases p.len(),
{
    let s = p + (seq![x] + a);
    let t = p + (seq![y] + b);
    if p.len() == 0 {
        assert(s.first() == x && t.first() == y);
    } else {
        lemma_the_first_difference_decides(p.drop_first(), x, a, y, b);
        assert(s.first() == p.first() && t.first() == p.first());
        assert(s.drop_first() =~= p.drop_first() + (seq![x] + a));
        assert(t.drop_first() =~= p.drop_first() + (seq![y] + b));
    }
}

/// A number is written with its highest digit first: another digit behind it makes it ten times
/// as large, and the digit more.
pub proof fn lemma_a_digit_behind_is_worth_one(n: nat, d: nat, s: Seq<char>, c: char)
    requires
        d < 10,
        '0' <= c <= '9',
    ensures
        decimal(d) == seq![(48 + d) as char],
        n > 0 ==> decimal(10 * n + d) == decimal(n).push((48 + d) as char),
        digits_value(s.push(c)) == 10 * digits_value(s) + (c as int - 48),
{
    assert(s.push(c).drop_last() =~= s);
    if n > 0 {
        assert((10 * n + d) / 10 == n);
        assert((10 * n + d) % 10 == d);
    }
}

} // verus!
