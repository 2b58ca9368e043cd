//! Windows.
//!
//! **`GetPhysicallyInstalledSystemMemory` is the wrong call.** It reads the SMBIOS table and
//! fails outright on virtual machines. `GlobalMemoryStatusEx` asks the memory manager instead
//! and works everywhere.
//!
//! Every `W` entry point takes and gives UTF-16.

use vstd::prelude::*;
use vstd::slice::slice_subrange;
use super::{AccelMemory, AccelView, FactsView, MachineFacts};
use crate::platform;
use crate::text;

verus! {

/// Adapters to look at. Numbered from `0000`, densely, and eight is well past any real
/// machine — the point of a bound is that a corrupt registry cannot spin here.
pub const MAX_ADAPTERS: u32 = 8;

/// A number in decimal, with zeros in front of it up to a width of four.
pub open spec fn four_digits(n: nat) -> Seq<char> {
    let d = text::decimal(n);
    if d.len() >= 4 {
        d
    } else {
        Seq::new((4 - d.len()) as nat, |i: int| '0') + d
    }
}

/// The registry key of a display adapter, under the class key of all of them. Every graphics
/// driver registers a numbered subkey there: `0000`, `0001` and so on.
pub fn adapter_subkey(adapter: u32) -> (r: String)
    ensures
        r@
            == "SYSTEM\\CurrentControlSet\\Control\\Class\\{4d36e968-e325-11ce-bfc1-08002be10318}\\"@
            + four_digits(adapter as nat),
{
    let mut s = String::from_str(
        "SYSTEM\\CurrentControlSet\\Control\\Class\\{4d36e968-e325-11ce-bfc1-08002be10318}\\",
    );
    let ghost key = s@;
    let d = text::to_decimal(adapter as u64);
    let mut width = d.len();
    let ghost mut zeros: Seq<char> = Seq::empty();
    assert(s@ =~= key + zeros);
    while width < 4
        invariant
            d@.len() <= width,
            width <= 4 || width == d@.len(),
            zeros.len() == width - d@.len(),
            forall|i: int| 0 <= i < zeros.len() ==> zeros[i] == '0',
            s@ == key + zeros,
        decreases 4 - width,
    {
        s.push('0');
        proof {
            zeros = zeros.push('0');
        }
        assert(s@ =~= key + zeros);
        width += 1;
    }
    text::append_chars(&mut s, d.as_slice());
    assert(s@ =~= key + four_digits(adapter as nat));
    s
}

/// Dedicated video memory, of what the display drivers recorded.
pub open spec fn discrete_of(sizes: Seq<nat>) -> AccelView {
    match platform::largest(sizes) {
        Some(bytes) => AccelView::Discrete { bytes: bytes as u64, vendor: "display driver"@ },
        None => AccelView::Unknown,
    }
}

/// The sizes that the drivers recorded, as plain numbers.
pub open spec fn sizes_view(sizes: Seq<u64>) -> Seq<nat> {
    sizes.map_values(|n: u64| n as nat)
}

/// Dedicated video memory, of the `HardwareInformation.qwMemorySize` values that the display
/// drivers recorded.
///
/// The largest adapter, not the sum: two cards are two pools, and a laptop with switchable
/// graphics lists both its integrated and its discrete part.
pub fn discrete_vram(sizes: &Vec<u64>) -> (r: AccelMemory)
    ensures
        r@ == discrete_of(sizes_view(sizes@)),
{
    let mut best: Option<u64> = None;
    let mut i: usize = 0;
    let ghost all = sizes_view(sizes@);
    while i < sizes.len()
        invariant
            i <= sizes@.len(),
            all == sizes_view(sizes@),
            platform::largest(all.take(i as int)) == platform::figure_view(best),
        decreases sizes@.len() - i,
    {
        assert(all.take(i + 1) =~= all.take(i as int).push(sizes@[i as int] as nat));
        best = platform::better(best, sizes[i]);
        i += 1;
    }
    assert(all.take(i as int) =~= all);
    match best {
        Some(bytes) => AccelMemory::Discrete { bytes, vendor: "display driver" },
        None => AccelMemory::Unknown,
    }
}

/// What the OS says of itself: total and available memory where the memory manager answered,
/// the product name that the firmware recorded, and the sizes that the display drivers did.
pub fn machine_facts(
    memory: Option<(u64, u64)>,
    page_bytes: usize,
    cpus: usize,
    model: Option<String>,
    adapter_sizes: &Vec<u64>,
) -> (r: MachineFacts)
    ensures
        r@ == (FactsView {
            ram_bytes: match memory {
                Some((total, _)) => total,
                None => 0,
            },
            available_bytes: match memory {
                Some((_, available)) => Some(available),
                None => None,
            },
            page_bytes,
            cpus,
            model: platform::model_view(model),
            accel_memory: discrete_of(sizes_view(adapter_sizes@)),
        }),
        r@.accel_memory.host_ceiling() is None,
{
    let (ram_bytes, available_bytes) = match memory {
        Some((total, available)) => (total, Some(available)),
        None => (0, None),
    };
    // Never `Limited`: Windows has no equivalent of the Apple wired limit, and what the
    // display driver reports is a separate pool.
    let accel_memory = discrete_vram(adapter_sizes);
    MachineFacts { ram_bytes, available_bytes, page_bytes, cpus, model, accel_memory }
}

/// Peak working set of this process so far, in bytes. Zero where the OS will not say.
pub fn peak_rss_bytes(peak_working_set: Option<u64>) -> (r: u64)
    ensures
        r == match peak_working_set {
            Some(bytes) => bytes,
            None => 0,
        },
{
    match peak_working_set {
        Some(bytes) => bytes,
        None => 0,
    }
}

// ---------------------------------------------------------------------------
// UTF-16

/// A character in UTF-16: one unit, or a surrogate pair.
pub open spec fn utf16_char(c: char) -> Seq<u16> {
    let u = c as u32 as int;
    if u < 0x1_0000 {
        seq![u as u16]
    } else {
        seq![(0xD800 + (u - 0x1_0000) / 0x400) as u16, (0xDC00 + (u - 0x1_0000) % 0x400) as u16]
    }
}

/// A text in UTF-16.
pub open spec fn utf16(s: Seq<char>) -> Seq<u16>
    decreases s.len(),
{
    if s.len() == 0 {
        Seq::empty()
    } else {
        utf16(s.drop_last()) + utf16_char(s.last())
    }
}

/// NUL-terminated UTF-16, as every `W` entry point expects.
pub fn wide(s: &str) -> (r: Vec<u16>)
    ensures
        r@ == utf16(s@).push(0),
{
    let chars = text::chars_of(s);
    let mut out: Vec<u16> = Vec::new();
    let mut i: usize = 0;
    assert(utf16(chars@.take(0)) =~= Seq::<u16>::empty());
    while i < chars.len()
        invariant
            i <= chars@.len(),
            out@ == utf16(chars@.take(i as int)),
        decreases chars@.len() - i,
    {
        let ghost before = out@;
        let u: u32 = chars[i] as u32;
        if u < 0x1_0000 {
            out.push(u as u16);
        } else {
            out.push((0xD800 + (u - 0x1_0000) / 0x400) as u16);
            out.push((0xDC00 + (u - 0x1_0000) % 0x400) as u16);
        }
        proof {
            let c = chars@[i as int];
            assert(chars@.take(i + 1).drop_last() =~= chars@.take(i as int));
            assert(chars@.take(i + 1).last() == c);
            assert(out@ =~= before + utf16_char(c));
        }
        i += 1;
    }
    assert(chars@.take(i as int) =~= chars@);
    out.push(0);
    out
}

/// Units up to the first zero.
pub open spec fn until_zero(units: Seq<u16>) -> Seq<u16>
    decreases units.len(),
{
    if units.len() == 0 || units.first() == 0 {
        Seq::empty()
    } else {
        seq![units.first()] + until_zero(units.drop_first())
    }
}

/// What `std::string::String::from_utf16_lossy` makes of UTF-16 units.
pub uninterp spec fn utf16_text(units: Seq<u16>) -> Seq<char>;

/// `std::string::String::from_utf16_lossy`: the text that the units encode. Units that encode
/// a text come out as that text; what stands for the others is only named, by [`utf16_text`].
#[verifier::external_body]
fn from_utf16(units: &[u16]) -> (r: String)
    ensures
        r@ == utf16_text(units@),
        forall|s: Seq<char>| units@ == #[trigger] utf16(s) ==> r@ == s,
{
    String::from_utf16_lossy(units)
}

proof fn lemma_until_zero(units: Seq<u16>, n: int)
    requires
        0 <= n <= units.len(),
        forall|i: int| 0 <= i < n ==> units[i] != 0,
        n == units.len() || units[n] == 0,
    ensures
        until_zero(units) == units.take(n),
    decreases n,
{
    if n == 0 {
        assert(units.take(0) =~= Seq::<u16>::empty());
    } else {
        lemma_until_zero(units.drop_first(), n - 1);
        assert(units.take(n) =~= seq![units.first()] + units.drop_first().take(n - 1));
    }
}

proof fn lemma_char_units(c: char)
    requires
        c != '\0',
    ensures
        forall|i: int| 0 <= i < utf16_char(c).len() ==> #[trigger] utf16_char(c)[i] != 0,
{
    assert(c as u32 != 0);
}

proof fn lemma_no_zero_units(s: Seq<char>)
    requires
        !s.contains('\0'),
    ensures
        forall|i: int| 0 <= i < utf16(s).len() ==> #[trigger] utf16(s)[i] != 0,
    decreases s.len(),
{
    if s.len() > 0 {
        assert(s.contains(s.last()));
        assert(!s.drop_last().contains('\0')) by {
            if s.drop_last().contains('\0') {
                let k = choose|k: int| 0 <= k < s.drop_last().len() && s.drop_last()[k] == '\0';
                assert(s[k] == '\0');
            }
        }
        lemma_no_zero_units(s.drop_last());
        let head = utf16(s.drop_last());
        let c = s.last();
        lemma_char_units(c);
        assert forall|i: int| 0 <= i < utf16(s).len() implies #[trigger] utf16(s)[i] != 0 by {
            if i < head.len() {
                assert(utf16(s)[i] == head[i]);
            } else {
                assert(utf16(s)[i] == utf16_char(c)[i - head.len()]);
            }
        }
    }
}

/// The machine's model, of the buffer that the registry wrote the firmware's product name to.
///
/// A name that was written as NUL-terminated UTF-16 is read as that name. Motherboards that
/// were never configured leave placeholder strings there, which are filtered out.
pub fn system_product_name(buf: &[u16]) -> (r: Option<String>)
    ensures
        platform::model_view(r) == platform::product_of(utf16_text(until_zero(buf@))),
        forall|s: Seq<char>|
            until_zero(buf@) == #[trigger] utf16(s) ==> platform::model_view(r)
                == platform::product_of(s),
        forall|s: Seq<char>|
            !s.contains('\0') && buf@ == (#[trigger] utf16(s)).push(0) ==> platform::model_view(r)
                == platform::product_of(s),
{
    let mut n: usize = 0;
    while n < buf.len() && buf[n] != 0
        invariant
            n <= buf@.len(),
            forall|i: int| 0 <= i < n ==> buf@[i] != 0,
        decreases buf@.len() - n,
    {
        n += 1;
    }
    let units = slice_subrange(buf, 0, n);
    proof {
        lemma_until_zero(buf@, n as int);
        assert(units@ =~= buf@.take(n as int));
    }
    let name = from_utf16(units);
    proof {
        assert forall|s: Seq<char>|
            !s.contains('\0') && buf@ == (#[trigger] utf16(s)).push(0) implies name@ == s by {
            lemma_no_zero_units(s);
            lemma_until_zero(buf@, utf16(s).len() as int);
            assert(buf@.take(utf16(s).len() as int) =~= utf16(s));
        }
    }
    platform::product_name(name.as_str())
}

/// A character below 65536 is its own unit. One beyond is a high and a low surrogate, which
/// together give its number.
pub proof fn lemma_surrogates_give_the_character(c: char)
    ensures
        (c as int) < 65536 ==> utf16_char(c) == seq![c as u16],
        c as int >= 65536 ==> {
            &&& utf16_char(c).len() == 2
            &&& 0xD800 <= utf16_char(c)[0] <= 0xDBFF
            &&& 0xDC00 <= utf16_char(c)[1] <= 0xDFFF
            &&& c as int == 0x10000 + (utf16_char(c)[0] - 0xD800) * 0x400 + (utf16_char(c)[1]
                - 0xDC00)
        },
{
}

/// A text's units are those of its characters, one behind the other.
pub proof fn lemma_units_follow_the_characters(a: Seq<char>, b: Seq<char>)
    ensures
        utf16(a + b) == utf16(a) + utf16(b),
        utf16(Seq::empty()) == Seq::<u16>::empty(),
        forall|c: char| #[trigger] utf16(a.push(c)) == utf16(a) + utf16_char(c),
    decreases b.len(),
{
    assert forall|c: char| #[trigger] utf16(a.push(c)) == utf16(a) + utf16_char(c) by {
        assert(a.push(c).drop_last() =~= a);
    }
    if b.len() == 0 {
        assert(a + b =~= a);
        assert(utf16(a) + utf16(b) =~= utf16(a));
    } else {
        assert((a + b).drop_last() =~= a + b.drop_last());
        lemma_units_follow_the_characters(a, b.drop_last());
        assert(utf16(a + b) =~= utf16(a) + utf16(b));
    }
}

/// What stands before the first zero is read, and nothing behind it.
pub proof fn lemma_the_first_zero_ends_the_name(name: Seq<u16>, rest: Seq<u16>)
    requires
        forall|i: int| 0 <= i < name.len() ==> #[trigger] name[i] != 0,
    ensures
        until_zero(name.push(0) + rest) == name,
        until_zero(name) == name,
{
    let all = name.push(0) + rest;
    let n = name.len() as int;
    assert forall|i: int| 0 <= i < n implies all[i] != 0 by {
        assert(all[i] == name[i]);
    }
    lemma_until_zero(all, n);
    assert(all.take(n) =~= name);
    lemma_until_zero(name, n);
    assert(name.take(n) =~= name);
}

/// An adapter's number is written with at least four digits, and reads back as itself.
pub proof fn lemma_adapters_are_numbered_in_four_digits(n: nat)
    ensures
        four_digits(n).len() >= 4,
        text::all_digits(four_digits(n)),
        text::digits_value(four_digits(n)) == n,
        n >= 1000 ==> four_digits(n) == text::decimal(n),
        n < 10000 ==> four_digits(n).len() == 4,
{
    text::lemma_decimal_reads_back(n);
    let d = text::decimal(n);
    reveal_with_fuel(text::decimal, 4);
    text::lemma_decimal_reads_back(n / 1000);
    if n >= 1000 {
        assert(n / 10 / 10 / 10 == n / 1000);
    }
    if d.len() < 4 {
        let zeros = Seq::new((4 - d.len()) as nat, |i: int| '0');
        text::lemma_zeros_in_front_do_not_count(zeros, d);
        assert forall|i: int| 0 <= i < 4 implies text::is_digit(
            #[trigger] four_digits(n)[i],
        ) by {
            if i >= zeros.len() {
                assert(four_digits(n)[i] == d[i - zeros.len()]);
            }
        }
    }
}

/// The largest adapter is reported, and none where every driver recorded zero.
pub proof fn lemma_the_largest_adapter_is_reported(sizes: Seq<u64>)
    ensures
        match discrete_of(sizes_view(sizes)) {
            AccelView::Discrete { bytes, vendor } => {
                &&& bytes > 0
                &&& vendor == "display driver"@
                &&& sizes.contains(bytes)
                &&& forall|i: int| 0 <= i < sizes.len() ==> #[trigger] sizes[i] <= bytes
            },
            AccelView::Unknown => forall|i: int|
                0 <= i < sizes.len() ==> #[trigger] sizes[i] == 0,
            _ => false,
        },
{
    let all = sizes_view(sizes);
    platform::lemma_the_largest_wins(all);
    assert forall|i: int| 0 <= i < sizes.len() implies #[trigger] sizes[i] == all[i] by {}
    if platform::largest(all) is Some {
        let best = platform::largest(all).unwrap();
        let k = choose|k: int| 0 <= k < all.len() && all[k] == best;
        assert(sizes[k] == best);
    }
}

} // verus!
