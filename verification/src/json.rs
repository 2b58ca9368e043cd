//! JSON documents as plain data.
//!
//! `serde_json` reads and writes the text. What it read is copied into [`Json`], which keeps of
//! a number which unsigned integer it is, or else how it is written.

use serde_json::Value as Document;
use vstd::prelude::*;
use crate::text;

verus! {

/// A JSON document.
#[derive(Debug, PartialEq, Eq)]
pub enum Json {
    Null,
    Bool(bool),
    /// A number that is an integer, neither negative nor above 64 bits.
    Uint(u64),
    /// Any other number, as it is written.
    Number(String),
    Str(String),
    Array(Vec<Json>),
    /// The members of an object. No key occurs twice in a document that was read from text.
    Object(Vec<(String, Json)>),
}

/// What a [`Json`] holds.
#[verifier::ext_equal]
pub enum JsonView {
    Null,
    Bool(bool),
    Uint(u64),
    Number(Seq<char>),
    Str(Seq<char>),
    Array(Seq<JsonView>),
    Object(Seq<(Seq<char>, JsonView)>),
}

/// What a document holds.
pub open spec fn json_view(j: Json) -> JsonView
    decreases j,
{
    match j {
        Json::Null => JsonView::Null,
        Json::Bool(b) => JsonView::Bool(b),
        Json::Uint(n) => JsonView::Uint(n),
        Json::Number(t) => JsonView::Number(t@),
        Json::Str(s) => JsonView::Str(s@),
        Json::Array(v) => JsonView::Array(items_view(v@)),
        Json::Object(v) => JsonView::Object(members_view(v@)),
    }
}

/// What the items of an array hold.
pub open spec fn items_view(v: Seq<Json>) -> Seq<JsonView>
    decreases v,
{
    if v.len() == 0 {
        Seq::empty()
    } else {
        items_view(v.drop_last()).push(json_view(v.last()))
    }
}

/// What the members of an object hold.
pub open spec fn members_view(v: Seq<(String, Json)>) -> Seq<(Seq<char>, JsonView)>
    decreases v,
{
    if v.len() == 0 {
        Seq::empty()
    } else {
        members_view(v.drop_last()).push((v.last().0@, json_view(v.last().1)))
    }
}

impl View for Json {
    type V = JsonView;

    open spec fn view(&self) -> JsonView {
        json_view(*self)
    }
}

/// The member of an object with the given key.
pub open spec fn member(members: Seq<(Seq<char>, JsonView)>, key: Seq<char>) -> Option<JsonView>
    decreases members.len(),
{
    if members.len() == 0 {
        None
    } else if members.last().0 == key {
        Some(members.last().1)
    } else {
        member(members.drop_last(), key)
    }
}

impl JsonView {
    /// The member with the given key, of an object that has one.
    pub open spec fn get(self, key: Seq<char>) -> Option<JsonView> {
        match self {
            JsonView::Object(members) => member(members, key),
            _ => None,
        }
    }

    /// The item at an index, of an array that is long enough.
    pub open spec fn at(self, i: int) -> Option<JsonView> {
        match self {
            JsonView::Array(items) => if 0 <= i < items.len() {
                Some(items[i])
            } else {
                None
            },
            _ => None,
        }
    }

    /// The unsigned integer that this is.
    pub open spec fn uint(self) -> Option<u64> {
        match self {
            JsonView::Uint(n) => Some(n),
            _ => None,
        }
    }

    /// The string that this is.
    pub open spec fn string(self) -> Option<Seq<char>> {
        match self {
            JsonView::Str(s) => Some(s),
            _ => None,
        }
    }

    /// The unsigned integer under the given key.
    pub open spec fn get_uint(self, key: Seq<char>) -> Option<u64> {
        match self.get(key) {
            Some(v) => v.uint(),
            None => None,
        }
    }

    /// The string under the given key.
    pub open spec fn get_string(self, key: Seq<char>) -> Option<Seq<char>> {
        match self.get(key) {
            Some(v) => v.string(),
            None => None,
        }
    }
}

/// The items of an array, one by one.
pub proof fn lemma_items_view(v: Seq<Json>)
    ensures
        items_view(v).len() == v.len(),
        forall|i: int| 0 <= i < v.len() ==> #[trigger] items_view(v)[i] == v[i]@,
    decreases v.len(),
{
    if v.len() > 0 {
        lemma_items_view(v.drop_last());
        assert forall|i: int| 0 <= i < v.len() implies #[trigger] items_view(v)[i] == v[i]@ by {
            if i < v.len() - 1 {
                assert(items_view(v.drop_last())[i] == v.drop_last()[i]@);
            }
        }
    }
}

/// The members of an object, one by one.
pub proof fn lemma_members_view(v: Seq<(String, Json)>)
    ensures
        members_view(v).len() == v.len(),
        forall|i: int| 0 <= i < v.len() ==> #[trigger] members_view(v)[i] == (v[i].0@, v[i].1@),
    decreases v.len(),
{
    if v.len() > 0 {
        lemma_members_view(v.drop_last());
        assert forall|i: int| 0 <= i < v.len() implies #[trigger] members_view(v)[i] == (
            v[i].0@,
            v[i].1@,
        ) by {
            if i < v.len() - 1 {
                assert(members_view(v.drop_last())[i] == (
                    v.drop_last()[i].0@,
                    v.drop_last()[i].1@,
                ));
            }
        }
    }
}

impl Json {
    /// The member with the given key, of an object that has one.
    pub fn get(&self, key: &str) -> (r: Option<&Json>)
        ensures
            match r {
                Some(v) => self@.get(key@) == Some(v@),
                None => self@.get(key@) is None,
            },
    {
        match self {
            Json::Object(members) => {
                let wanted = key.to_owned();
                let mut i = members.len();
                assert(members@.take(i as int) =~= members@);
                while i > 0
                    invariant
                        wanted@ == key@,
                        self@ == JsonView::Object(members_view(members@)),
                        i <= members@.len(),
                        member(members_view(members@), key@) == member(
                            members_view(members@.take(i as int)),
                            key@,
                        ),
                    decreases i,
                {
                    proof {
                        let head = members@.take(i as int);
                        assert(head.drop_last() =~= members@.take(i - 1));
                        assert(members_view(head).drop_last() =~= members_view(head.drop_last()));
                    }
                    i -= 1;
                    if members[i].0 == wanted {
                        return Some(&members[i].1);
                    }
                }
                None
            },
            _ => None,
        }
    }

    /// The item at an index, of an array that is long enough.
    pub fn at(&self, i: usize) -> (r: Option<&Json>)
        ensures
            match r {
                Some(v) => self@.at(i as int) == Some(v@),
                None => self@.at(i as int) is None,
            },
    {
        match self {
            Json::Array(items) => {
                proof {
                    lemma_items_view(items@);
                }
                if i < items.len() {
                    Some(&items[i])
                } else {
                    None
                }
            },
            _ => None,
        }
    }

    /// The unsigned integer that this is.
    pub fn as_u64(&self) -> (r: Option<u64>)
        ensures
            r == self@.uint(),
    {
        match self {
            Json::Uint(n) => Some(*n),
            _ => None,
        }
    }

    /// The string that this is.
    pub fn as_str(&self) -> (r: Option<&str>)
        ensures
            match r {
                Some(s) => self@.string() == Some(s@),
                None => self@.string() is None,
            },
    {
        match self {
            Json::Str(s) => Some(s.as_str()),
            _ => None,
        }
    }

    /// The unsigned integer under the given key.
    pub fn get_u64(&self, key: &str) -> (r: Option<u64>)
        ensures
            r == self@.get_uint(key@),
    {
        match self.get(key) {
            Some(v) => v.as_u64(),
            None => None,
        }
    }

    /// The string under the given key.
    pub fn get_str(&self, key: &str) -> (r: Option<&str>)
        ensures
            match r {
                Some(s) => self@.get_string(key@) == Some(s@),
                None => self@.get_string(key@) is None,
            },
    {
        match self.get(key) {
            Some(v) => v.as_str(),
            None => None,
        }
    }
}

// ---------------------------------------------------------------------------
// Reading

/// A document as `serde_json` holds it.
#[verifier::external_type_specification]
#[verifier::external_body]
pub struct ExDocument(Document);

/// What a `serde_json::Value` holds.
pub uninterp spec fn value_json(v: Document) -> JsonView;

/// What `serde_json::from_slice` makes of a text: the document, or what it says is wrong.
pub uninterp spec fn json_parse(text: Seq<u8>) -> Result<JsonView, Seq<char>>;

/// One level of a document: what it is, with the documents inside it left as they are.
pub enum JsonNode {
    Null,
    Bool(bool),
    /// The unsigned integer that a number is, if it is one, and how it is written.
    Number(Option<u64>, String),
    Str(String),
    Array(Vec<Document>),
    Object(Vec<(String, Document)>),
}

/// What the documents of a list hold.
pub open spec fn nodes_json(v: Seq<Document>) -> Seq<JsonView> {
    v.map_values(|x: Document| value_json(x))
}

/// What the members of an object hold.
pub open spec fn members_json(v: Seq<(String, Document)>) -> Seq<(Seq<char>, JsonView)> {
    v.map_values(|x: (String, Document)| (x.0@, value_json(x.1)))
}

impl JsonNode {
    /// What the document holds.
    pub open spec fn model(&self) -> JsonView {
        match self {
            JsonNode::Null => JsonView::Null,
            JsonNode::Bool(b) => JsonView::Bool(*b),
            JsonNode::Number(Some(n), _) => JsonView::Uint(*n),
            JsonNode::Number(None, t) => JsonView::Number(t@),
            JsonNode::Str(s) => JsonView::Str(s@),
            JsonNode::Array(v) => JsonView::Array(nodes_json(v@)),
            JsonNode::Object(v) => JsonView::Object(members_json(v@)),
        }
    }
}

/// Takes one level of a `serde_json::Value` apart: its variant, a number by
/// `serde_json::Number::as_u64` and by how it is displayed, the members of an object in the
/// order of the map.
#[verifier::external_body]
fn json_node(v: Document) -> (r: JsonNode)
    ensures
        r.model() == value_json(v),
{
    match v {
        Document::Null => JsonNode::Null,
        Document::Bool(b) => JsonNode::Bool(b),
        Document::Number(n) => JsonNode::Number(n.as_u64(), n.to_string()),
        Document::String(s) => JsonNode::Str(s),
        Document::Array(a) => JsonNode::Array(a),
        Document::Object(m) => JsonNode::Object(m.into_iter().collect()),
    }
}

/// `serde_json::from_slice` on any bytes: the document that the text is, or the error's text.
/// Which it is, is only named, by [`json_parse`].
#[verifier::external_body]
fn json_from_slice(text: &[u8]) -> (r: Result<Document, String>)
    ensures
        match r {
            Ok(v) => json_parse(text@) == Ok::<JsonView, Seq<char>>(value_json(v)),
            Err(e) => json_parse(text@) == Err::<JsonView, Seq<char>>(e@),
        },
{
    serde_json::from_slice(text).map_err(|e| e.to_string())
}

/// Copies a document.
fn json_from(v: Document) -> (r: Json)
    ensures
        r@ == value_json(v),
    decreases value_json(v), 1int,
{
    json_from_node(json_node(v))
}

/// Copies a document of which one level is taken apart.
fn json_from_node(top: JsonNode) -> (r: Json)
    ensures
        r@ == top.model(),
    decreases top.model(), 0int,
{
    match top {
        JsonNode::Null => Json::Null,
        JsonNode::Bool(b) => Json::Bool(b),
        JsonNode::Number(Some(n), _) => Json::Uint(n),
        JsonNode::Number(None, t) => Json::Number(t),
        JsonNode::Str(s) => Json::Str(s),
        JsonNode::Array(nodes) => {
            let ghost all = nodes@;
            let mut out: Vec<Json> = Vec::new();
            assert(items_view(out@) =~= nodes_json(all).take(0));
            for node in it: nodes
                invariant
                    it.seq() == all,
                    top.model() == JsonView::Array(nodes_json(all)),
                    items_view(out@) == nodes_json(all).take(it.index()),
            {
                let ghost k = it.index();
                let ghost before = out@;
                proof {
                    assert(top.model()->Array_0[k] == value_json(node));
                    assert(decreases_to!(top.model() => top.model()->Array_0[k]));
                }
                out.push(json_from(node));
                proof {
                    assert(out@.drop_last() =~= before);
                    assert(nodes_json(all).take(k + 1) =~= nodes_json(all).take(k).push(
                        value_json(node),
                    ));
                }
            }
            assert(nodes_json(all).take(all.len() as int) =~= nodes_json(all));
            Json::Array(out)
        },
        JsonNode::Object(nodes) => {
            let ghost all = nodes@;
            let mut out: Vec<(String, Json)> = Vec::new();
            assert(members_view(out@) =~= members_json(all).take(0));
            for pair in it: nodes
                invariant
                    it.seq() == all,
                    top.model() == JsonView::Object(members_json(all)),
                    members_view(out@) == members_json(all).take(it.index()),
            {
                let ghost k = it.index();
                let ghost before = out@;
                let (key, node) = pair;
                proof {
                    assert(top.model()->Object_0[k] == (key@, value_json(node)));
                    assert(decreases_to!(top.model() => top.model()->Object_0[k].1));
                }
                out.push((key, json_from(node)));
                proof {
                    assert(out@.drop_last() =~= before);
                    assert(members_json(all).take(k + 1) =~= members_json(all).take(k).push(
                        (key@, value_json(node)),
                    ));
                }
            }
            assert(members_json(all).take(all.len() as int) =~= members_json(all));
            Json::Object(out)
        },
    }
}

/// The JSON document that a text is, or what is wrong with it.
pub fn parse(text: &[u8]) -> (r: Result<Json, String>)
    ensures
        match r {
            Ok(j) => json_parse(text@) == Ok::<JsonView, Seq<char>>(j@),
            Err(e) => json_parse(text@) == Err::<JsonView, Seq<char>>(e@),
        },
{
    match json_from_slice(text) {
        Ok(v) => Ok(json_from(v)),
        Err(e) => Err(e),
    }
}

// ---------------------------------------------------------------------------
// Writing

/// What `serde_json::Value::to_string` makes of a document.
pub uninterp spec fn json_text(v: JsonView) -> Seq<char>;

/// How the member with the given key is written, of an object that has one.
pub open spec fn member_text(v: JsonView, key: Seq<char>) -> Option<Seq<char>> {
    match v.get(key) {
        Some(m) => Some(json_text(m)),
        None => None,
    }
}

/// The keys of an object stand in strict alphabetical order, so none occurs twice.
pub open spec fn keys_ascend(members: Seq<(Seq<char>, JsonView)>) -> bool {
    forall|i: int, j: int|
        0 <= i < j < members.len() ==> text::comes_before(
            (#[trigger] members[i]).0,
            (#[trigger] members[j]).0,
        )
}

impl JsonView {
    /// Neither an array nor an object, and no number but an unsigned integer.
    pub open spec fn is_scalar(self) -> bool {
        match self {
            JsonView::Null | JsonView::Bool(_) | JsonView::Uint(_) | JsonView::Str(_) => true,
            JsonView::Number(_) | JsonView::Array(_) | JsonView::Object(_) => false,
        }
    }

    /// An object of scalars.
    pub open spec fn is_flat(self) -> bool {
        match self {
            JsonView::Object(members) => {
                &&& keys_ascend(members)
                &&& forall|i: int| 0 <= i < members.len() ==> (#[trigger] members[i]).1.is_scalar()
            },
            _ => false,
        }
    }
}

/// A document that the crate writes: every object has its keys in order, and a number that is
/// no unsigned integer is a zero with a decimal point.
pub open spec fn is_writable(v: JsonView) -> bool
    decreases v,
{
    match v {
        JsonView::Null | JsonView::Bool(_) | JsonView::Uint(_) | JsonView::Str(_) => true,
        JsonView::Number(t) => t == "0.0"@,
        JsonView::Array(items) => forall|i: int|
            0 <= i < items.len() ==> is_writable(#[trigger] items[i]),
        JsonView::Object(members) => {
            &&& keys_ascend(members)
            &&& forall|i: int| 0 <= i < members.len() ==> is_writable((#[trigger] members[i]).1)
        },
    }
}

/// The UTF-8 bytes of a text are parsed as the given document.
pub open spec fn reads_back(text: Seq<char>, v: JsonView) -> bool {
    json_parse(vstd::utf8::encode_utf8(text)) == Ok::<JsonView, Seq<char>>(v)
}

/// Puts one level of a `serde_json::Value` together, an unsigned integer by
/// `serde_json::Value::from` and an object by collecting its members into the map. The map
/// keeps its keys in order and each of them once, so an object is what it was made of where
/// its keys ascend.
#[verifier::external_body]
fn json_document(node: JsonNode) -> (r: Document)
    requires
        node matches JsonNode::Number(n, _) ==> n is Some,
        node matches JsonNode::Object(v) ==> keys_ascend(members_json(v@)),
    ensures
        value_json(r) == node.model(),
{
    match node {
        JsonNode::Null => Document::Null,
        JsonNode::Bool(b) => Document::Bool(b),
        JsonNode::Number(n, _) => n.map_or(Document::Null, Document::from),
        JsonNode::Str(s) => Document::String(s),
        JsonNode::Array(a) => Document::Array(a),
        JsonNode::Object(m) => Document::Object(m.into_iter().collect()),
    }
}

/// `serde_json::Number::from_str`, for the one number with a decimal point that the crate
/// writes: a zero is read without rounding and displayed as it was written.
#[verifier::external_body]
fn json_number(written: &str) -> (r: Document)
    requires
        written@ == "0.0"@,
    ensures
        value_json(r) == JsonView::Number(written@),
{
    written.parse().map_or(Document::Null, Document::Number)
}

/// `serde_json::Value::to_string`: the text of a document. It is only named, by
/// [`json_text`], but for what every reader counts on: an object of scalars, written and read
/// again, is what it was.
#[verifier::external_body]
fn json_render(v: &Document) -> (r: String)
    ensures
        r@ == json_text(value_json(*v)),
        value_json(*v).is_flat() ==> reads_back(r@, value_json(*v)),
{
    v.to_string()
}

/// The document to write for a value.
fn json_to(v: Json) -> (r: Document)
    requires
        is_writable(v@),
    ensures
        value_json(r) == v@,
    decreases v@,
{
    match v {
        Json::Null => json_document(JsonNode::Null),
        Json::Bool(b) => json_document(JsonNode::Bool(b)),
        Json::Uint(n) => json_document(JsonNode::Number(Some(n), String::new())),
        Json::Number(t) => json_number(t.as_str()),
        Json::Str(s) => json_document(JsonNode::Str(s)),
        Json::Array(items) => {
            let ghost all = items@;
            let mut nodes: Vec<Document> = Vec::new();
            proof {
                lemma_items_view(all);
                assert(nodes_json(nodes@) =~= items_view(all).take(0));
            }
            for item in it: items
                invariant
                    it.seq() == all,
                    is_writable(v@),
                    v@ == JsonView::Array(items_view(all)),
                    items_view(all).len() == all.len(),
                    forall|i: int| 0 <= i < all.len() ==> #[trigger] items_view(all)[i] == all[i]@,
                    nodes_json(nodes@) == items_view(all).take(it.index()),
            {
                let ghost k = it.index();
                let ghost before = nodes@;
                proof {
                    assert(v@->Array_0[k] == item@);
                    assert(decreases_to!(v@ => v@->Array_0[k]));
                }
                let node = json_to(item);
                nodes.push(node);
                proof {
                    assert(nodes_json(nodes@) =~= nodes_json(before).push(value_json(node)));
                    assert(items_view(all).take(k + 1) =~= items_view(all).take(k).push(
                        items_view(all)[k],
                    ));
                }
            }
            assert(items_view(all).take(all.len() as int) =~= items_view(all));
            json_document(JsonNode::Array(nodes))
        },
        Json::Object(members) => {
            let ghost all = members@;
            let mut nodes: Vec<(String, Document)> = Vec::new();
            proof {
                lemma_members_view(all);
                assert(members_json(nodes@) =~= members_view(all).take(0));
            }
            for pair in it: members
                invariant
                    it.seq() == all,
                    is_writable(v@),
                    v@ == JsonView::Object(members_view(all)),
                    members_view(all).len() == all.len(),
                    forall|i: int|
                        0 <= i < all.len() ==> #[trigger] members_view(all)[i] == (
                            all[i].0@,
                            all[i].1@,
                        ),
                    members_json(nodes@) == members_view(all).take(it.index()),
            {
                let ghost k = it.index();
                let ghost before = nodes@;
                let (key, item) = pair;
                proof {
                    assert(v@->Object_0[k] == (key@, item@));
                    assert(decreases_to!(v@ => v@->Object_0[k].1));
                }
                let node = json_to(item);
                nodes.push((key, node));
                proof {
                    assert(members_json(nodes@) =~= members_json(before).push(
                        (key@, value_json(node)),
                    ));
                    assert(members_view(all).take(k + 1) =~= members_view(all).take(k).push(
                        members_view(all)[k],
                    ));
                }
            }
            assert(members_view(all).take(all.len() as int) =~= members_view(all));
            json_document(JsonNode::Object(nodes))
        },
    }
}

/// The text of a document. That of an object of scalars reads back as that object.
pub fn render(v: Json) -> (r: String)
    requires
        is_writable(v@),
    ensures
        r@ == json_text(v@),
        v@.is_flat() ==> reads_back(r@, v@),
{
    json_render(&json_to(v))
}

/// How the member with the given key of a document is written.
fn node_text(node: &JsonNode, key: &str) -> (r: Option<String>)
    ensures
        match r {
            Some(t) => member_text(node.model(), key@) == Some(t@),
            None => member_text(node.model(), key@) is None,
        },
{
    match node {
        JsonNode::Object(members) => {
            let wanted = key.to_owned();
            let ghost all = members_json(members@);
            let mut i = members.len();
            assert(all.take(i as int) =~= all);
            while i > 0
                invariant
                    wanted@ == key@,
                    all == members_json(members@),
                    node.model() == JsonView::Object(all),
                    i <= members@.len(),
                    member(all, key@) == member(all.take(i as int), key@),
                decreases i,
            {
                proof {
                    assert(all.take(i as int).drop_last() =~= all.take(i - 1));
                    assert(all.take(i as int).last() == all[i - 1]);
                }
                i -= 1;
                if members[i].0 == wanted {
                    return Some(json_render(&members[i].1));
                }
            }
            None
        },
        _ => None,
    }
}

/// The JSON document that a text is, with how its member under the given key is written; or
/// what is wrong with the text.
pub fn parse_noting(text: &[u8], key: &str) -> (r: Result<(Json, Option<String>), String>)
    ensures
        match r {
            Ok((j, noted)) => {
                &&& json_parse(text@) == Ok::<JsonView, Seq<char>>(j@)
                &&& match noted {
                    Some(t) => member_text(j@, key@) == Some(t@),
                    None => member_text(j@, key@) is None,
                }
            },
            Err(e) => json_parse(text@) == Err::<JsonView, Seq<char>>(e@),
        },
{
    match json_from_slice(text) {
        Ok(v) => {
            let node = json_node(v);
            let noted = node_text(&node, key);
            Ok((json_from_node(node), noted))
        },
        Err(e) => Err(e),
    }
}

/// Of several members with one key the last counts; a key that no member has gives nothing.
pub proof fn lemma_the_last_member_counts(
    before: Seq<(Seq<char>, JsonView)>,
    key: Seq<char>,
    value: JsonView,
    after: Seq<(Seq<char>, JsonView)>,
)
    requires
        forall|i: int| 0 <= i < after.len() ==> (#[trigger] after[i]).0 != key,
    ensures
        JsonView::Object(before.push((key, value)) + after).get(key) == Some(value),
        JsonView::Object(after).get(key) is None,
    decreases after.len(),
{
    let all = before.push((key, value)) + after;
    if after.len() == 0 {
        assert(all =~= before.push((key, value)));
    } else {
        assert(all.drop_last() =~= before.push((key, value)) + after.drop_last());
        assert(all.last() == after[after.len() - 1]);
        assert forall|i: int| 0 <= i < after.drop_last().len() implies (
        #[trigger] after.drop_last()[i]).0 != key by {
            assert(after.drop_last()[i] == after[i]);
        }
        lemma_the_last_member_counts(before, key, value, after.drop_last());
    }
}

/// Only an object has members, only an array items, and only a number or a string of the right
/// kind is read as one.
pub proof fn lemma_values_are_read_by_kind(v: JsonView, key: Seq<char>, i: int)
    ensures
        !(v is Object) ==> v.get(key) is None && v.get_uint(key) is None && v.get_string(
            key,
        ) is None,
        !(v is Array) ==> v.at(i) is None,
        v.uint() matches Some(n) ==> v == JsonView::Uint(n),
        v.string() matches Some(s) ==> v == JsonView::Str(s),
        forall|n: u64| #[trigger] JsonView::Uint(n).uint() == Some(n),
        forall|s: Seq<char>| #[trigger] JsonView::Str(s).string() == Some(s),
        v matches JsonView::Array(items) ==> (0 <= i < items.len() ==> v.at(i) == Some(items[i]))
            && (!(0 <= i < items.len()) ==> v.at(i) is None),
        v.get(key) matches Some(JsonView::Uint(n)) ==> v.get_uint(key) == Some(n),
        v.get(key) matches Some(JsonView::Str(s)) ==> v.get_string(key) == Some(s),
        !(v.get(key) matches Some(JsonView::Uint(n))) ==> v.get_uint(key) is None,
        !(v.get(key) matches Some(JsonView::Str(s))) ==> v.get_string(key) is None,
{
}

} // verus!
