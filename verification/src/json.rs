//! JSON documents as trees, read and written by `serde_json`.
//!
//! The control messages of a tunnel and the frames that carry a request or a
//! response are JSON texts. `serde_json` turns a text into a document and a
//! document into a text; what a document means for the tunnel is decided
//! here, on the tree.

use vstd::prelude::*;
use crate::text::{chars_of, same_chars};

verus! {

/// A JSON document.
#[derive(Debug)]
pub enum Json {
    Null,
    Bool(bool),
    /// A whole number from 0 to the largest `u64`.
    Number(u64),
    /// Any other number, by the numeral that `serde_json` writes for it.
    OtherNumber(String),
    Text(String),
    List(Vec<Json>),
    /// The members of an object, in the order in which `serde_json` holds
    /// them.
    Object(Vec<(String, Json)>),
}

/// A JSON document as a value: texts are sequences of characters, lists and
/// objects are sequences.
pub enum JsonView {
    Null,
    Bool(bool),
    Number(u64),
    OtherNumber(Seq<char>),
    Text(Seq<char>),
    List(Seq<JsonView>),
    Object(Seq<(Seq<char>, JsonView)>),
}

/// The document that a tree stands for.
pub open spec fn doc_of(j: Json) -> JsonView
    decreases j,
{
    match j {
        Json::Null => JsonView::Null,
        Json::Bool(b) => JsonView::Bool(b),
        Json::Number(n) => JsonView::Number(n),
        Json::OtherNumber(s) => JsonView::OtherNumber(s@),
        Json::Text(s) => JsonView::Text(s@),
        Json::List(items) => JsonView::List(docs_of(items@)),
        Json::Object(members) => JsonView::Object(members_of(members@)),
    }
}

/// The documents of the items of a list.
pub open spec fn docs_of(items: Seq<Json>) -> Seq<JsonView>
    decreases items,
{
    if items.len() == 0 {
        Seq::empty()
    } else {
        docs_of(items.drop_last()).push(doc_of(items.last()))
    }
}

/// The names and documents of the members of an object.
pub open spec fn members_of(members: Seq<(String, Json)>) -> Seq<(Seq<char>, JsonView)>
    decreases members,
{
    if members.len() == 0 {
        Seq::empty()
    } else {
        members_of(members.drop_last()).push((members.last().0@, doc_of(members.last().1)))
    }
}

impl View for Json {
    type V = JsonView;

    open spec fn view(&self) -> JsonView {
        doc_of(*self)
    }
}

/// The documents of a list are those of its items, one for one.
pub proof fn lemma_docs_of(items: Seq<Json>)
    ensures
        docs_of(items).len() == items.len(),
        forall|k: int| 0 <= k < items.len() ==> #[trigger] docs_of(items)[k] == items[k]@,
    decreases items.len(),
{
    if items.len() > 0 {
        lemma_docs_of(items.drop_last());
    }
}

/// The members of an object are those of its tree, one for one.
pub proof fn lemma_members_of(members: Seq<(String, Json)>)
    ensures
        members_of(members).len() == members.len(),
        forall|k: int|
            0 <= k < members.len() ==> #[trigger] members_of(members)[k] == (
                members[k].0@,
                members[k].1@,
            ),
    decreases members.len(),
{
    if members.len() > 0 {
        lemma_members_of(members.drop_last());
    }
}

#[verifier::external_type_specification]
#[verifier::external_body]
pub struct ExJsonValue(serde_json::Value);

/// The document that `serde_json` reads from a text, where it reads one.
pub uninterp spec fn json_doc(text: Seq<u8>) -> Option<JsonView>;

/// The text that `serde_json` writes for a document.
pub uninterp spec fn json_text(doc: JsonView) -> Seq<u8>;

/// The tree of a `serde_json::Value`: one node for each value, by variant.
/// A number that `Number::as_u64` gives is held as such, any other number by
/// the numeral that `serde_json` displays.
#[verifier::external_body]
fn tree_of_value(v: &serde_json::Value) -> Json {
    match v {
        serde_json::Value::Null => Json::Null,
        serde_json::Value::Bool(b) => Json::Bool(*b),
        serde_json::Value::Number(n) => match n.as_u64() {
            Some(u) => Json::Number(u),
            None => Json::OtherNumber(n.to_string()),
        },
        serde_json::Value::String(s) => Json::Text(s.clone()),
        serde_json::Value::Array(a) => Json::List(a.iter().map(tree_of_value).collect()),
        serde_json::Value::Object(o) => Json::Object(
            o.iter().map(|(k, x)| (k.clone(), tree_of_value(x))).collect(),
        ),
    }
}

/// The `serde_json::Value` of a tree: one value for each node, by variant.
/// A numeral that `serde_json` does not read as a number becomes `null`.
#[verifier::external_body]
fn value_of_tree(j: &Json) -> serde_json::Value {
    match j {
        Json::Null => serde_json::Value::Null,
        Json::Bool(b) => serde_json::Value::Bool(*b),
        Json::Number(n) => serde_json::Value::from(*n),
        Json::OtherNumber(s) => s.parse::<serde_json::Number>().map_or(
            serde_json::Value::Null,
            serde_json::Value::Number,
        ),
        Json::Text(s) => serde_json::Value::String(s.clone()),
        Json::List(a) => serde_json::Value::Array(a.iter().map(value_of_tree).collect()),
        Json::Object(o) => serde_json::Value::Object(
            o.iter().map(|(k, x)| (k.clone(), value_of_tree(x))).collect(),
        ),
    }
}

/// `serde_json::from_slice` at the type `serde_json::Value`: reads one JSON
/// document from the whole of `data`. The result is what `serde_json` makes
/// of the text and of nothing else; it is `None` where `serde_json` reports
/// an error.
#[verifier::external_body]
pub(crate) fn parse_json(data: &[u8]) -> (r: Option<Json>)
    ensures
        match r {
            Some(doc) => json_doc(data@) == Some(doc@),
            None => json_doc(data@) is None,
        },
{
    match serde_json::from_slice::<serde_json::Value>(data) {
        Ok(v) => Some(tree_of_value(&v)),
        Err(_) => None,
    }
}

/// `serde_json::to_vec` on the `serde_json::Value` of a tree: writes the
/// document as compact JSON text. The result is what `serde_json` makes of
/// the document and of nothing else.
#[verifier::external_body]
pub(crate) fn render_json(doc: &Json) -> (r: Vec<u8>)
    ensures
        r@ == json_text(doc@),
{
    serde_json::to_vec(&value_of_tree(doc)).unwrap_or_default()
}

/// The value of the first member named `name`.
pub open spec fn member(members: Seq<(Seq<char>, JsonView)>, name: Seq<char>) -> Option<JsonView>
    decreases members.len(),
{
    if members.len() == 0 {
        None
    } else {
        let m = members[0];
        if m.0 == name {
            Some(m.1)
        } else {
            member(members.skip(1), name)
        }
    }
}

/// The member named `name` is the first one so named.
pub proof fn lemma_member_at(members: Seq<(Seq<char>, JsonView)>, k: int, name: Seq<char>)
    requires
        0 <= k < members.len(),
        forall|j: int| 0 <= j < k ==> (#[trigger] members[j]).0 != name,
        members[k].0 == name,
    ensures
        member(members, name) == Some(members[k].1),
    decreases k,
{
    if k > 0 {
        let rest = members.skip(1);
        assert forall|j: int| 0 <= j < k - 1 implies (#[trigger] rest[j]).0 != name by {
            assert(rest[j] == members[j + 1]);
        }
        assert(rest[k - 1] == members[k]);
        assert(members[0].0 != name);
        lemma_member_at(rest, k - 1, name);
    }
}

/// Where no member is named `name`, there is no member of that name.
pub proof fn lemma_no_member(members: Seq<(Seq<char>, JsonView)>, name: Seq<char>)
    requires
        forall|j: int| 0 <= j < members.len() ==> (#[trigger] members[j]).0 != name,
    ensures
        member(members, name) is None,
    decreases members.len(),
{
    if members.len() > 0 {
        let rest = members.skip(1);
        assert forall|j: int| 0 <= j < rest.len() implies (#[trigger] rest[j]).0 != name by {
            assert(rest[j] == members[j + 1]);
        }
        assert(members[0].0 != name);
        lemma_no_member(rest, name);
    }
}

impl JsonView {
    /// The member `name` of an object.
    pub open spec fn field(self, name: Seq<char>) -> Option<JsonView> {
        match self {
            JsonView::Object(members) => member(members, name),
            _ => None,
        }
    }

    /// The characters of a text.
    pub open spec fn text(self) -> Option<Seq<char>> {
        match self {
            JsonView::Text(s) => Some(s),
            _ => None,
        }
    }

    /// The member `name` of an object where it is a text.
    pub open spec fn text_field(self, name: Seq<char>) -> Option<Seq<char>> {
        match self.field(name) {
            Some(v) => v.text(),
            None => None,
        }
    }

    /// The member `name` of an object where it is `true` or `false`.
    pub open spec fn bool_field(self, name: Seq<char>) -> Option<bool> {
        match self.field(name) {
            Some(JsonView::Bool(b)) => Some(b),
            _ => None,
        }
    }
}

impl Json {
    /// Reads a JSON text: the document that `serde_json` reads from it, or
    /// nothing where `serde_json` reads none.
    pub fn parse(data: &[u8]) -> (r: Option<Json>)
        ensures
            match r {
                Some(doc) => json_doc(data@) == Some(doc@),
                None => json_doc(data@) is None,
            },
    {
        parse_json(data)
    }

    /// Writes the document as JSON text: the text that `serde_json` writes
    /// for it.
    pub fn render(&self) -> (r: Vec<u8>)
        ensures
            r@ == json_text(self@),
    {
        render_json(self)
    }

    /// The member `name` of an object, if this is an object that has one.
    pub fn get(&self, name: &str) -> (r: Option<&Json>)
        ensures
            match r {
                Some(j) => self@.field(name@) == Some(j@),
                None => self@.field(name@) is None,
            },
    {
        match self {
            Json::Object(members) => {
                let want = chars_of(name);
                let mut i: usize = 0;
                let ghost all = self@->Object_0;
                proof {
                    lemma_members_of(members@);
                    assert(all.skip(0) == all);
                }
                while i < members.len()
                    invariant
                        i <= members.len(),
                        want@ == name@,
                        self@ == JsonView::Object(all),
                        all.len() == members@.len(),
                        forall|k: int|
                            0 <= k < all.len() ==> #[trigger] all[k] == (
                                members@[k].0@,
                                members@[k].1@,
                            ),
                        member(all, name@) == member(all.skip(i as int), name@),
                    decreases members.len() - i,
                {
                    let key = chars_of(members[i].0.as_str());
                    proof {
                        let rest = all.skip(i as int);
                        assert(rest[0] == all[i as int]);
                        assert(rest.skip(1) == all.skip(i + 1));
                    }
                    if same_chars(key.as_slice(), want.as_slice()) {
                        let found = &members[i].1;
                        assert(member(all.skip(i as int), name@) == Some(found@));
                        return Some(found);
                    }
                    i += 1;
                }
                None
            },
            _ => None,
        }
    }

    /// The string of a text node.
    pub fn as_str(&self) -> (r: Option<&String>)
        ensures
            match r {
                Some(s) => self@.text() == Some(s@),
                None => self@.text() is None,
            },
    {
        match self {
            Json::Text(s) => Some(s),
            _ => None,
        }
    }

    /// The member `name` of an object where it is a text.
    pub fn get_str(&self, name: &str) -> (r: Option<&String>)
        ensures
            match r {
                Some(s) => self@.text_field(name@) == Some(s@),
                None => self@.text_field(name@) is None,
            },
    {
        match self.get(name) {
            Some(v) => v.as_str(),
            None => None,
        }
    }

    /// The member `name` of an object where it is `true` or `false`.
    pub fn get_bool(&self, name: &str) -> (r: Option<bool>)
        ensures
            r == self@.bool_field(name@),
    {
        match self.get(name) {
            Some(Json::Bool(b)) => Some(*b),
            _ => None,
        }
    }
}

} // verus!
