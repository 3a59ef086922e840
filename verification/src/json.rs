//! The members of a JSON object, as the journal's JSON export writes one per
//! line, read through `serde_json`.

use vstd::prelude::*;

verus! {

/// What the journal parser reads of one member's value: a string, an array
/// (each element by the `u64` it holds, if it is a non-negative integer that
/// fits), or anything else.
#[derive(Debug)]
pub enum JsonMember {
    Str(String),
    Array(Vec<Option<u64>>),
    Other,
}

/// The mathematical value of a `JsonMember`.
pub enum JsonMemberView {
    Str(Seq<char>),
    Array(Seq<Option<u64>>),
    Other,
}

impl View for JsonMember {
    type V = JsonMemberView;

    open spec fn view(&self) -> JsonMemberView {
        match self {
            JsonMember::Str(s) => JsonMemberView::Str(s@),
            JsonMember::Array(items) => JsonMemberView::Array(items@),
            JsonMember::Other => JsonMemberView::Other,
        }
    }
}

/// The members of an object as (key, value) views.
pub open spec fn members_view(ms: Seq<(String, JsonMember)>) -> Seq<(Seq<char>, JsonMemberView)> {
    Seq::new(ms.len(), |i: int| (ms[i].0@, ms[i].1@))
}

/// The members of the JSON object that `text` holds, in the order in which
/// `serde_json`'s map yields them; `None` where `text` is not a JSON document
/// whose top level is an object.
pub uninterp spec fn json_object_members(text: Seq<char>) -> Option<
    Seq<(Seq<char>, JsonMemberView)>,
>;

/// `serde_json::from_str::<serde_json::Value>`, with the members of a
/// top-level object read into `JsonMember`s. The contract claims that the
/// result is `json_object_members` of the text, and that no key occurs twice
/// (serde_json keeps an object's members in a map); what `serde_json` accepts
/// as JSON is left to that name.
#[verifier::external_body]
pub(crate) fn parse_json_object(text: &str) -> (r: Option<Vec<(String, JsonMember)>>)
    ensures
        match r {
            Some(ms) => json_object_members(text@) == Some(members_view(ms@)),
            None => json_object_members(text@) is None,
        },
        r matches Some(ms) ==> forall|i: int, j: int|
            0 <= i < j < ms@.len() ==> ms@[i].0@ != ms@[j].0@,
{
    match serde_json::from_str::<serde_json::Value>(text) {
        Ok(serde_json::Value::Object(map)) => Some(
            map.into_iter().map(
                |(k, v)|
                    (k, match v {
                        serde_json::Value::String(s) => JsonMember::Str(s),
                        serde_json::Value::Array(a) => JsonMember::Array(
                            a.iter().map(|b| b.as_u64()).collect(),
                        ),
                        _ => JsonMember::Other,
                    }),
            ).collect(),
        ),
        _ => None,
    }
}

/// The value of the first member named `key` from index `i` on.
pub open spec fn member_from(ms: Seq<(Seq<char>, JsonMemberView)>, key: Seq<char>, i: int) -> Option<
    JsonMemberView,
>
    decreases ms.len() - i,
{
    if i < 0 || i >= ms.len() {
        None
    } else if ms[i].0 == key {
        Some(ms[i].1)
    } else {
        member_from(ms, key, i + 1)
    }
}

/// The value of the member named `key`, as `Value::get` finds it.
pub open spec fn member_of(ms: Seq<(Seq<char>, JsonMemberView)>, key: Seq<char>) -> Option<
    JsonMemberView,
> {
    member_from(ms, key, 0)
}

/// The member named `key`, if there is one.
pub fn find_member<'a>(ms: &'a Vec<(String, JsonMember)>, key: &str) -> (r: Option<&'a JsonMember>)
    ensures
        match r {
            Some(m) => member_of(members_view(ms@), key@) == Some(m@),
            None => member_of(members_view(ms@), key@) is None,
        },
{
    let k = String::from_str(key);
    let ghost mv = members_view(ms@);
    let mut i: usize = 0;
    while i < ms.len()
        invariant
            i <= ms.len(),
            mv == members_view(ms@),
            k@ == key@,
            member_of(mv, key@) == member_from(mv, key@, i as int),
        decreases ms.len() - i,
    {
        if ms[i].0 == k {
            return Some(&ms[i].1);
        }
        i += 1;
    }
    None
}

} // verus!
