//! JSON documents.
//!
//! Documents are read and written by `serde_json`. What a value of it holds is
//! a [`JsonText`].
use vstd::prelude::*;
use vstd::string::*;

use crate::text;

verus! {

/// What a JSON value holds. The members of an object stand in the order of their
/// keys, each key once.
pub enum JsonText {
    Null,
    Bool(bool),
    /// A number: its value, where it is a whole one that is not negative and fits
    /// in 64 bits, and how it is written.
    Number { whole: Option<u64>, written: Seq<char> },
    Text(Seq<char>),
    List(Seq<JsonText>),
    Object(Seq<(Seq<char>, JsonText)>),
}

/// A value of `serde_json`.
#[verifier::external_type_specification]
#[verifier::external_body]
pub struct ExValue(serde_json::Value);

/// What a value of `serde_json` holds.
pub uninterp spec fn value_of(v: serde_json::Value) -> JsonText;

/// What `serde_json` reads in a text; nothing where the text is no JSON.
pub uninterp spec fn json_of(raw: Seq<char>) -> Option<JsonText>;

/// The text that `serde_json` writes for a value, over several lines.
pub uninterp spec fn json_pretty(j: JsonText) -> Seq<char>;

pub open spec fn values_of(v: Seq<serde_json::Value>) -> Seq<JsonText> {
    Seq::new(v.len(), |i: int| value_of(v[i]))
}

pub open spec fn members_of(v: Seq<(String, serde_json::Value)>) -> Seq<(Seq<char>, JsonText)> {
    Seq::new(v.len(), |i: int| (v[i].0@, value_of(v[i].1)))
}

// ---------------------------------------------------------------------------
// Members of an object
// ---------------------------------------------------------------------------

/// The member under a key.
pub open spec fn member(members: Seq<(Seq<char>, JsonText)>, key: Seq<char>) -> Option<JsonText>
    decreases members.len(),
{
    if members.len() == 0 {
        None
    } else if members[0].0 == key {
        Some(members[0].1)
    } else {
        member(members.skip(1), key)
    }
}

/// The members with `value` under `key`: in place of the one that stood there, or
/// where the order of the keys has it.
pub open spec fn with_entry(
    members: Seq<(Seq<char>, JsonText)>,
    key: Seq<char>,
    value: JsonText,
) -> Seq<(Seq<char>, JsonText)>
    decreases members.len(),
{
    if members.len() == 0 {
        seq![(key, value)]
    } else if members[0].0 == key {
        seq![(key, value)] + members.skip(1)
    } else if text::at_most(key, members[0].0) {
        seq![(key, value)] + members
    } else {
        seq![members[0]] + with_entry(members.skip(1), key, value)
    }
}

/// A member that was put in is found, and every other member is as it was.
pub proof fn lemma_entry_kept(
    members: Seq<(Seq<char>, JsonText)>,
    key: Seq<char>,
    value: JsonText,
    other: Seq<char>,
)
    ensures
        member(with_entry(members, key, value), key) == Some(value),
        other != key ==> member(with_entry(members, key, value), other) == member(members, other),
    decreases members.len(),
{
    let now = with_entry(members, key, value);
    if members.len() == 0 {
        assert(member(now.skip(1), other) is None);
    } else if members[0].0 == key {
        assert(now.skip(1) =~= members.skip(1));
    } else if text::at_most(key, members[0].0) {
        assert(now.skip(1) =~= members);
    } else {
        lemma_entry_kept(members.skip(1), key, value, other);
        assert(now.skip(1) =~= with_entry(members.skip(1), key, value));
    }
}

/// Whether no key stands twice among the members.
pub open spec fn keys_once(members: Seq<(Seq<char>, JsonText)>) -> bool {
    forall|i: int, k: int|
        0 <= i < k < members.len() ==> (#[trigger] members[i]).0 != (#[trigger] members[k]).0
}

/// The member under a key is the one that stands there.
pub proof fn lemma_member_at(members: Seq<(Seq<char>, JsonText)>, i: int)
    requires
        keys_once(members),
        0 <= i < members.len(),
    ensures
        member(members, members[i].0) == Some(members[i].1),
    decreases i,
{
    if i > 0 {
        assert(members[0].0 != members[i].0);
        let rest = members.skip(1);
        assert forall|a: int, b: int| 0 <= a < b < rest.len() implies (#[trigger] rest[a]).0 != (
        #[trigger] rest[b]).0 by {
            assert(members[a + 1].0 != members[b + 1].0);
        }
        assert(rest[i - 1] == members[i]);
        lemma_member_at(rest, i - 1);
    }
}

/// Among the members with a new one, that one stands, and each other that stood
/// there before.
pub proof fn lemma_entry_stands(
    members: Seq<(Seq<char>, JsonText)>,
    key: Seq<char>,
    value: JsonText,
)
    ensures
        with_entry(members, key, value).contains((key, value)),
        forall|i: int|
            0 <= i < members.len() && (#[trigger] members[i]).0 != key ==> with_entry(
                members,
                key,
                value,
            ).contains(members[i]),
    decreases members.len(),
{
    let now = with_entry(members, key, value);
    if members.len() == 0 || members[0].0 == key || text::at_most(key, members[0].0) {
        assert(now[0] == (key, value));
        assert forall|i: int| 0 <= i < members.len() && (#[trigger] members[i]).0
            != key implies now.contains(members[i]) by {
            if members[0].0 == key {
                assert(now[i] == members[i]);
            } else {
                assert(now[i + 1] == members[i]);
            }
        }
    } else {
        let rest = members.skip(1);
        lemma_entry_stands(rest, key, value);
        let inner = with_entry(rest, key, value);
        let at = choose|k: int| 0 <= k < inner.len() && inner[k] == (key, value);
        assert(now[at + 1] == (key, value));
        assert forall|i: int| 0 <= i < members.len() && (#[trigger] members[i]).0
            != key implies now.contains(members[i]) by {
            if i == 0 {
                assert(now[0] == members[0]);
            } else {
                assert(rest[i - 1] == members[i]);
                assert(inner.contains(rest[i - 1]));
                let k = choose|k: int| 0 <= k < inner.len() && inner[k] == members[i];
                assert(now[k + 1] == members[i]);
            }
        }
    }
}

/// Whether a value that was written is read back as it is: every number in it is a
/// whole one that is not negative, and it is not nested deeper than `depth`.
pub open spec fn reads_back(j: JsonText, depth: nat) -> bool
    decreases j,
{
    match j {
        JsonText::Number { whole, .. } => whole is Some,
        JsonText::List(items) => depth > 0 && forall|i: int|
            0 <= i < items.len() ==> reads_back(#[trigger] items[i], (depth - 1) as nat),
        JsonText::Object(members) => depth > 0 && forall|i: int|
            0 <= i < members.len() ==> reads_back((#[trigger] members[i]).1, (depth - 1) as nat),
        _ => true,
    }
}

/// How deep a value may be nested that is surely read back.
pub const SURE_DEPTH: u32 = 100;

// ---------------------------------------------------------------------------
// Reading
// ---------------------------------------------------------------------------

/// Reads a document with `serde_json::from_str`. Which texts are JSON, and what
/// they hold, is the crate's to say and is only named here.
#[verifier::external_body]
pub(crate) fn parse(raw: &str) -> (r: Option<serde_json::Value>)
    ensures
        match r {
            Some(v) => json_of(raw@) == Some(value_of(v)),
            None => json_of(raw@) is None,
        },
{
    serde_json::from_str(raw).ok()
}

/// `serde_json::Value::as_str`: the text, where the value is one.
#[verifier::external_body]
pub(crate) fn as_text(v: &serde_json::Value) -> (r: Option<String>)
    ensures
        text::opt_text(r) == (match value_of(*v) {
            JsonText::Text(s) => Some(s),
            _ => None,
        }),
{
    v.as_str().map(str::to_owned)
}

/// `serde_json::Value::as_u64`: the number, where the value is a whole one that
/// is not negative and fits.
#[verifier::external_body]
pub(crate) fn as_whole(v: &serde_json::Value) -> (r: Option<u64>)
    ensures
        r == (match value_of(*v) {
            JsonText::Number { whole, .. } => whole,
            _ => None,
        }),
{
    v.as_u64()
}

/// `serde_json::Value::as_array`: a copy of the items, where the value is a list.
#[verifier::external_body]
pub(crate) fn as_list(v: &serde_json::Value) -> (r: Option<Vec<serde_json::Value>>)
    ensures
        match r {
            Some(items) => value_of(*v) == JsonText::List(values_of(items@)),
            None => !(value_of(*v) is List),
        },
{
    v.as_array().cloned()
}

/// `serde_json::Value::as_object`: a copy of the members in the order in which
/// the map is walked, where the value is an object. A map holds no key twice.
#[verifier::external_body]
pub(crate) fn as_object(v: &serde_json::Value) -> (r: Option<Vec<(String, serde_json::Value)>>)
    ensures
        match r {
            Some(members) => value_of(*v) == JsonText::Object(members_of(members@)) && keys_once(
                members_of(members@),
            ),
            None => !(value_of(*v) is Object),
        },
{
    v.as_object().map(|m| m.iter().map(|(k, x)| (k.clone(), x.clone())).collect())
}

/// The position of the member under a key.
pub(crate) fn find_member(members: &Vec<(String, serde_json::Value)>, key: &str) -> (r: Option<
    usize,
>)
    ensures
        match r {
            Some(i) => i < members.len() && member(members_of(members@), key@) == Some(
                value_of(members[i as int].1),
            ),
            None => member(members_of(members@), key@) is None,
        },
{
    let ghost all = members_of(members@);
    assert(all.skip(0) =~= all);
    for i in 0..members.len()
        invariant
            all == members_of(members@),
            member(all, key@) == member(all.skip(i as int), key@),
    {
        proof {
            assert(all.skip(i as int)[0] == all[i as int]);
            assert(all.skip(i as int).skip(1) =~= all.skip(i + 1));
        }
        if text::same(&members[i].0, key) {
            return Some(i);
        }
    }
    assert(all.skip(members.len() as int).len() == 0);
    None
}

// ---------------------------------------------------------------------------
// Writing
// ---------------------------------------------------------------------------

/// `serde_json::Value::from` of an optional text: the text, or null.
#[verifier::external_body]
pub(crate) fn text_value(s: Option<String>) -> (v: serde_json::Value)
    ensures
        value_of(v) == (match s {
            Some(t) => JsonText::Text(t@),
            None => JsonText::Null,
        }),
{
    serde_json::Value::from(s)
}

/// `serde_json::Value::from` of a number, which is written in decimal.
#[verifier::external_body]
pub(crate) fn number_value(n: i64) -> (v: serde_json::Value)
    ensures
        value_of(v) == (JsonText::Number {
            whole: if n >= 0 {
                Some(n as u64)
            } else {
                None
            },
            written: text::signed_decimal(n as int),
        }),
{
    serde_json::Value::from(n)
}

/// `serde_json::Value::from` of a list: the items in order.
#[verifier::external_body]
pub(crate) fn list_value(items: Vec<serde_json::Value>) -> (v: serde_json::Value)
    ensures
        value_of(v) == JsonText::List(values_of(items@)),
{
    serde_json::Value::from(items)
}

/// An object without members, by `serde_json::Map::new`.
#[verifier::external_body]
pub(crate) fn empty_object() -> (v: serde_json::Value)
    ensures
        value_of(v) == JsonText::Object(Seq::empty()),
{
    serde_json::Value::Object(serde_json::Map::new())
}

/// Puts a member into an object by `IndexMut` of `serde_json::Value`, which
/// replaces the member under that key or adds one. The map is ordered by its
/// keys, as the crate has it without its feature `preserve_order`.
#[verifier::external_body]
pub(crate) fn put(object: serde_json::Value, key: &str, value: serde_json::Value) -> (v:
    serde_json::Value)
    requires
        value_of(object) is Object,
    ensures
        value_of(v) == JsonText::Object(
            with_entry(value_of(object)->Object_0, key@, value_of(value)),
        ),
{
    let mut object = object;
    object[key] = value;
    object
}

/// Writes a value with `serde_json::to_string_pretty`, which fails on no value:
/// the keys of an object are texts, and the text grows in memory. What is written
/// is only named here. A value of texts, truth values, nulls and whole numbers is
/// read back as it was, as long as it is not nested so deep that
/// `serde_json::from_str` refuses it, which it does at 128 levels.
#[verifier::external_body]
pub(crate) fn pretty(v: &serde_json::Value) -> (r: String)
    ensures
        r@ == json_pretty(value_of(*v)),
        reads_back(value_of(*v), SURE_DEPTH as nat) ==> json_of(r@) == Some(value_of(*v)),
{
    serde_json::to_string_pretty(v).unwrap_or_default()
}

} // verus!
