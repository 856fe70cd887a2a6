//! Reading settings out of environment variables.
use vstd::prelude::*;
use vstd::string::*;

use crate::queue;
use crate::table::Table;
use crate::text;

verus! {

/// The value of a variable.
pub open spec fn var(vars: Table<String>, name: Seq<char>) -> Option<Seq<char>> {
    if vars@.contains_key(name) {
        Some(vars@[name]@)
    } else {
        None
    }
}

pub fn get(vars: &Table<String>, name: &str) -> (r: Option<String>)
    requires
        vars.wf(),
    ensures
        text::opt_text(r) == var(*vars, name@),
{
    match vars.get(&text::copy(name)) {
        Some(v) => Some(v.clone()),
        None => None,
    }
}

/// A value that is set, or what stands for one that is not.
pub open spec fn value_or(raw: Option<Seq<char>>, default: Seq<char>) -> Seq<char> {
    match raw {
        Some(v) => v,
        None => default,
    }
}

pub fn get_or(vars: &Table<String>, name: &str, default: &str) -> (r: String)
    requires
        vars.wf(),
    ensures
        r@ == value_or(var(*vars, name@), default@),
{
    match get(vars, name) {
        Some(v) => v,
        None => text::copy(default),
    }
}

/// A value without the space around it, where anything is left.
pub open spec fn filled(raw: Option<Seq<char>>) -> Option<Seq<char>> {
    match raw {
        Some(v) if text::trimmed(v).len() > 0 => Some(text::trimmed(v)),
        _ => None,
    }
}

pub fn get_filled(vars: &Table<String>, name: &str) -> (r: Option<String>)
    requires
        vars.wf(),
    ensures
        text::opt_text(r) == filled(var(*vars, name@)),
{
    match get(vars, name) {
        Some(v) => {
            let t = text::trim(&v);
            if t.as_str().is_empty() {
                None
            } else {
                Some(t)
            }
        },
        None => None,
    }
}

/// Whether a value says yes to the letter.
pub open spec fn says_yes(v: Seq<char>) -> bool {
    v == "1"@ || v == "true"@
}

/// Whether a value says yes, in letters of either case.
pub open spec fn says_yes_loosely(v: Seq<char>) -> bool {
    v == "1"@ || text::lowered(v) == text::lowered("true"@)
}

/// Whether a value says no, in letters of either case.
pub open spec fn says_no_loosely(v: Seq<char>) -> bool {
    v == "0"@ || text::lowered(v) == text::lowered("false"@)
}

pub fn yes(v: &str) -> (b: bool)
    ensures
        b == says_yes(v@),
{
    text::same(v, "1") || text::same(v, "true")
}

pub fn yes_loosely(v: &str) -> (b: bool)
    ensures
        b == says_yes_loosely(v@),
{
    text::same(v, "1") || text::same_ignoring_case(v, "true")
}

pub fn no_loosely(v: &str) -> (b: bool)
    ensures
        b == says_no_loosely(v@),
{
    text::same(v, "0") || text::same_ignoring_case(v, "false")
}

/// A switch that is on when a variable says yes to the letter.
pub open spec fn exact_switch(raw: Option<Seq<char>>) -> bool {
    raw matches Some(v) && says_yes(v)
}

pub fn get_exact_switch(vars: &Table<String>, name: &str) -> (b: bool)
    requires
        vars.wf(),
    ensures
        b == exact_switch(var(*vars, name@)),
{
    match get(vars, name) {
        Some(v) => yes(&v),
        None => false,
    }
}

/// A switch that a variable sets, in letters of either case and with space
/// around, or else its default.
pub open spec fn switch(raw: Option<Seq<char>>, default: bool) -> bool {
    match raw {
        Some(v) => says_yes_loosely(text::trimmed(v)),
        None => default,
    }
}

pub fn get_switch(vars: &Table<String>, name: &str, default: bool) -> (b: bool)
    requires
        vars.wf(),
    ensures
        b == switch(var(*vars, name@), default),
{
    match get(vars, name) {
        Some(v) => yes_loosely(&text::trim(&v)),
        None => default,
    }
}

/// A number that a variable gives, or else its default.
pub open spec fn number_or(raw: Option<Seq<char>>, default: int) -> int {
    match raw {
        Some(v) => match text::parsed_u64(v) {
            Some(n) => n,
            None => default,
        },
        None => default,
    }
}

pub fn get_number(vars: &Table<String>, name: &str, default: u64) -> (n: u64)
    requires
        vars.wf(),
    ensures
        n == number_or(var(*vars, name@), default as int),
{
    match get(vars, name) {
        Some(v) => match text::parse_u64(&v) {
            Some(n) => n,
            None => default,
        },
        None => default,
    }
}

/// A number with a sign that a variable gives, or else its default.
pub open spec fn signed_or(raw: Option<Seq<char>>, default: i32) -> i32 {
    match raw {
        Some(v) => match queue::as_i32(text::parsed_i64(v)) {
            Some(n) => n,
            None => default,
        },
        None => default,
    }
}

pub fn get_signed(vars: &Table<String>, name: &str, default: i32) -> (n: i32)
    requires
        vars.wf(),
    ensures
        n == signed_or(var(*vars, name@), default),
{
    match get(vars, name) {
        Some(v) => match text::parse_i64(&v) {
            Some(n) => if n >= -2_147_483_648 && n <= 2_147_483_647 {
                n as i32
            } else {
                default
            },
            None => default,
        },
        None => default,
    }
}

/// The items of a list with commas, without the space around them and without
/// those that are empty.
pub open spec fn items(s: Seq<char>) -> Seq<Seq<char>> {
    filled_items(text::pieces(s, text::is_char(',')))
}

pub open spec fn filled_items(all: Seq<Seq<char>>) -> Seq<Seq<char>>
    decreases all.len(),
{
    if all.len() == 0 {
        Seq::empty()
    } else {
        let before = filled_items(all.drop_last());
        let last = text::trimmed(all.last());
        if last.len() > 0 {
            before.push(last)
        } else {
            before
        }
    }
}

pub fn list(s: &str) -> (r: Vec<String>)
    ensures
        text::texts(r@) == items(s@),
{
    let all = text::split(s, ',');
    let ghost pieces = text::texts(all@);
    let mut r: Vec<String> = Vec::new();
    assert(text::texts(r@) =~= filled_items(pieces.take(0)));
    for i in 0..all.len()
        invariant
            pieces == text::texts(all@),
            text::texts(r@) == filled_items(pieces.take(i as int)),
    {
        assert(pieces.take(i + 1).drop_last() =~= pieces.take(i as int));
        let t = text::trim(&all[i]);
        if !t.as_str().is_empty() {
            proof {
                text::lemma_texts_push(r@, t);
            }
            r.push(t);
        }
    }
    assert(pieces.take(pieces.len() as int) =~= pieces);
    r
}

/// A variable that is blank counts as left out, and any other counts without the space
/// around it.
pub proof fn lemma_blank_is_left_out(v: Seq<char>)
    ensures
        filled(None) is None,
        text::trimmed(v).len() == 0 ==> filled(Some(v)) is None,
        text::trimmed(v).len() > 0 ==> filled(Some(v)) == Some(text::trimmed(v)),
{
}

/// A switch is on where it says one or true and off where it says anything else; one
/// that is left out stands at its default.
pub proof fn lemma_switches(default: bool)
    ensures
        switch(None, default) == default,
        !exact_switch(None),
        exact_switch(Some("1"@)),
        exact_switch(Some("true"@)),
        !exact_switch(Some("0"@)),
        !exact_switch(Some("false"@)),
        says_yes_loosely("1"@) && !says_no_loosely("1"@),
        says_yes_loosely("true"@) && !says_no_loosely("true"@),
        says_yes_loosely("TRUE"@) && !says_no_loosely("TRUE"@),
        says_no_loosely("0"@) && !says_yes_loosely("0"@),
        says_no_loosely("false"@) && !says_yes_loosely("false"@),
{
    reveal_strlit("1");
    reveal_strlit("0");
    reveal_strlit("true");
    reveal_strlit("TRUE");
    reveal_strlit("false");
    assert("1"@[0] == '1' && "0"@[0] == '0');
    assert(text::lowered("TRUE"@) =~= text::lowered("true"@)) by {
        assert(('T' as u32 + 32) as char == 't');
        assert(('R' as u32 + 32) as char == 'r');
        assert(('U' as u32 + 32) as char == 'u');
        assert(('E' as u32 + 32) as char == 'e');
    }
    assert(text::lowered("1"@).len() == 1);
    assert(text::lowered("0"@).len() == 1);
    assert(text::lowered("true"@).len() == 4);
    assert(text::lowered("TRUE"@).len() == 4);
    assert(text::lowered("false"@).len() == 5);
}

/// A number that cannot be read counts as left out.
pub proof fn lemma_numbers_or_defaults(v: Seq<char>, default: int)
    ensures
        number_or(None, default) == default,
        text::parsed_u64(v) matches Some(n) ==> number_or(Some(v), default) == n,
        text::parsed_u64(v) is None ==> number_or(Some(v), default) == default,
{
}

/// The items of a list are those that are not blank, in their order, without the space
/// around them.
pub proof fn lemma_lists(all: Seq<Seq<char>>, item: Seq<char>)
    ensures
        filled_items(Seq::empty()).len() == 0,
        text::trimmed(item).len() > 0 ==> filled_items(all.push(item)) == filled_items(all).push(
            text::trimmed(item),
        ),
        text::trimmed(item).len() == 0 ==> filled_items(all.push(item)) == filled_items(all),
{
    assert(all.push(item).drop_last() =~= all);
}

} // verus!
