//! Where the heads of players are rendered.
use vstd::prelude::*;
use vstd::string::*;

use crate::config;
use crate::config::Config;
use crate::text;

verus! {

/// The most characters of a username.
pub const MAX_USERNAME: usize = 16;

/// Whether a name could be a username at all.
pub open spec fn username(name: Seq<char>) -> bool {
    0 < name.len() <= MAX_USERNAME && forall|i: int|
        0 <= i < name.len() ==> text::is_name_char(#[trigger] name[i])
}

pub fn looks_like_username(name: &str) -> (b: bool)
    ensures
        b == username(name@),
{
    let v = text::chars_of(name);
    if v.len() == 0 || v.len() > MAX_USERNAME {
        return false;
    }
    for i in 0..v.len()
        invariant
            v@ == name@,
            forall|k: int| 0 <= k < i ==> text::is_name_char(#[trigger] name@[k]),
    {
        if !text::name_char(v[i]) {
            assert(!text::is_name_char(name@[i as int]));
            return false;
        }
    }
    true
}

/// The head of a player, or nothing where the name cannot be a player's.
pub fn url_for(name: &str, config: &Config) -> (r: Option<String>)
    ensures
        text::opt_text(r) == (if username(name@) {
            Some(config::head_url(name@, config.head_size as int))
        } else {
            None
        }),
{
    if looks_like_username(name) {
        Some(config.head_url_name(name))
    } else {
        None
    }
}

} // verus!
