//! Works out what a chat line actually is.
//!
//! Translation keys are authoritative where the server sends them. Text patterns
//! are the fallback for servers that flatten everything to plain text before
//! they send it, which is most of them.
use vstd::prelude::*;
use vstd::string::*;

use crate::deaths;
use crate::deaths::DeathMatcher;
use crate::pattern;
use crate::pattern::{Found, Pattern};
use crate::text;

verus! {

#[derive(Debug, Clone, Copy, PartialEq, Eq, Structural)]
pub enum Kind {
    Chat,
    Whisper,
    Join,
    Leave,
    Death,
    Advancement,
    Server,
    Unknown,
}

/// The single-letter code of a kind.
pub open spec fn kind_code(kind: Kind) -> Seq<char> {
    match kind {
        Kind::Chat => "c"@,
        Kind::Whisper => "w"@,
        Kind::Join => "j"@,
        Kind::Leave => "l"@,
        Kind::Death => "d"@,
        Kind::Advancement => "a"@,
        Kind::Server => "s"@,
        Kind::Unknown => "u"@,
    }
}

impl Kind {
    /// The single-letter code under which the kind is stored.
    pub fn as_str(self) -> (s: &'static str)
        ensures
            s@ == kind_code(self),
    {
        match self {
            Kind::Chat => "c",
            Kind::Whisper => "w",
            Kind::Join => "j",
            Kind::Leave => "l",
            Kind::Death => "d",
            Kind::Advancement => "a",
            Kind::Server => "s",
            Kind::Unknown => "u",
        }
    }
}

/// No two kinds are stored under one code.
pub proof fn lemma_kind_codes_differ(a: Kind, b: Kind)
    ensures
        kind_code(a) == kind_code(b) ==> a == b,
{
    reveal_strlit("c");
    reveal_strlit("w");
    reveal_strlit("j");
    reveal_strlit("l");
    reveal_strlit("d");
    reveal_strlit("a");
    reveal_strlit("s");
    reveal_strlit("u");
    assert(kind_code(a).len() == 1 && kind_code(b).len() == 1);
    if kind_code(a) == kind_code(b) {
        assert(kind_code(a)[0] == kind_code(b)[0]);
    }
}

impl Default for Kind {
    fn default() -> (k: Self)
        ensures
            k == Kind::Unknown,
    {
        Kind::Unknown
    }
}

#[derive(Debug, Clone)]
pub struct Classification {
    pub kind: Kind,
    /// For deaths and for join and leave, the player the line is *about*, which
    /// is not the player who sent it.
    pub subject: Option<String>,
    /// Whoever did the killing. May be a mob rather than a player.
    pub killer: Option<String>,
    /// The bare name of the speaker, where a system line was recognised as chat.
    pub sender: Option<String>,
    pub content: Option<String>,
    /// The speaker as shown in the game, with ranks and brackets.
    pub sender_label: Option<String>,
}

/// The contents of a [`Classification`].
#[verifier::ext_equal]
pub struct LineText {
    pub kind: Kind,
    pub subject: Option<Seq<char>>,
    pub killer: Option<Seq<char>>,
    pub sender: Option<Seq<char>>,
    pub content: Option<Seq<char>>,
    pub sender_label: Option<Seq<char>>,
}

impl View for Classification {
    type V = LineText;

    open spec fn view(&self) -> LineText {
        LineText {
            kind: self.kind,
            subject: text::opt_text(self.subject),
            killer: text::opt_text(self.killer),
            sender: text::opt_text(self.sender),
            content: text::opt_text(self.content),
            sender_label: text::opt_text(self.sender_label),
        }
    }
}

/// A line of a kind of which nothing else is known.
pub open spec fn just(kind: Kind) -> LineText {
    LineText {
        kind,
        subject: None,
        killer: None,
        sender: None,
        content: None,
        sender_label: None,
    }
}

impl Default for Classification {
    fn default() -> (c: Self)
        ensures
            c@ == just(Kind::Unknown),
    {
        Classification::of(Kind::Unknown)
    }
}

impl Classification {
    /// A line of a kind of which nothing else is known.
    pub fn of(kind: Kind) -> (c: Self)
        ensures
            c@ == just(kind),
    {
        Classification {
            kind,
            subject: None,
            killer: None,
            sender: None,
            content: None,
            sender_label: None,
        }
    }
}

// ---------------------------------------------------------------------------
// Colour codes and names
// ---------------------------------------------------------------------------

/// The speakers that use `Name: message` as players do but are none.
pub open spec fn plugin_speaker(name: Seq<char>) -> bool {
    let n = text::lowered(name);
    n == "explainer"@ || n == "debugmenu"@ || n == "quests"@ || n == "6b6t"@ || n == "sixbsixt"@
}

/// Whether a speaker is a plugin or the server itself, and so no player.
pub fn is_plugin_speaker(name: &str) -> (b: bool)
    ensures
        b == plugin_speaker(name@),
{
    let n = text::lower(name);
    text::same(&n, "explainer") || text::same(&n, "debugmenu") || text::same(&n, "quests")
        || text::same(&n, "6b6t") || text::same(&n, "sixbsixt")
}

/// The characters that stand for a colour or a format behind `&` or the section
/// sign.
pub open spec fn legacy_code(c: char) -> bool {
    ||| '0' <= c <= '9'
    ||| 'a' <= c <= 'f'
    ||| 'k' <= c <= 'o'
    ||| c == 'r'
    ||| c == 'x'
    ||| 'A' <= c <= 'F'
    ||| 'K' <= c <= 'O'
    ||| c == 'R'
    ||| c == 'X'
}

pub fn is_legacy_code_char(c: char) -> (b: bool)
    ensures
        b == legacy_code(c),
{
    matches!(
        c,
        '0'..='9' | 'a'..='f' | 'k'..='o' | 'r' | 'x' | 'A'..='F' | 'K'..='O' | 'R' | 'X'
    )
}

/// The text without each section sign and the character behind it.
pub open spec fn without_section(s: Seq<char>) -> Seq<char>
    decreases s.len(),
{
    if s.len() == 0 {
        Seq::empty()
    } else if s[0] == '§' {
        if s.len() == 1 {
            Seq::empty()
        } else {
            without_section(s.skip(2))
        }
    } else {
        seq![s[0]] + without_section(s.skip(1))
    }
}

/// The text without each ampersand that has a code character behind it, and that
/// character with it. An ampersand before any other character stays, with that
/// character; one at the very end goes.
pub open spec fn without_ampersand_codes(s: Seq<char>) -> Seq<char>
    decreases s.len(),
{
    if s.len() == 0 {
        Seq::empty()
    } else if s[0] == '&' {
        if s.len() == 1 {
            Seq::empty()
        } else if legacy_code(s[1]) {
            without_ampersand_codes(s.skip(2))
        } else {
            seq![s[0], s[1]] + without_ampersand_codes(s.skip(2))
        }
    } else {
        seq![s[0]] + without_ampersand_codes(s.skip(1))
    }
}

/// The text without colour codes behind a section sign or an ampersand.
pub open spec fn without_legacy(s: Seq<char>) -> Seq<char> {
    without_ampersand_codes(without_section(s))
}

/// Strips colour and format codes behind a section sign. Leaves `&` alone, so
/// that chat like "Tom & Jerry" is not eaten.
pub fn strip_section_sign(s: &str) -> (r: String)
    ensures
        r@ == without_section(s@),
{
    let v = text::chars_of(s);
    let mut out = String::new();
    let mut i: usize = 0;
    assert(v@.skip(0) =~= s@);
    assert(out@ + without_section(s@) =~= without_section(s@));
    while i < v.len()
        invariant
            i <= v.len(),
            out@ + without_section(v@.skip(i as int)) == without_section(s@),
        decreases v.len() - i,
    {
        let ghost rest = v@.skip(i as int);
        let ghost before = out@;
        if v[i] == '§' {
            if i + 1 == v.len() {
                assert(without_section(rest) =~= Seq::<char>::empty());
                assert(before + without_section(rest) =~= before);
                return out;
            }
            assert(rest.skip(2) =~= v@.skip(i + 2));
            i += 2;
        } else {
            out.push(v[i]);
            proof {
                assert(rest.skip(1) =~= v@.skip(i + 1));
                assert(before + (seq![rest[0]] + without_section(rest.skip(1))) =~= out@
                    + without_section(rest.skip(1)));
            }
            i += 1;
        }
    }
    proof {
        assert(v@.skip(i as int).len() == 0);
        assert(out@ + without_section(v@.skip(i as int)) =~= out@);
    }
    out
}

/// Strips colour codes behind a section sign and behind `&` from a name.
pub fn strip_legacy_formatting(s: &str) -> (r: String)
    ensures
        r@ == without_legacy(s@),
{
    let v = text::chars_of(&strip_section_sign(s));
    let mut out = String::new();
    let mut i: usize = 0;
    let ghost whole = without_ampersand_codes(v@);
    assert(v@.skip(0) =~= v@);
    assert(out@ + whole =~= whole);
    while i < v.len()
        invariant
            i <= v.len(),
            whole == without_legacy(s@),
            out@ + without_ampersand_codes(v@.skip(i as int)) == whole,
        decreases v.len() - i,
    {
        let ghost rest = v@.skip(i as int);
        let ghost before = out@;
        let c = v[i];
        if c == '&' {
            if i + 1 == v.len() {
                assert(without_ampersand_codes(rest) =~= Seq::<char>::empty());
                assert(before + without_ampersand_codes(rest) =~= before);
                return out;
            }
            let code = v[i + 1];
            assert(rest.skip(2) =~= v@.skip(i + 2));
            assert(rest[1] == code);
            if !is_legacy_code_char(code) {
                out.push(c);
                out.push(code);
                assert(before + (seq![rest[0], rest[1]] + without_ampersand_codes(rest.skip(2)))
                    =~= out@ + without_ampersand_codes(rest.skip(2)));
            }
            i += 2;
        } else {
            out.push(c);
            proof {
                assert(rest.skip(1) =~= v@.skip(i + 1));
                assert(before + (seq![rest[0]] + without_ampersand_codes(rest.skip(1))) =~= out@
                    + without_ampersand_codes(rest.skip(1)));
            }
            i += 1;
        }
    }
    proof {
        assert(v@.skip(i as int).len() == 0);
        assert(out@ + without_ampersand_codes(v@.skip(i as int)) =~= out@);
    }
    out
}

/// No section sign is left in a stripped text.
pub proof fn lemma_no_section_sign_left(s: Seq<char>)
    ensures
        !without_section(s).contains('§'),
    decreases s.len(),
{
    if s.len() > 0 && s[0] == '§' {
        if s.len() > 1 {
            lemma_no_section_sign_left(s.skip(2));
        }
    } else if s.len() > 0 {
        lemma_no_section_sign_left(s.skip(1));
        let rest = without_section(s.skip(1));
        let all = seq![s[0]] + rest;
        assert forall|i: int| 0 <= i < all.len() implies all[i] != '§' by {
            if i > 0 {
                assert(all[i] == rest[i - 1]);
                assert(rest.contains(rest[i - 1]));
            }
        }
    }
}

/// A text without a section sign is left as it is, so that stripping it twice is
/// stripping it once.
pub proof fn lemma_stripping_plain_text(s: Seq<char>)
    requires
        !s.contains('§'),
    ensures
        without_section(s) == s,
    decreases s.len(),
{
    if s.len() > 0 {
        assert(s.contains(s[0]));
        assert forall|i: int| 0 <= i < s.skip(1).len() implies s.skip(1)[i] != '§' by {
            assert(s.contains(s[i + 1]));
        }
        lemma_stripping_plain_text(s.skip(1));
        assert(s =~= seq![s[0]] + s.skip(1));
    }
}

/// Stripping a line a second time changes nothing.
pub proof fn lemma_stripping_twice(s: Seq<char>)
    ensures
        without_section(without_section(s)) == without_section(s),
{
    lemma_no_section_sign_left(s);
    lemma_stripping_plain_text(without_section(s));
}

proof fn lemma_without_ampersand_codes(s: Seq<char>)
    ensures
        without_ampersand_codes(without_ampersand_codes(s)) == without_ampersand_codes(s),
        !s.contains('§') ==> !without_ampersand_codes(s).contains('§'),
        !s.contains('&') ==> without_ampersand_codes(s) == s,
    decreases s.len(),
{
    if s.len() > 0 {
        let n: int = if s[0] == '&' && s.len() > 1 {
            2
        } else {
            1
        };
        let rest = s.skip(n);
        let inner = without_ampersand_codes(rest);
        let r = without_ampersand_codes(s);
        lemma_without_ampersand_codes(rest);
        assert forall|c: char| !s.contains(c) implies !#[trigger] rest.contains(c) by {
            if rest.contains(c) {
                let k = choose|k: int| 0 <= k < rest.len() && rest[k] == c;
                assert(s[k + n] == c);
            }
        }
        assert(s.contains(s[0]));
        if s[0] != '&' {
            assert(r.skip(1) =~= inner);
            assert(s =~= seq![s[0]] + rest);
        } else if s.len() > 1 {
            assert(s.contains(s[1]));
            if !legacy_code(s[1]) {
                assert(r.skip(2) =~= inner);
            }
        }
        if !s.contains('§') {
            assert forall|i: int| 0 <= i < r.len() implies r[i] != '§' by {
                let extra = r.len() - inner.len();
                if i >= extra && s != seq!['&'] {
                    assert(r[i] == inner[i - extra]);
                    assert(inner.contains(inner[i - extra]));
                }
            }
        }
    }
}

/// A stripped name holds no section sign, and stripping it again changes nothing.
pub proof fn lemma_names_are_stripped_once(s: Seq<char>)
    ensures
        !without_legacy(s).contains('§'),
        without_legacy(without_legacy(s)) == without_legacy(s),
{
    lemma_no_section_sign_left(s);
    lemma_without_ampersand_codes(without_section(s));
    lemma_stripping_plain_text(without_legacy(s));
}

/// Of a name without an ampersand only the codes behind a section sign go.
pub proof fn lemma_names_without_ampersands(s: Seq<char>)
    requires
        !s.contains('&'),
    ensures
        without_legacy(s) == without_section(s),
{
    lemma_section_keeps(s, '&');
    lemma_without_ampersand_codes(without_section(s));
}

/// Stripping adds no character.
pub proof fn lemma_section_keeps(s: Seq<char>, c: char)
    requires
        !s.contains(c),
    ensures
        !without_section(s).contains(c),
    decreases s.len(),
{
    if s.len() > 0 {
        assert forall|i: int| 0 <= i < s.skip(1).len() implies s.skip(1)[i] != c by {
            assert(s.contains(s[i + 1]));
        }
        if s[0] == '§' {
            if s.len() > 1 {
                assert forall|i: int| 0 <= i < s.skip(2).len() implies s.skip(2)[i] != c by {
                    assert(s.contains(s[i + 2]));
                }
                lemma_section_keeps(s.skip(2), c);
            }
        } else {
            lemma_section_keeps(s.skip(1), c);
            let rest = without_section(s.skip(1));
            let all = seq![s[0]] + rest;
            assert forall|i: int| 0 <= i < all.len() implies all[i] != c by {
                if i > 0 {
                    assert(rest.contains(rest[i - 1]));
                } else {
                    assert(s.contains(s[0]));
                }
            }
        }
    }
}

pub open spec fn only_legacy(s: Seq<char>) -> bool {
    s.len() > 0 && forall|i: int| 0 <= i < s.len() ==> legacy_code(#[trigger] s[i])
}

pub fn is_only_legacy_codes(s: &str) -> (b: bool)
    ensures
        b == only_legacy(s@),
{
    let v = text::chars_of(s);
    for i in 0..v.len()
        invariant
            v@ == s@,
            forall|j: int| 0 <= j < i ==> legacy_code(#[trigger] s@[j]),
    {
        if !is_legacy_code_char(v[i]) {
            assert(!legacy_code(s@[i as int]));
            return false;
        }
    }
    v.len() > 0
}

/// A name without the full stop that some proxies put before Bedrock players.
pub open spec fn name_body(name: Seq<char>) -> Seq<char> {
    if text::begins(name, "."@) {
        name.skip(1)
    } else {
        name
    }
}

/// A name a player can have: one to sixteen letters, digits or underscores, with
/// a full stop allowed before them.
pub open spec fn player_shaped(name: Seq<char>) -> bool {
    let body = name_body(name);
    &&& 0 < body.len() <= 16
    &&& forall|i: int| 0 <= i < body.len() ==> text::is_name_char(#[trigger] body[i])
}

/// The name without colour codes, where a player can have it. One that is made
/// of nothing but code characters, left over from formatting, is no player's.
pub open spec fn cleaned(raw: Seq<char>, had_fmt: bool) -> Option<Seq<char>> {
    let name = text::trimmed(without_legacy(raw));
    if player_shaped(name) && !(had_fmt && only_legacy(name_body(name))) {
        Some(name)
    } else {
        None
    }
}

pub open spec fn formatted(raw: Seq<char>) -> bool {
    raw.contains('§') || raw.contains('&')
}

pub fn has_formatting(raw: &str) -> (b: bool)
    ensures
        b == formatted(raw@),
{
    text::has_char(raw, '§') || text::has_char(raw, '&')
}

/// The name, where `raw` is a plausible one once its colour codes are gone.
pub fn clean_player_name(raw: &str) -> (r: Option<String>)
    ensures
        text::opt_text(r) == cleaned(raw@, formatted(raw@)),
{
    clean_named(raw, has_formatting(raw))
}

pub fn clean_named(raw: &str, had_fmt: bool) -> (r: Option<String>)
    ensures
        text::opt_text(r) == cleaned(raw@, had_fmt),
{
    let name = text::trim(&strip_legacy_formatting(raw));
    proof {
        reveal_strlit(".");
    }
    let body = match text::strip_prefix(&name, ".") {
        Some(b) => b,
        None => name.clone(),
    };
    assert(body@ == name_body(name@));
    let v = text::chars_of(&body);
    if v.len() == 0 || v.len() > 16 {
        return None;
    }
    for i in 0..v.len()
        invariant
            v@ == body@,
            body@ == name_body(name@),
            name@ == text::trimmed(without_legacy(raw@)),
            forall|j: int| 0 <= j < i ==> text::is_name_char(#[trigger] body@[j]),
    {
        if !text::name_char(v[i]) {
            assert(!text::is_name_char(body@[i as int]));
            return None;
        }
    }
    if had_fmt && is_only_legacy_codes(&body) {
        return None;
    }
    Some(name)
}

/// A name that was accepted is one that a player can have.
pub proof fn lemma_clean_names_are_player_shaped(raw: Seq<char>, had_fmt: bool)
    ensures
        cleaned(raw, had_fmt) matches Some(name) ==> player_shaped(name),
{
}

/// A name that a player can have is clean as it stands, so that cleaning a name
/// twice is cleaning it once.
pub proof fn lemma_player_names_are_clean(name: Seq<char>)
    requires
        player_shaped(name),
    ensures
        !formatted(name),
        cleaned(name, formatted(name)) == Some(name),
{
    reveal_strlit(".");
    let body = name_body(name);
    assert forall|i: int| 0 <= i < name.len() implies name[i] == '.' || text::is_name_char(
        #[trigger] name[i],
    ) by {
        if text::begins(name, "."@) {
            if i == 0 {
                assert(name.take(1)[0] == "."@[0]);
            } else {
                assert(name[i] == body[i - 1]);
            }
        } else {
            assert(name[i] == body[i]);
        }
    }
    lemma_names_without_ampersands(name);
    lemma_stripping_plain_text(name);
    assert(!text::is_white(name[0]) && !text::is_white(name.last()));
    assert(text::drop_front(name, text::white_pred()) == name);
    assert(text::trimmed(name) == name);
}

// ---------------------------------------------------------------------------
// Lines that are nobody's
// ---------------------------------------------------------------------------

/// The line with its colour codes gone, single spaces between its words, and in
/// lower case.
pub open spec fn collapsed(line: Seq<char>) -> Seq<char> {
    text::lowered(text::join_text(text::words_text(without_section(line)), " "@))
}

/// The notices of a server that are repeated over and over.
pub open spec fn spam(line: Seq<char>) -> bool {
    let l = collapsed(line);
    &&& l.len() > 0
    &&& {
        ||| l == "unknown command."@
        ||| l == "unknown command"@
        ||| text::has_text(l, "remember to /vote"@)
        ||| text::has_text(l, "/vote to get free rewards"@)
        ||| text::has_text(l, "daily quests to complete"@)
        ||| text::begins(l, "quests"@) && text::has_text(l, "quest"@)
        ||| text::has_text(l, "you're protected from attack"@)
        ||| text::has_text(l, "you are protected from attack"@)
        ||| text::has_text(l, "[ welcome ]"@)
    }
}

/// Whether the line must not reach Discord even where server lines do.
pub fn is_bridge_spam(line: &str) -> (b: bool)
    ensures
        b == spam(line@),
{
    let plain = strip_section_sign(line);
    let l = text::lower(&text::join(&text::words(&plain), " "));
    if l.as_str().is_empty() {
        return false;
    }
    text::same(&l, "unknown command.") || text::same(&l, "unknown command")
        || text::has(&l, "remember to /vote") || text::has(&l, "/vote to get free rewards")
        || text::has(&l, "daily quests to complete") || (text::starts_with(&l, "quests")
        && text::has(&l, "quest")) || text::has(&l, "you're protected from attack")
        || text::has(&l, "you are protected from attack") || text::has(&l, "[ welcome ]")
}

proof fn lemma_section_lowered(s: Seq<char>)
    ensures
        without_section(text::lowered(s)) == text::lowered(without_section(s)),
    decreases s.len(),
{
    let low = text::lowered(s);
    if s.len() == 0 {
        assert(low =~= s);
        assert(text::lowered(without_section(s)) =~= without_section(s));
    } else {
        assert((text::lower_char(s[0]) == '§') == (s[0] == '§'));
        if s[0] == '§' {
            if s.len() > 1 {
                lemma_section_lowered(s.skip(2));
                assert(low.skip(2) =~= text::lowered(s.skip(2)));
            } else {
                assert(text::lowered(Seq::<char>::empty()) =~= Seq::<char>::empty());
            }
        } else {
            lemma_section_lowered(s.skip(1));
            assert(low.skip(1) =~= text::lowered(s.skip(1)));
            let rest = without_section(s.skip(1));
            assert(text::lowered(seq![s[0]] + rest) =~= seq![low[0]] + text::lowered(rest));
        }
    }
}

proof fn lemma_collapsed_of_lowered(s: Seq<char>)
    ensures
        collapsed(text::lowered(s)) == collapsed(s),
{
    let plain = without_section(s);
    lemma_section_lowered(s);
    text::lemma_lower_words(plain);
    text::lemma_lower_joined(text::words_text(plain));
    text::lemma_case_is_lost(text::join_text(text::words_text(plain), " "@));
}

/// Whether a line is such a notice does not depend on the case of its letters.
pub proof fn lemma_spam_in_any_case(a: Seq<char>, b: Seq<char>)
    requires
        text::lowered(a) == text::lowered(b),
    ensures
        spam(a) == spam(b),
{
    lemma_collapsed_of_lowered(a);
    lemma_collapsed_of_lowered(b);
}

/// A line in upper case is such a notice where the line is.
pub proof fn lemma_spam_in_upper_case(s: Seq<char>)
    ensures
        spam(text::uppered(s)) == spam(s),
{
    text::lemma_case_is_lost(s);
    lemma_spam_in_any_case(text::uppered(s), s);
}

/// Neither the codes behind a section sign nor the white space between the words
/// decide whether a line is such a notice.
pub proof fn lemma_spam_by_its_words(s: Seq<char>)
    ensures
        spam(without_section(s)) == spam(s),
        spam(text::join_text(text::words_text(without_section(s)), " "@)) == spam(s),
{
    let plain = without_section(s);
    let ws = text::words_text(plain);
    let one = text::join_text(ws, " "@);
    lemma_stripping_twice(s);
    text::lemma_words(plain);
    text::lemma_words_of_joined(ws);
    lemma_no_section_sign_left(s);
    lemma_words_hold(plain, '§');
    lemma_joined_holds(ws, '§');
    lemma_stripping_plain_text(one);
}

proof fn lemma_pieces_hold(s: Seq<char>, c: char)
    requires
        !s.contains(c),
    ensures
        forall|i: int|
            0 <= i < text::pieces(s, text::white_pred()).len() ==> !(
            #[trigger] text::pieces(s, text::white_pred())[i]).contains(c),
    decreases s.len(),
{
    if s.len() > 0 {
        let front = s.drop_last();
        assert(!front.contains(c)) by {
            assert forall|i: int| 0 <= i < front.len() implies front[i] != c by {
                assert(s.contains(s[i]));
            }
        }
        lemma_pieces_hold(front, c);
        text::lemma_pieces_nonempty(front, text::white_pred());
        let before = text::pieces(front, text::white_pred());
        let now = text::pieces(s, text::white_pred());
        assert(s.contains(s.last()));
        assert forall|i: int| 0 <= i < now.len() implies !(#[trigger] now[i]).contains(c) by {
            if i < before.len() - 1 {
                assert(now[i] == before[i]);
            } else if i == before.len() - 1 {
                assert(!before[i].contains(c));
                assert forall|k: int| 0 <= k < now[i].len() implies now[i][k] != c by {
                    if k < before[i].len() {
                        assert(before[i].contains(before[i][k]));
                        assert(now[i][k] == before[i][k]);
                    }
                }
            }
        }
    }
}

proof fn lemma_nonempty_hold(parts: Seq<Seq<char>>, c: char)
    requires
        forall|i: int| 0 <= i < parts.len() ==> !(#[trigger] parts[i]).contains(c),
    ensures
        forall|i: int|
            0 <= i < text::nonempty(parts).len() ==> !(#[trigger] text::nonempty(
                parts,
            )[i]).contains(c),
    decreases parts.len(),
{
    if parts.len() > 0 {
        let rest = parts.drop_last();
        assert forall|i: int| 0 <= i < rest.len() implies !(#[trigger] rest[i]).contains(c) by {
            assert(!parts[i].contains(c));
        }
        lemma_nonempty_hold(rest, c);
        assert(!parts[parts.len() - 1].contains(c));
        assert forall|i: int| 0 <= i < text::nonempty(parts).len() implies !(
        #[trigger] text::nonempty(parts)[i]).contains(c) by {
            if i < text::nonempty(rest).len() {
                assert(text::nonempty(parts)[i] == text::nonempty(rest)[i]);
            }
        }
    }
}

proof fn lemma_words_hold(s: Seq<char>, c: char)
    requires
        !s.contains(c),
    ensures
        forall|i: int|
            0 <= i < text::words_text(s).len() ==> !(#[trigger] text::words_text(s)[i]).contains(c),
{
    lemma_pieces_hold(s, c);
    lemma_nonempty_hold(text::pieces(s, text::white_pred()), c);
}

proof fn lemma_joined_holds(ws: Seq<Seq<char>>, c: char)
    requires
        c != ' ',
        forall|i: int| 0 <= i < ws.len() ==> !(#[trigger] ws[i]).contains(c),
    ensures
        !text::join_text(ws, " "@).contains(c),
    decreases ws.len(),
{
    reveal_strlit(" ");
    if ws.len() > 0 {
        let rest = ws.drop_last();
        assert forall|i: int| 0 <= i < rest.len() implies !(#[trigger] rest[i]).contains(c) by {
            assert(!ws[i].contains(c));
        }
        assert(!ws[ws.len() - 1].contains(c));
        lemma_joined_holds(rest, c);
        let r = text::join_text(ws, " "@);
        if ws.len() > 1 {
            let head = text::join_text(rest, " "@);
            let w = ws.last();
            assert forall|k: int| 0 <= k < r.len() implies r[k] != c by {
                if k < head.len() {
                    assert(r[k] == head[k]);
                    assert(head.contains(head[k]));
                } else if k > head.len() {
                    assert(r[k] == w[k - head.len() - 1]);
                    assert(w.contains(w[k - head.len() - 1]));
                }
            }
        }
    }
}

/// Whether a text ends in a section sign that takes the next character with it.
pub open spec fn open_code(s: Seq<char>) -> bool
    decreases s.len(),
{
    if s.len() == 0 {
        false
    } else if s[0] == '§' {
        s.len() == 1 || open_code(s.skip(2))
    } else {
        open_code(s.skip(1))
    }
}

/// Whether no section sign takes the first of two white characters with it.
pub open spec fn codes_keep_apart(s: Seq<char>) -> bool {
    forall|k: int|
        0 <= k && k + 1 < s.len() && is_white_at(s, k) && #[trigger] open_code(s.take(k))
            ==> !is_white_at(s, k + 1)
}

pub open spec fn is_white_at(s: Seq<char>, k: int) -> bool {
    text::is_white(s[k])
}

proof fn lemma_section_push(s: Seq<char>, c: char)
    ensures
        open_code(s.push(c)) == (!open_code(s) && c == '§'),
        without_section(s.push(c)) == (if open_code(s) || c == '§' {
            without_section(s)
        } else {
            without_section(s).push(c)
        }),
    decreases s.len(),
{
    let now = s.push(c);
    if s.len() == 0 {
        assert(now[0] == c && now.len() == 1);
        assert(now.skip(1) =~= s);
        assert(!open_code(s));
        assert(!open_code(now.skip(1)));
        assert(without_section(now.skip(1)) =~= Seq::<char>::empty());
        assert(without_section(s) =~= Seq::<char>::empty());
        assert(seq![c] + Seq::<char>::empty() =~= Seq::<char>::empty().push(c));
    } else if s[0] == '§' {
        if s.len() == 1 {
            assert(now.skip(2) =~= Seq::<char>::empty());
            assert(without_section(now.skip(2)) =~= Seq::<char>::empty());
            assert(!open_code(now.skip(2)));
            assert(open_code(s));
            assert(now[0] == '§' && now.len() == 2);
        } else {
            lemma_section_push(s.skip(2), c);
            assert(now[0] == s[0]);
            assert(now.skip(2) =~= s.skip(2).push(c));
        }
    } else {
        lemma_section_push(s.skip(1), c);
        assert(now[0] == s[0]);
        assert(now.skip(1) =~= s.skip(1).push(c));
        let rest = without_section(s.skip(1));
        assert(seq![s[0]] + rest.push(c) =~= (seq![s[0]] + rest).push(c));
    }
}

/// Two texts with the same words, the last of which may still grow.
spec fn alike(a: Seq<char>, b: Seq<char>) -> bool {
    let p = text::pieces(a, text::white_pred());
    let q = text::pieces(b, text::white_pred());
    p.last() == q.last() && text::nonempty(p.drop_last()) == text::nonempty(q.drop_last())
}

proof fn lemma_alike(a: Seq<char>, b: Seq<char>, c: char)
    requires
        alike(a, b),
    ensures
        text::words_text(a) == text::words_text(b),
        alike(a.push(c), b.push(c)),
{
    let p = text::pieces(a, text::white_pred());
    let q = text::pieces(b, text::white_pred());
    text::lemma_pieces_nonempty(a, text::white_pred());
    text::lemma_pieces_nonempty(b, text::white_pred());
    assert(a.push(c).drop_last() =~= a);
    assert(b.push(c).drop_last() =~= b);
    if text::is_white(c) {
        assert(p.push(Seq::empty()).drop_last() =~= p);
        assert(q.push(Seq::empty()).drop_last() =~= q);
    } else {
        assert(p.drop_last().push(p.last().push(c)).drop_last() =~= p.drop_last());
        assert(q.drop_last().push(q.last().push(c)).drop_last() =~= q.drop_last());
    }
}

proof fn lemma_alike_at_gap(a: Seq<char>, b: Seq<char>)
    requires
        a.len() == 0 || text::is_white(a.last()),
        b.len() == 0 || text::is_white(b.last()),
        text::words_text(a) == text::words_text(b),
    ensures
        alike(a, b),
{
    let p = text::pieces(a, text::white_pred());
    let q = text::pieces(b, text::white_pred());
    text::lemma_pieces_nonempty(a, text::white_pred());
    text::lemma_pieces_nonempty(b, text::white_pred());
    assert(p.last() =~= Seq::<char>::empty());
    assert(q.last() =~= Seq::<char>::empty());
}

proof fn lemma_joined_push(s: Seq<char>, c: char)
    requires
        !text::is_white(c),
    ensures
        ({
            let t = text::join_text(text::words_text(s), " "@);
            let now = text::join_text(text::words_text(s.push(c)), " "@);
            if s.len() > 0 && !text::is_white(s.last()) {
                now == t.push(c)
            } else if text::words_text(s).len() == 0 {
                now == seq![c]
            } else {
                now == t.push(' ').push(c)
            }
        }),
{
    reveal_strlit(" ");
    let ws = text::words_text(s);
    let t = text::join_text(ws, " "@);
    let p = text::pieces(s, text::white_pred());
    text::lemma_pieces_nonempty(s, text::white_pred());
    assert(s.push(c).drop_last() =~= s);
    if s.len() > 0 && !text::is_white(s.last()) {
        let before = text::nonempty(p.drop_last());
        let w = p.last();
        assert(w.len() > 0);
        assert(ws == before.push(w));
        let grown = w.push(c);
        let now = before.push(grown);
        assert(p.drop_last().push(grown).drop_last() =~= p.drop_last());
        assert(text::words_text(s.push(c)) == now);
        assert(now.drop_last() =~= before);
        assert(ws.drop_last() =~= before);
        if before.len() > 0 {
            assert(text::join_text(before, " "@) + " "@ + grown =~= (text::join_text(before, " "@)
                + " "@ + w).push(c));
        }
    } else {
        assert(text::is_word(seq![c]));
        text::lemma_words_push(s, seq![c]);
        assert(s + seq![c] =~= s.push(c));
        assert(ws.push(seq![c]).drop_last() =~= ws);
        if ws.len() > 0 {
            assert(t + " "@ + seq![c] =~= t.push(' ').push(c));
        }
    }
}

proof fn lemma_codes_and_words(s: Seq<char>)
    requires
        codes_keep_apart(s),
    ensures
        ({
            let t = text::join_text(text::words_text(s), " "@);
            let a = without_section(s);
            let b = without_section(t);
            &&& text::words_text(a) == text::words_text(b)
            &&& if s.len() > 0 && !text::is_white(s.last()) {
                open_code(s) == open_code(t) && alike(a, b)
            } else if s.len() > 0 && open_code(s.drop_last()) {
                !open_code(s) && open_code(t) && alike(a, b)
            } else {
                !open_code(s) && !open_code(t) && (a.len() == 0 || text::is_white(a.last()))
            }
        }),
    decreases s.len(),
{
    reveal_strlit(" ");
    if s.len() == 0 {
        text::lemma_no_words(s);
        assert(text::join_text(text::words_text(s), " "@) =~= s);
    } else {
        let front = s.drop_last();
        let c = s.last();
        assert(s =~= front.push(c));
        assert(codes_keep_apart(front)) by {
            assert forall|k: int|
                0 <= k && k + 1 < front.len() && is_white_at(front, k) && #[trigger] open_code(
                    front.take(k),
                ) implies !is_white_at(front, k + 1) by {
                assert(front.take(k) =~= s.take(k));
                assert(is_white_at(s, k));
                assert(!is_white_at(s, k + 1));
            }
        }
        lemma_codes_and_words(front);
        lemma_section_push(front, c);
        let t0 = text::join_text(text::words_text(front), " "@);
        let a0 = without_section(front);
        let b0 = without_section(t0);
        if text::is_white(c) {
            text::lemma_words_before_white(front, c);
            if open_code(front) {
                // The white character goes with the section sign.
            } else {
                text::lemma_words_before_white(a0, c);
                if front.len() > 0 && text::is_white(front.last()) && open_code(
                    front.drop_last(),
                ) {
                    let k = s.len() - 2;
                    assert(s.take(k) =~= front.drop_last());
                    assert(is_white_at(s, k) && open_code(s.take(k)));
                    assert(is_white_at(s, k + 1));
                    assert(false);
                }
            }
        } else {
            lemma_joined_push(front, c);
            if front.len() > 0 && !text::is_white(front.last()) {
                lemma_section_push(t0, c);
                lemma_alike(a0, b0, c);
            } else {
                let gap = if text::words_text(front).len() == 0 {
                    t0
                } else {
                    t0.push(' ')
                };
                lemma_section_push(t0, ' ');
                lemma_section_push(gap, c);
                let b = without_section(gap);
                if front.len() > 0 && open_code(front.drop_last()) {
                    // The space goes with the section sign, as the white character did.
                } else {
                    text::lemma_words_before_white(b0, ' ');
                    assert(b.len() == 0 || text::is_white(b.last()));
                    lemma_alike_at_gap(a0, b);
                }
                assert(alike(a0, b));
                lemma_alike(a0, b, c);
                assert(gap.push(c) =~= text::join_text(text::words_text(s), " "@));
            }
        }
    }
}

/// How much white space stands between the words does not decide whether a line is
/// such a notice, where no section sign takes a part of it away.
pub proof fn lemma_spam_whatever_the_spaces(s: Seq<char>)
    requires
        codes_keep_apart(s),
    ensures
        spam(text::join_text(text::words_text(s), " "@)) == spam(s),
{
    lemma_codes_and_words(s);
}

/// A line that is blank without its codes is no such notice.
pub proof fn lemma_blank_is_no_spam(s: Seq<char>)
    requires
        forall|i: int|
            0 <= i < without_section(s).len() ==> text::is_white(#[trigger] without_section(s)[i]),
    ensures
        !spam(s),
{
    text::lemma_no_words(without_section(s));
    assert(text::lowered(Seq::<char>::empty()) =~= Seq::<char>::empty());
}

// ---------------------------------------------------------------------------
// Restart countdowns
// ---------------------------------------------------------------------------

/// Minutes and seconds behind "in" or a colon.
pub const DURATION: &'static str =
    r"(?:\bin\b|:)\s*(?:(\d+)\s*(?:m\b|min(?:ute)?s?))?\s*(?:(\d+)\s*(?:s\b|sec(?:ond)?s?))?";

/// The number in a capture group, where it is one.
pub open spec fn group_number(groups: Seq<Option<Seq<char>>>, i: int) -> Option<int> {
    match pattern::group_of(groups, i) {
        Some(s) => text::parsed_u64(s),
        None => None,
    }
}

pub open spec fn number_or_zero(o: Option<int>) -> int {
    match o {
        Some(n) => n,
        None => 0,
    }
}

/// The seconds that the first match with a number in it gives, from `from` on.
pub open spec fn first_duration(
    matches: Seq<Seq<Option<Seq<char>>>>,
    from: int,
) -> Option<int>
    decreases matches.len() - from,
{
    if from < 0 || from >= matches.len() {
        None
    } else {
        let mins = group_number(matches[from], 1);
        let secs = group_number(matches[from], 2);
        if mins is None && secs is None {
            first_duration(matches, from + 1)
        } else {
            Some(number_or_zero(mins) * 60 + number_or_zero(secs))
        }
    }
}

/// Whether a number of seconds fits.
pub open spec fn fits(o: Option<int>) -> bool {
    o matches Some(n) ==> n <= u64::MAX
}

fn number_in(groups: &Vec<Option<String>>, i: usize) -> (r: Option<u64>)
    ensures
        text::opt_int(r) == group_number(pattern::group_texts(groups@), i as int),
{
    match pattern::group(groups, i) {
        Some(s) => text::parse_u64(&s),
        None => None,
    }
}

/// The position of the first match with a number in it, and the minutes and the
/// seconds it gives.
fn first_numbered(matches: &Vec<Vec<Option<String>>>) -> (r: Option<(u64, u64)>)
    ensures
        first_duration(pattern::all_group_texts(matches@), 0) == (match r {
            Some((mins, secs)) => Some(mins * 60 + secs),
            None => None,
        }),
{
    for i in 0..matches.len()
        invariant
            first_duration(pattern::all_group_texts(matches@), 0) == first_duration(
                pattern::all_group_texts(matches@),
                i as int,
            ),
    {
        let groups = &matches[i];
        assert(pattern::all_group_texts(matches@)[i as int] == pattern::group_texts(groups@));
        let mins = number_in(groups, 1);
        let secs = number_in(groups, 2);
        if mins.is_some() || secs.is_some() {
            let m: u64 = match mins {
                Some(n) => n,
                None => 0,
            };
            let s: u64 = match secs {
                Some(n) => n,
                None => 0,
            };
            return Some((m, s));
        }
    }
    None
}

/// Whether the seconds that the matches of a duration give fit.
pub fn duration_fits(matches: &Vec<Vec<Option<String>>>) -> (b: bool)
    ensures
        b == fits(first_duration(pattern::all_group_texts(matches@), 0)),
{
    match first_numbered(matches) {
        Some((mins, secs)) => mins <= u64::MAX / 60 && secs <= u64::MAX - mins * 60,
        None => true,
    }
}

/// The seconds that the matches of a duration give.
pub fn duration_secs(matches: &Vec<Vec<Option<String>>>) -> (r: Option<u64>)
    requires
        fits(first_duration(pattern::all_group_texts(matches@), 0)),
    ensures
        text::opt_int(r) == first_duration(pattern::all_group_texts(matches@), 0),
{
    match first_numbered(matches) {
        Some((mins, secs)) => Some(mins * 60 + secs),
        None => None,
    }
}

/// What a line says of a restart before any number is read: `Some(true)` that it
/// is now, `Some(false)` that there may be a countdown.
pub open spec fn restart_notice(lower: Seq<char>) -> Option<bool> {
    if !text::has_text(lower, "restart"@) {
        None
    } else {
        Some(
            text::has_text(lower, "restarting now"@) || text::has_text(lower, "restart now"@),
        )
    }
}

/// The matches of a duration in a line about a restart.
pub open spec fn line_durations(line: Seq<char>) -> Seq<Seq<Option<Seq<char>>>> {
    pattern::regex_captures_iter(DURATION@, text::unicode_lower(without_section(line)))
}

/// The seconds left on a restart countdown.
pub open spec fn countdown(line: Seq<char>) -> Option<int> {
    match restart_notice(text::unicode_lower(without_section(line))) {
        None => None,
        Some(true) => Some(0),
        Some(false) => first_duration(line_durations(line), 0),
    }
}

/// Why a countdown was not read.
#[derive(Debug, Clone, Copy, PartialEq, Eq, Structural)]
pub enum CountdownError {
    /// More seconds than a 64-bit number holds.
    TooLong,
}

// ---------------------------------------------------------------------------
// The patterns of chat
// ---------------------------------------------------------------------------

/// Announcements of a join, with the verb in any case.
pub const JOIN: &'static str =
    r"^([*.]?[A-Za-z0-9_]{1,16}) (?i:joined the game|joined the server|joined)\.?$";

/// `Welcome Name!`, with a single word between.
pub const WELCOME: &'static str = r"^Welcome ([*.]?[A-Za-z0-9_]{1,16})!$";

pub const LEAVE: &'static str =
    r"^([*.]?[A-Za-z0-9_]{1,16}) (?i:left the game|left the server|left|disconnected|quit)\.?$";

/// `<Name> message`, with rank tags before or inside the brackets.
pub const ANGLE_CHAT: &'static str =
    r"^((?:\[[^\]]+\]\s*){0,3})<(?:\[[^\]]+\]\s*)?([*.]?[A-Za-z0-9_]{1,16})>\s?(?:[»>]\s?)?([\s\S]*)$";

/// `Name > message` or `Name » message`, with symbols allowed before the name and
/// between it and the separator.
pub const PREFIXED_CHAT: &'static str =
    r"^(?:[^\w\s]+\s*)*([*.]?[A-Za-z0-9_]{1,16})(?:\s+[^\w\s]+)*\s*[»>]\s?(.+)$";

/// `Name: message` and `Rank.Name: message`.
pub const COLON_CHAT: &'static str =
    r"^((?:[^\w\s]+\s*)*(?:[A-Za-z0-9_]{1,16}\.)?)([*.]?[A-Za-z0-9_]{1,16}):\s(.+)$";

/// Bracketed ranks and cosmetic symbols before the name.
pub const TAGGED_CHAT: &'static str =
    r"^(?:[^\w\s]+\s*)*(?:\[[^\]]+\]\s*)*([*.]?[A-Za-z0-9_]{1,16})(?:\s+\[[^\]]+\])*\s*[»>]\s?(.+)$";

/// A rank word before the name and an arrow behind it.
pub const REMPOLON_CHAT: &'static str =
    r"^(?:\[[^\]]+\]\s*)?(?:\S+\+?\s+)?([*.]?[A-Za-z0-9_]{1,16})\s*➤\s?([\s\S]*)$";

pub const TABLIST_JOIN: &'static str = r"^\[\+\]\s*([*.]?[A-Za-z0-9_]{1,16})$";

pub const TABLIST_LEAVE: &'static str = r"^\[✖\]\s*([*.]?[A-Za-z0-9_]{1,16})$";

/// `[name] Rank name [tag]: message`, where the name in brackets is the speaker's.
pub const CUTESMP_CHAT: &'static str =
    r"^\[([*.]?[A-Za-z0-9_]{1,16})\]\s+(?:\S+\s+)?([*.]?[A-Za-z0-9_]{1,16})(?:\s+\[[^\]]+\])?:\s*(.+)$";

/// `name [tag] message`.
pub const NAME_TAG_CHAT: &'static str =
    r"^([*.]?[A-Za-z0-9_]{1,16})\s+\[[^\]]{1,24}\]\s+(.+)$";

pub const ADVANCEMENT: &'static str =
    r"^([*.]?[A-Za-z0-9_]{1,16}) has (?:made the advancement|completed the challenge|reached the goal)\b";

/// The patterns, each compiled once.
pub struct ChatPatterns {
    join: Pattern,
    welcome: Pattern,
    leave: Pattern,
    angle_chat: Pattern,
    prefixed_chat: Pattern,
    colon_chat: Pattern,
    tagged_chat: Pattern,
    rempolon_chat: Pattern,
    tablist_join: Pattern,
    tablist_leave: Pattern,
    cutesmp_chat: Pattern,
    name_tag_chat: Pattern,
    advancement: Pattern,
    duration: Pattern,
}

/// Whether every pattern of chat compiles.
pub open spec fn chat_patterns_compile() -> bool {
    &&& pattern::regex_accepts(JOIN@)
    &&& pattern::regex_accepts(WELCOME@)
    &&& pattern::regex_accepts(LEAVE@)
    &&& pattern::regex_accepts(ANGLE_CHAT@)
    &&& pattern::regex_accepts(PREFIXED_CHAT@)
    &&& pattern::regex_accepts(COLON_CHAT@)
    &&& pattern::regex_accepts(TAGGED_CHAT@)
    &&& pattern::regex_accepts(REMPOLON_CHAT@)
    &&& pattern::regex_accepts(TABLIST_JOIN@)
    &&& pattern::regex_accepts(TABLIST_LEAVE@)
    &&& pattern::regex_accepts(CUTESMP_CHAT@)
    &&& pattern::regex_accepts(NAME_TAG_CHAT@)
    &&& pattern::regex_accepts(ADVANCEMENT@)
    &&& pattern::regex_accepts(DURATION@)
}

impl ChatPatterns {
    #[verifier::type_invariant]
    spec fn inv(self) -> bool {
        &&& self.join.source() == JOIN@
        &&& self.welcome.source() == WELCOME@
        &&& self.leave.source() == LEAVE@
        &&& self.angle_chat.source() == ANGLE_CHAT@
        &&& self.prefixed_chat.source() == PREFIXED_CHAT@
        &&& self.colon_chat.source() == COLON_CHAT@
        &&& self.tagged_chat.source() == TAGGED_CHAT@
        &&& self.rempolon_chat.source() == REMPOLON_CHAT@
        &&& self.tablist_join.source() == TABLIST_JOIN@
        &&& self.tablist_leave.source() == TABLIST_LEAVE@
        &&& self.cutesmp_chat.source() == CUTESMP_CHAT@
        &&& self.name_tag_chat.source() == NAME_TAG_CHAT@
        &&& self.advancement.source() == ADVANCEMENT@
        &&& self.duration.source() == DURATION@
    }

    /// Compiles the patterns.
    pub fn new() -> (r: Option<ChatPatterns>)
        ensures
            r is Some == chat_patterns_compile(),
    {
        let join = Pattern::new(JOIN)?;
        let welcome = Pattern::new(WELCOME)?;
        let leave = Pattern::new(LEAVE)?;
        let angle_chat = Pattern::new(ANGLE_CHAT)?;
        let prefixed_chat = Pattern::new(PREFIXED_CHAT)?;
        let colon_chat = Pattern::new(COLON_CHAT)?;
        let tagged_chat = Pattern::new(TAGGED_CHAT)?;
        let rempolon_chat = Pattern::new(REMPOLON_CHAT)?;
        let tablist_join = Pattern::new(TABLIST_JOIN)?;
        let tablist_leave = Pattern::new(TABLIST_LEAVE)?;
        let cutesmp_chat = Pattern::new(CUTESMP_CHAT)?;
        let name_tag_chat = Pattern::new(NAME_TAG_CHAT)?;
        let advancement = Pattern::new(ADVANCEMENT)?;
        let duration = Pattern::new(DURATION)?;
        Some(
            ChatPatterns {
                join,
                welcome,
                leave,
                angle_chat,
                prefixed_chat,
                colon_chat,
                tagged_chat,
                rempolon_chat,
                tablist_join,
                tablist_leave,
                cutesmp_chat,
                name_tag_chat,
                advancement,
                duration,
            },
        )
    }
}

/// The matches of a duration in a line.
fn durations_in(patterns: &ChatPatterns, line: &str) -> (r: Vec<Vec<Option<String>>>)
    ensures
        pattern::all_group_texts(r@) == line_durations(line@),
{
    proof {
        use_type_invariant(patterns);
    }
    patterns.duration.find_all(&text::to_lowercase(&strip_section_sign(line)))
}

fn restart_said(line: &str) -> (r: Option<bool>)
    ensures
        r == restart_notice(text::unicode_lower(without_section(line@))),
{
    let lower = text::to_lowercase(&strip_section_sign(line));
    if !text::has(&lower, "restart") {
        None
    } else {
        Some(text::has(&lower, "restarting now") || text::has(&lower, "restart now"))
    }
}

/// The seconds left on a server restart countdown, where the line is one. Every
/// server words it differently.
pub fn restart_countdown_secs(patterns: &ChatPatterns, line: &str) -> (r: Option<u64>)
    requires
        fits(countdown(line@)),
    ensures
        text::opt_int(r) == countdown(line@),
{
    match restart_said(line) {
        None => None,
        Some(true) => Some(0),
        Some(false) => duration_secs(&durations_in(patterns, line)),
    }
}

/// The seconds left on a countdown, for any line. A countdown of more seconds
/// than a 64-bit number holds is refused.
pub fn read_countdown(patterns: &ChatPatterns, line: &str) -> (r: Result<
    Option<u64>,
    CountdownError,
>)
    ensures
        match r {
            Ok(secs) => text::opt_int(secs) == countdown(line@),
            Err(CountdownError::TooLong) => !fits(countdown(line@)),
        },
{
    if let Some(false) = restart_said(line) {
        if !duration_fits(&durations_in(patterns, line)) {
            return Err(CountdownError::TooLong);
        }
    }
    Ok(restart_countdown_secs(patterns, line))
}

// ---------------------------------------------------------------------------
// From captures to a classification
// ---------------------------------------------------------------------------

/// The part of a line before a separator, where the content is what follows it.
pub open spec fn label_by_separator(
    line: Seq<char>,
    content: Seq<char>,
    separator: Seq<char>,
) -> Option<Seq<char>> {
    match text::split_once_text(line, separator) {
        Some((head, tail)) if text::trimmed(tail) == content && text::trimmed(head).len() > 0 =>
            Some(text::trimmed(head)),
        _ => None,
    }
}

/// The decoration of the speaker before the content of a line.
pub open spec fn label_of(line: Seq<char>, content: Seq<char>) -> Option<Seq<char>> {
    let said = text::trimmed(content);
    let whole = text::trimmed(line);
    if said.len() == 0 {
        None
    } else if label_by_separator(whole, said, "»"@) is Some {
        label_by_separator(whole, said, "»"@)
    } else if label_by_separator(whole, said, "➤"@) is Some {
        label_by_separator(whole, said, "➤"@)
    } else if text::ends(whole, said) && text::trimmed_end(
        whole.take(whole.len() - said.len()),
    ).len() > 0 {
        Some(text::trimmed_end(whole.take(whole.len() - said.len())))
    } else {
        None
    }
}

fn label_before_separator(line: &str, content: &str, separator: &str) -> (r: Option<String>)
    ensures
        text::opt_text(r) == label_by_separator(line@, content@, separator@),
{
    if let Some((head, tail)) = text::split_once(line, separator) {
        if text::same(&text::trim(&tail), content) {
            let label = text::trim(&head);
            if !label.as_str().is_empty() {
                return Some(label);
            }
        }
    }
    None
}

/// The decoration of the speaker before the message: ranks, level, brackets.
pub fn label_before_content(line: &str, content: &str) -> (r: Option<String>)
    ensures
        text::opt_text(r) == label_of(line@, content@),
{
    let said = text::trim(content);
    if said.as_str().is_empty() {
        return None;
    }
    let whole = text::trim(line);
    if let Some(label) = label_before_separator(&whole, &said, "»") {
        return Some(label);
    }
    if let Some(label) = label_before_separator(&whole, &said, "➤") {
        return Some(label);
    }
    if text::ends_with(&whole, &said) {
        let v = text::chars_of(&whole);
        let n: usize = said.as_str().unicode_len();
        let head = text::string_of(&v, 0, v.len() - n);
        assert(head@ =~= whole@.take(whole@.len() - said@.len()));
        let label = text::trim_end(&head);
        if !label.as_str().is_empty() {
            return Some(label);
        }
    }
    None
}

/// A line in which a player says something.
pub open spec fn said(line: Seq<char>, sender: Seq<char>, content: Seq<char>) -> LineText {
    LineText {
        kind: Kind::Chat,
        subject: None,
        killer: None,
        sender: Some(sender),
        content: Some(content),
        sender_label: label_of(line, content),
    }
}

pub fn chat_result(line: &str, sender: String, content: String) -> (c: Classification)
    ensures
        c@ == said(line@, sender@, content@),
{
    let sender_label = label_before_content(line, &content);
    Classification {
        kind: Kind::Chat,
        subject: None,
        killer: None,
        sender: Some(sender),
        content: Some(content),
        sender_label,
    }
}

/// The name captured from a line, where a player can have it.
pub open spec fn line_name(had_fmt: bool, captured: Seq<char>) -> Option<Seq<char>> {
    cleaned(captured, had_fmt || formatted(captured))
}

pub fn named_from_line(had_fmt: bool, captured: &str) -> (r: Option<String>)
    ensures
        text::opt_text(r) == line_name(had_fmt, captured@),
{
    clean_named(captured, had_fmt || has_formatting(captured))
}

/// What a line announces that says no more than that somebody came or went.
pub open spec fn nameless(line: Seq<char>) -> Option<Kind> {
    let t = text::lowered(
        text::trimmed(text::drop_back(text::trimmed(line), text::either('.', '.'))),
    );
    if t == "joined the game"@ || t == "joined the server"@ || t == "joined"@ {
        Some(Kind::Join)
    } else if t == "left the game"@ || t == "left the server"@ || t == "left"@ || t
        == "disconnected"@ || t == "quit"@ {
        Some(Kind::Leave)
    } else {
        None
    }
}

pub fn nameless_presence(line: &str) -> (r: Option<Kind>)
    ensures
        r == nameless(line@),
{
    let t = text::lower(&text::trim(&text::trim_end_chars(&text::trim(line), '.', '.')));
    if text::same(&t, "joined the game") || text::same(&t, "joined the server") || text::same(
        &t,
        "joined",
    ) {
        Some(Kind::Join)
    } else if text::same(&t, "left the game") || text::same(&t, "left the server") || text::same(
        &t,
        "left",
    ) || text::same(&t, "disconnected") || text::same(&t, "quit") {
        Some(Kind::Leave)
    } else {
        None
    }
}

/// What a captured speaker and a captured content make of a line.
pub open spec fn captured_chat(
    line: Seq<char>,
    sender: Seq<char>,
    content: Seq<char>,
) -> LineText {
    if spam(line) || spam(content) {
        just(Kind::Unknown)
    } else if plugin_speaker(sender) {
        just(Kind::Server)
    } else {
        match line_name(line.contains('§'), sender) {
            Some(name) => said(line, name, content),
            None => just(Kind::Server),
        }
    }
}

pub fn chat_from_capture(line: &str, sender: String, content: String) -> (c: Classification)
    ensures
        c@ == captured_chat(line@, sender@, content@),
{
    if is_bridge_spam(line) || is_bridge_spam(&content) {
        return Classification::of(Kind::Unknown);
    }
    if is_plugin_speaker(&sender) {
        return Classification::of(Kind::Server);
    }
    match named_from_line(text::has_char(line, '§'), &sender) {
        Some(name) => chat_result(line, name, content),
        None => Classification::of(Kind::Server),
    }
}

/// A line about a player, named in a capture group where the name can be one.
pub open spec fn about(kind: Kind, had_fmt: bool, captured: Option<Seq<char>>) -> LineText {
    LineText {
        kind,
        subject: match captured {
            Some(name) => line_name(had_fmt, name),
            None => None,
        },
        killer: None,
        sender: None,
        content: None,
        sender_label: None,
    }
}

pub fn about_player(kind: Kind, had_fmt: bool, captured: &Option<String>) -> (c: Classification)
    ensures
        c@ == about(kind, had_fmt, text::opt_text(*captured)),
{
    let subject = match captured {
        Some(name) => named_from_line(had_fmt, name),
        None => None,
    };
    Classification {
        kind,
        subject,
        killer: None,
        sender: None,
        content: None,
        sender_label: None,
    }
}

/// What a line that matched a death template is. Without a victim that a player
/// can be, it is nobody's death.
pub open spec fn death_line(
    had_fmt: bool,
    victim: Seq<char>,
    killer: Option<Seq<char>>,
) -> LineText {
    match line_name(had_fmt, victim) {
        Some(name) => LineText {
            kind: Kind::Death,
            subject: Some(name),
            killer,
            sender: None,
            content: None,
            sender_label: None,
        },
        None => just(Kind::Unknown),
    }
}

pub fn death_from_match(had_fmt: bool, victim: &str, killer: Option<String>) -> (c: Classification)
    ensures
        c@ == death_line(had_fmt, victim@, text::opt_text(killer)),
{
    match named_from_line(had_fmt, victim) {
        Some(name) => Classification {
            kind: Kind::Death,
            subject: Some(name),
            killer,
            sender: None,
            content: None,
            sender_label: None,
        },
        None => Classification::of(Kind::Unknown),
    }
}

/// What a line of the form `[name] Rank name: message` is, where the name in
/// brackets is the speaker's.
pub open spec fn bracketed_chat(
    line: Seq<char>,
    had_fmt: bool,
    groups: Seq<Option<Seq<char>>>,
) -> Option<LineText> {
    let bracket = text::text_or_empty(pattern::group_of(groups, 1));
    let speaker = text::text_or_empty(pattern::group_of(groups, 2));
    let content = text::text_or_empty(pattern::group_of(groups, 3));
    if text::lowered(bracket) != text::lowered(speaker) {
        None
    } else if spam(line) || spam(content) {
        Some(just(Kind::Unknown))
    } else if plugin_speaker(speaker) {
        Some(just(Kind::Server))
    } else {
        match line_name(had_fmt, speaker) {
            Some(name) => Some(
                LineText {
                    kind: Kind::Chat,
                    subject: None,
                    killer: None,
                    sender: Some(name),
                    content: Some(content),
                    sender_label: None,
                },
            ),
            None => None,
        }
    }
}

pub open spec fn opt_line(o: Option<Classification>) -> Option<LineText> {
    match o {
        Some(c) => Some(c@),
        None => None,
    }
}

pub fn chat_in_brackets(line: &str, had_fmt: bool, found: &Found) -> (r: Option<Classification>)
    ensures
        opt_line(r) == bracketed_chat(line@, had_fmt, found@.groups),
{
    let bracket = found.group_or_empty(1);
    let speaker = found.group_or_empty(2);
    if !text::same_ignoring_case(&bracket, &speaker) {
        return None;
    }
    let content = found.group_or_empty(3);
    if is_bridge_spam(line) || is_bridge_spam(&content) {
        return Some(Classification::of(Kind::Unknown));
    }
    if is_plugin_speaker(&speaker) {
        return Some(Classification::of(Kind::Server));
    }
    match named_from_line(had_fmt, &speaker) {
        Some(name) => Some(
            Classification {
                kind: Kind::Chat,
                subject: None,
                killer: None,
                sender: Some(name),
                content: Some(content),
                sender_label: None,
            },
        ),
        None => None,
    }
}

/// What a line of the form `Name: message` or `Rank.Name: message` is.
pub open spec fn colon_chat(
    line: Seq<char>,
    had_fmt: bool,
    groups: Seq<Option<Seq<char>>>,
) -> LineText {
    let speaker = pattern::group_of(groups, 2);
    let content = text::text_or_empty(pattern::group_of(groups, 3));
    let rank = text::trimmed(text::text_or_empty(pattern::group_of(groups, 1)));
    if speaker is Some && plugin_speaker(speaker->0) {
        if spam(line) {
            just(Kind::Unknown)
        } else {
            just(Kind::Server)
        }
    } else if spam(line) || spam(content) {
        just(Kind::Unknown)
    } else {
        match speaker {
            Some(captured) => match line_name(had_fmt, captured) {
                Some(name) => LineText {
                    kind: Kind::Chat,
                    subject: None,
                    killer: None,
                    sender: Some(name),
                    content: Some(content),
                    sender_label: if rank.len() > 0 {
                        Some(rank + name)
                    } else {
                        label_of(line, content)
                    },
                },
                None => just(Kind::Server),
            },
            None => just(Kind::Server),
        }
    }
}

pub fn chat_behind_colon(line: &str, had_fmt: bool, found: &Found) -> (c: Classification)
    ensures
        c@ == colon_chat(line@, had_fmt, found@.groups),
{
    let speaker = found.group(2);
    if let Some(s) = &speaker {
        if is_plugin_speaker(s) {
            return if is_bridge_spam(line) {
                Classification::of(Kind::Unknown)
            } else {
                Classification::of(Kind::Server)
            };
        }
    }
    let content = found.group_or_empty(3);
    if is_bridge_spam(line) || is_bridge_spam(&content) {
        return Classification::of(Kind::Unknown);
    }
    let rank = text::trim(&found.group_or_empty(1));
    let name = match &speaker {
        Some(s) => named_from_line(had_fmt, s),
        None => None,
    };
    match name {
        Some(sender) => {
            let sender_label = if rank.as_str().is_empty() {
                label_before_content(line, &content)
            } else {
                Some(text::cat2(&rank, &sender))
            };
            Classification {
                kind: Kind::Chat,
                subject: None,
                killer: None,
                sender: Some(sender),
                content: Some(content),
                sender_label,
            }
        },
        None => Classification::of(Kind::Server),
    }
}

// ---------------------------------------------------------------------------
// Classification
// ---------------------------------------------------------------------------

/// What a translation key says of a line.
pub open spec fn keyed(key: Seq<char>) -> Option<Kind> {
    if text::begins(key, "death."@) {
        Some(Kind::Death)
    } else if text::begins(key, "chat.type.advancement"@) {
        Some(Kind::Advancement)
    } else if key == "multiplayer.player.joined"@ {
        Some(Kind::Join)
    } else if key == "multiplayer.player.left"@ {
        Some(Kind::Leave)
    } else if key == "chat.type.text"@ {
        Some(Kind::Chat)
    } else {
        None
    }
}

pub fn kind_of_key(key: &str) -> (r: Option<Kind>)
    ensures
        r == keyed(key@),
{
    if text::starts_with(key, "death.") {
        Some(Kind::Death)
    } else if text::starts_with(key, "chat.type.advancement") {
        Some(Kind::Advancement)
    } else if text::same(key, "multiplayer.player.joined") {
        Some(Kind::Join)
    } else if text::same(key, "multiplayer.player.left") {
        Some(Kind::Leave)
    } else if text::same(key, "chat.type.text") {
        Some(Kind::Chat)
    } else {
        None
    }
}

/// What a pattern with the speaker in group `who` makes of a line.
pub open spec fn chat_by(
    source: Seq<char>,
    plain: Seq<char>,
    who: int,
    what: int,
) -> Option<LineText> {
    match pattern::found_in(source, plain) {
        Some(found) => Some(
            captured_chat(
                plain,
                text::text_or_empty(pattern::group_of(found.groups, who)),
                text::text_or_empty(pattern::group_of(found.groups, what)),
            ),
        ),
        None => None,
    }
}

/// What a pattern about a player, with the name in its first group, makes of a
/// line.
pub open spec fn about_by(
    source: Seq<char>,
    plain: Seq<char>,
    kind: Kind,
    had_fmt: bool,
) -> Option<LineText> {
    match pattern::found_in(source, plain) {
        Some(found) => Some(about(kind, had_fmt, pattern::group_of(found.groups, 1))),
        None => None,
    }
}

/// The first answer there is.
pub open spec fn or_else(a: Option<LineText>, b: Option<LineText>) -> Option<LineText> {
    if a is Some {
        a
    } else {
        b
    }
}

/// What a system line says of itself before deaths are looked for. Chat in angle
/// brackets is unambiguous and wins over everything else.
pub open spec fn announced(plain: Seq<char>, had_fmt: bool) -> Option<LineText> {
    or_else(
        chat_by(ANGLE_CHAT@, plain, 2, 3),
        or_else(
            about_by(JOIN@, plain, Kind::Join, had_fmt),
            or_else(
                about_by(WELCOME@, plain, Kind::Join, had_fmt),
                or_else(
                    about_by(TABLIST_JOIN@, plain, Kind::Join, had_fmt),
                    or_else(
                        about_by(LEAVE@, plain, Kind::Leave, had_fmt),
                        or_else(
                            about_by(TABLIST_LEAVE@, plain, Kind::Leave, had_fmt),
                            or_else(
                                match nameless(plain) {
                                    Some(kind) => Some(just(kind)),
                                    None => None,
                                },
                                about_by(ADVANCEMENT@, plain, Kind::Advancement, had_fmt),
                            ),
                        ),
                    ),
                ),
            ),
        ),
    )
}

/// What the looser forms of chat make of a system line.
pub open spec fn loose_chat(plain: Seq<char>, had_fmt: bool) -> Option<LineText> {
    or_else(
        match pattern::found_in(CUTESMP_CHAT@, plain) {
            Some(found) => bracketed_chat(plain, had_fmt, found.groups),
            None => None,
        },
        or_else(
            chat_by(TAGGED_CHAT@, plain, 1, 2),
            or_else(
                chat_by(REMPOLON_CHAT@, plain, 1, 2),
                or_else(
                    chat_by(PREFIXED_CHAT@, plain, 1, 2),
                    or_else(
                        match pattern::found_in(COLON_CHAT@, plain) {
                            Some(found) => Some(colon_chat(plain, had_fmt, found.groups)),
                            None => None,
                        },
                        chat_by(NAME_TAG_CHAT@, plain, 1, 2),
                    ),
                ),
            ),
        ),
    )
}

/// What a system line is. Deaths are looked for behind join and leave, so that
/// "X left the game" is none, and before the looser forms of chat.
pub open spec fn system_line(
    matchers: Seq<deaths::MatcherText>,
    plain: Seq<char>,
    had_fmt: bool,
) -> LineText {
    if spam(plain) {
        just(Kind::Unknown)
    } else if announced(plain, had_fmt) is Some {
        announced(plain, had_fmt)->0
    } else {
        match deaths::first_death(matchers, plain, 0) {
            Some((victim, killer)) => death_line(had_fmt, victim, killer),
            None => match loose_chat(plain, had_fmt) {
                Some(line) => line,
                None => if plain.len() == 0 {
                    just(Kind::Unknown)
                } else {
                    just(Kind::Server)
                },
            },
        }
    }
}

/// The line where no player said it after all: a plugin must not get a sender,
/// whatever decoration its name came with.
pub open spec fn by_players(line: LineText) -> LineText {
    if line.sender matches Some(name) && plugin_speaker(name) {
        just(Kind::Server)
    } else {
        line
    }
}

/// What a line is.
pub open spec fn classified(
    matchers: Seq<deaths::MatcherText>,
    line: Seq<char>,
    is_player_packet: bool,
    is_whisper: bool,
    key: Option<Seq<char>>,
) -> LineText {
    if is_whisper {
        just(Kind::Whisper)
    } else if key is Some && keyed(key->0) is Some {
        just(keyed(key->0)->0)
    } else if is_player_packet {
        just(Kind::Chat)
    } else {
        by_players(system_line(matchers, text::trimmed(without_section(line)), formatted(line)))
    }
}

/// The patterns and the death templates that lines are held against.
pub struct Classifier {
    pub patterns: ChatPatterns,
    pub deaths: Vec<DeathMatcher>,
}

fn chat_with(p: &Pattern, plain: &str, who: usize, what: usize) -> (r: Option<Classification>)
    ensures
        opt_line(r) == chat_by(p.source(), plain@, who as int, what as int),
{
    match p.find(plain) {
        Some(found) => Some(
            chat_from_capture(plain, found.group_or_empty(who), found.group_or_empty(what)),
        ),
        None => None,
    }
}

fn about_with(p: &Pattern, plain: &str, kind: Kind, had_fmt: bool) -> (r: Option<Classification>)
    ensures
        opt_line(r) == about_by(p.source(), plain@, kind, had_fmt),
{
    match p.find(plain) {
        Some(found) => Some(about_player(kind, had_fmt, &found.group(1))),
        None => None,
    }
}

fn announcement(patterns: &ChatPatterns, plain: &str, had_fmt: bool) -> (r: Option<Classification>)
    ensures
        opt_line(r) == announced(plain@, had_fmt),
{
    proof {
        use_type_invariant(patterns);
    }
    if let Some(c) = chat_with(&patterns.angle_chat, plain, 2, 3) {
        return Some(c);
    }
    if let Some(c) = about_with(&patterns.join, plain, Kind::Join, had_fmt) {
        return Some(c);
    }
    if let Some(c) = about_with(&patterns.welcome, plain, Kind::Join, had_fmt) {
        return Some(c);
    }
    if let Some(c) = about_with(&patterns.tablist_join, plain, Kind::Join, had_fmt) {
        return Some(c);
    }
    if let Some(c) = about_with(&patterns.leave, plain, Kind::Leave, had_fmt) {
        return Some(c);
    }
    if let Some(c) = about_with(&patterns.tablist_leave, plain, Kind::Leave, had_fmt) {
        return Some(c);
    }
    if let Some(kind) = nameless_presence(plain) {
        return Some(Classification::of(kind));
    }
    about_with(&patterns.advancement, plain, Kind::Advancement, had_fmt)
}

fn looser_chat(patterns: &ChatPatterns, plain: &str, had_fmt: bool) -> (r: Option<Classification>)
    ensures
        opt_line(r) == loose_chat(plain@, had_fmt),
{
    proof {
        use_type_invariant(patterns);
    }
    if let Some(found) = patterns.cutesmp_chat.find(plain) {
        if let Some(c) = chat_in_brackets(plain, had_fmt, &found) {
            return Some(c);
        }
    }
    if let Some(c) = chat_with(&patterns.tagged_chat, plain, 1, 2) {
        return Some(c);
    }
    if let Some(c) = chat_with(&patterns.rempolon_chat, plain, 1, 2) {
        return Some(c);
    }
    // Name first, with decoration between the name and the separator.
    if let Some(c) = chat_with(&patterns.prefixed_chat, plain, 1, 2) {
        return Some(c);
    }
    if let Some(found) = patterns.colon_chat.find(plain) {
        return Some(chat_behind_colon(plain, had_fmt, &found));
    }
    chat_with(&patterns.name_tag_chat, plain, 1, 2)
}

fn system_text(classifier: &Classifier, plain: &str, had_fmt: bool) -> (c: Classification)
    ensures
        c@ == system_line(deaths::matcher_texts(classifier.deaths@), plain@, had_fmt),
{
    if is_bridge_spam(plain) {
        return Classification::of(Kind::Unknown);
    }
    if let Some(c) = announcement(&classifier.patterns, plain, had_fmt) {
        return c;
    }
    if let Some((victim, killer)) = deaths::match_death(&classifier.deaths, plain) {
        return death_from_match(had_fmt, &victim, killer);
    }
    if let Some(c) = looser_chat(&classifier.patterns, plain, had_fmt) {
        return c;
    }
    if plain.is_empty() {
        Classification::of(Kind::Unknown)
    } else {
        Classification::of(Kind::Server)
    }
}

/// Works out what a line is. `is_player_packet` tells a player-chat packet from a
/// system line, and `translate_key` is believed ahead of any text.
pub fn classify(
    classifier: &Classifier,
    line: &str,
    is_player_packet: bool,
    is_whisper: bool,
    translate_key: Option<&str>,
) -> (c: Classification)
    ensures
        c@ == classified(
            deaths::matcher_texts(classifier.deaths@),
            line@,
            is_player_packet,
            is_whisper,
            text::opt_str(translate_key),
        ),
        consistent(c@),
{
    proof {
        lemma_classifications_are_consistent(
            deaths::matcher_texts(classifier.deaths@),
            line@,
            is_player_packet,
            is_whisper,
            text::opt_str(translate_key),
        );
    }
    if is_whisper {
        return Classification::of(Kind::Whisper);
    }
    if let Some(key) = translate_key {
        if let Some(kind) = kind_of_key(key) {
            return Classification::of(kind);
        }
    }
    // A player-chat packet is chat by definition, whatever the text looks like.
    if is_player_packet {
        return Classification::of(Kind::Chat);
    }
    let plain = text::trim(&strip_section_sign(line));
    let c = system_text(classifier, &plain, has_formatting(line));
    if let Some(name) = &c.sender {
        if is_plugin_speaker(name) {
            return Classification::of(Kind::Server);
        }
    }
    c
}

// ---------------------------------------------------------------------------
// What holds of every line
// ---------------------------------------------------------------------------

/// A player-chat packet is chat whatever it says: somebody who types that a
/// player joined or died makes no event.
pub proof fn lemma_player_packets_are_chat(
    matchers: Seq<deaths::MatcherText>,
    line: Seq<char>,
)
    ensures
        classified(matchers, line, true, false, None) == just(Kind::Chat),
{
}

/// The key that a server sends decides before any text does, for every line and
/// every list of templates.
pub proof fn lemma_translation_keys_decide(
    matchers: Seq<deaths::MatcherText>,
    line: Seq<char>,
    is_player_packet: bool,
    key: Seq<char>,
)
    requires
        keyed(key) is Some,
    ensures
        classified(matchers, line, is_player_packet, false, Some(key)) == just(keyed(key)->0),
{
}

/// What holds of everything that is said of a line: a sender and what they said
/// stand together, in chat only, and the sender is a player under a clean name; a
/// label stands beside a sender only; somebody is the subject of a join, a leave, a
/// death or an advancement only; and a killer has a name and stands beside the
/// victim of a death only.
pub open spec fn consistent(c: LineText) -> bool {
    &&& c.sender is Some == c.content is Some
    &&& c.sender matches Some(name) ==> {
        &&& c.kind == Kind::Chat
        &&& !plugin_speaker(name)
        &&& player_shaped(name)
        &&& cleaned(name, formatted(name)) == Some(name)
    }
    &&& c.sender_label is Some ==> c.sender is Some
    &&& c.subject matches Some(name) ==> {
        &&& c.kind == Kind::Join || c.kind == Kind::Leave || c.kind == Kind::Death || c.kind
            == Kind::Advancement
        &&& player_shaped(name)
        &&& cleaned(name, formatted(name)) == Some(name)
    }
    &&& c.killer matches Some(name) ==> c.kind == Kind::Death && c.subject is Some && name.len()
        > 0
    &&& c.kind == Kind::Server || c.kind == Kind::Unknown || c.kind == Kind::Whisper ==> c == just(
        c.kind,
    )
}

proof fn lemma_names_consistent(had_fmt: bool, captured: Seq<char>)
    ensures
        line_name(had_fmt, captured) matches Some(name) ==> player_shaped(name) && cleaned(
            name,
            formatted(name),
        ) == Some(name),
{
    if let Some(name) = line_name(had_fmt, captured) {
        lemma_player_names_are_clean(name);
    }
}

proof fn lemma_chat_consistent(source: Seq<char>, plain: Seq<char>, who: int, what: int)
    ensures
        chat_by(source, plain, who, what) matches Some(c) ==> consistent(by_players(c)),
{
    if let Some(found) = pattern::found_in(source, plain) {
        lemma_names_consistent(
            plain.contains('§'),
            text::text_or_empty(pattern::group_of(found.groups, who)),
        );
    }
}

proof fn lemma_about_consistent(source: Seq<char>, plain: Seq<char>, kind: Kind, had_fmt: bool)
    requires
        kind == Kind::Join || kind == Kind::Leave || kind == Kind::Advancement,
    ensures
        about_by(source, plain, kind, had_fmt) matches Some(c) ==> consistent(by_players(c)),
{
    if let Some(found) = pattern::found_in(source, plain) {
        if let Some(name) = pattern::group_of(found.groups, 1) {
            lemma_names_consistent(had_fmt, name);
        }
    }
}

/// What is said of a line is consistent, for every line and every list of
/// templates.
pub proof fn lemma_classifications_are_consistent(
    matchers: Seq<deaths::MatcherText>,
    line: Seq<char>,
    is_player_packet: bool,
    is_whisper: bool,
    key: Option<Seq<char>>,
)
    ensures
        consistent(classified(matchers, line, is_player_packet, is_whisper, key)),
{
    let plain = text::trimmed(without_section(line));
    let had_fmt = formatted(line);
    lemma_chat_consistent(ANGLE_CHAT@, plain, 2, 3);
    lemma_about_consistent(JOIN@, plain, Kind::Join, had_fmt);
    lemma_about_consistent(WELCOME@, plain, Kind::Join, had_fmt);
    lemma_about_consistent(TABLIST_JOIN@, plain, Kind::Join, had_fmt);
    lemma_about_consistent(LEAVE@, plain, Kind::Leave, had_fmt);
    lemma_about_consistent(TABLIST_LEAVE@, plain, Kind::Leave, had_fmt);
    lemma_about_consistent(ADVANCEMENT@, plain, Kind::Advancement, had_fmt);
    deaths::lemma_killers_have_names(matchers, plain, 0);
    if let Some((victim, killer)) = deaths::first_death(matchers, plain, 0) {
        lemma_names_consistent(had_fmt, victim);
        assert(killer matches Some(name) && name.len() == 0 ==> killer == Some(
            Seq::<char>::empty(),
        )) by {
            if let Some(name) = killer {
                if name.len() == 0 {
                    assert(name =~= Seq::<char>::empty());
                }
            }
        }
    }
    if let Some(found) = pattern::found_in(CUTESMP_CHAT@, plain) {
        lemma_names_consistent(had_fmt, text::text_or_empty(pattern::group_of(found.groups, 2)));
    }
    lemma_chat_consistent(TAGGED_CHAT@, plain, 1, 2);
    lemma_chat_consistent(REMPOLON_CHAT@, plain, 1, 2);
    lemma_chat_consistent(PREFIXED_CHAT@, plain, 1, 2);
    if let Some(found) = pattern::found_in(COLON_CHAT@, plain) {
        if let Some(speaker) = pattern::group_of(found.groups, 2) {
            lemma_names_consistent(had_fmt, speaker);
        }
    }
    lemma_chat_consistent(NAME_TAG_CHAT@, plain, 1, 2);
}

/// Somebody who quotes a death line in angle brackets stays a speaker: a line
/// that the chat form takes is no death whatever the templates are.
pub proof fn lemma_quoted_deaths_are_chat(
    matchers: Seq<deaths::MatcherText>,
    line: Seq<char>,
)
    requires
        pattern::found_in(ANGLE_CHAT@, text::trimmed(without_section(line))) is Some,
    ensures
        classified(matchers, line, false, false, None).kind != Kind::Death,
{
}

/// Of a line that says somebody left, no template makes a death.
pub proof fn lemma_leaving_is_no_death(matchers: Seq<deaths::MatcherText>, line: Seq<char>)
    requires
        pattern::found_in(LEAVE@, text::trimmed(without_section(line))) is Some,
    ensures
        classified(matchers, line, false, false, None).kind != Kind::Death,
{
}

/// Repeated notices are never anybody's line.
pub proof fn lemma_spam_is_nobodys(matchers: Seq<deaths::MatcherText>, line: Seq<char>)
    requires
        spam(text::trimmed(without_section(line))),
    ensures
        classified(matchers, line, false, false, None) == just(Kind::Unknown),
{
}

// ---------------------------------------------------------------------------
// Who a line is about
// ---------------------------------------------------------------------------

/// That the pattern does not match the line.
pub open spec fn passes(source: Seq<char>, plain: Seq<char>) -> bool {
    pattern::found_in(source, plain) is None
}

/// That the pattern matches the line and catches the text in that group.
pub open spec fn takes(source: Seq<char>, plain: Seq<char>, group: int, g: Seq<char>) -> bool {
    pattern::found_in(source, plain) matches Some(found) && pattern::group_of(found.groups, group)
        == Some(g)
}

/// That the line is of that kind, about that player and nothing more.
pub open spec fn tells_of(c: LineText, kind: Kind, player: Option<Seq<char>>) -> bool {
    c.kind == kind && c.subject == player && c.killer is None && c.sender is None && c.content is None
        && c.sender_label is None
}

/// That the line is what that player said.
pub open spec fn spoken(c: LineText, player: Seq<char>, content: Seq<char>) -> bool {
    c.kind == Kind::Chat && c.sender == Some(player) && c.content == Some(content) && c.subject is None
        && c.killer is None
}

/// That no announcement takes the line.
pub open spec fn unannounced(plain: Seq<char>) -> bool {
    &&& passes(ANGLE_CHAT@, plain)
    &&& passes(JOIN@, plain)
    &&& passes(WELCOME@, plain)
    &&& passes(TABLIST_JOIN@, plain)
    &&& passes(LEAVE@, plain)
    &&& passes(TABLIST_LEAVE@, plain)
    &&& passes(ADVANCEMENT@, plain)
    &&& nameless(plain) is None
}

/// The text of a line as it is read.
pub open spec fn read_text(line: Seq<char>) -> Seq<char> {
    text::trimmed(without_section(line))
}

proof fn lemma_no_sign_read(line: Seq<char>)
    ensures
        !read_text(line).contains('§'),
{
    let plain = without_section(line);
    lemma_no_section_sign_left(line);
    lemma_part_front(plain, '§');
    lemma_part_back(text::drop_front(plain, text::white_pred()), '§');
}

proof fn lemma_part_front(s: Seq<char>, c: char)
    requires
        !s.contains(c),
    ensures
        !text::drop_front(s, text::white_pred()).contains(c),
    decreases s.len(),
{
    if s.len() > 0 && text::is_white(s[0]) {
        let rest = s.skip(1);
        assert forall|i: int| 0 <= i < rest.len() implies rest[i] != c by {
            assert(s.contains(s[i + 1]));
        }
        lemma_part_front(rest, c);
    }
}

proof fn lemma_part_back(s: Seq<char>, c: char)
    requires
        !s.contains(c),
    ensures
        !text::drop_back(s, text::white_pred()).contains(c),
    decreases s.len(),
{
    if s.len() > 0 && text::is_white(s.last()) {
        let rest = s.drop_last();
        assert forall|i: int| 0 <= i < rest.len() implies rest[i] != c by {
            assert(s.contains(s[i]));
        }
        lemma_part_back(rest, c);
    }
}

/// A line of the server that the pattern of a join, a welcome, a leave or an
/// advancement takes is of that kind, and its subject is the name in the first group
/// of the pattern, cleaned.
pub proof fn lemma_announcements_name_the_player(
    matchers: Seq<deaths::MatcherText>,
    line: Seq<char>,
    g: Seq<char>,
)
    requires
        !spam(read_text(line)),
    ensures
        ({
            let plain = read_text(line);
            let c = classified(matchers, line, false, false, None);
            &&& passes(ANGLE_CHAT@, plain) && takes(JOIN@, plain, 1, g)
                ==> tells_of(c, Kind::Join, cleaned(g, formatted(line) || formatted(g)))
            &&& passes(ANGLE_CHAT@, plain) && passes(JOIN@, plain) && takes(WELCOME@, plain, 1, g)
                ==> tells_of(c, Kind::Join, cleaned(g, formatted(line) || formatted(g)))
            &&& passes(ANGLE_CHAT@, plain) && passes(JOIN@, plain) && passes(WELCOME@, plain) && takes(TABLIST_JOIN@, plain, 1, g)
                ==> tells_of(c, Kind::Join, cleaned(g, formatted(line) || formatted(g)))
            &&& passes(ANGLE_CHAT@, plain) && passes(JOIN@, plain) && passes(WELCOME@, plain) && passes(TABLIST_JOIN@, plain) && takes(LEAVE@, plain, 1, g)
                ==> tells_of(c, Kind::Leave, cleaned(g, formatted(line) || formatted(g)))
            &&& passes(ANGLE_CHAT@, plain) && passes(JOIN@, plain) && passes(WELCOME@, plain) && passes(TABLIST_JOIN@, plain) && passes(LEAVE@, plain) && takes(TABLIST_LEAVE@, plain, 1, g)
                ==> tells_of(c, Kind::Leave, cleaned(g, formatted(line) || formatted(g)))
            &&& passes(ANGLE_CHAT@, plain) && passes(JOIN@, plain) && passes(WELCOME@, plain) && passes(TABLIST_JOIN@, plain) && passes(LEAVE@, plain) && passes(TABLIST_LEAVE@, plain) && nameless(plain) is None && takes(ADVANCEMENT@, plain, 1, g)
                ==> tells_of(c, Kind::Advancement, cleaned(g, formatted(line) || formatted(g)))
        }),
{
}

/// A name that a player can have is the subject of the announcement as it stands.
pub proof fn lemma_names_are_subjects(line: Seq<char>, g: Seq<char>)
    requires
        player_shaped(g),
        !formatted(line) || !only_legacy(name_body(g)),
    ensures
        cleaned(g, formatted(line) || formatted(g)) == Some(g),
{
    lemma_player_names_are_clean(g);
}

/// An announcement that leaves the player out is still one of a join or of a leave,
/// and is about nobody.
pub proof fn lemma_nameless_announcements(matchers: Seq<deaths::MatcherText>, line: Seq<char>)
    requires
        !spam(read_text(line)),
        passes(ANGLE_CHAT@, read_text(line)),
        passes(JOIN@, read_text(line)),
        passes(WELCOME@, read_text(line)),
        passes(TABLIST_JOIN@, read_text(line)),
        passes(LEAVE@, read_text(line)),
        passes(TABLIST_LEAVE@, read_text(line)),
    ensures
        ({
            let c = classified(matchers, line, false, false, None);
            let words = text::lowered(
                text::trimmed(
                    text::drop_back(text::trimmed(read_text(line)), text::either('.', '.')),
                ),
            );
            &&& words == "joined the game"@ || words == "joined the server"@ || words == "joined"@
                ==> tells_of(c, Kind::Join, None)
            &&& words == "left the game"@ || words == "left the server"@ || words == "left"@ || words
                == "disconnected"@ || words == "quit"@ ==> tells_of(c, Kind::Leave, None)
        }),
{
    reveal_strlit("joined the game");
    reveal_strlit("joined the server");
    reveal_strlit("joined");
    reveal_strlit("left the game");
    reveal_strlit("left the server");
    reveal_strlit("left");
    reveal_strlit("disconnected");
    reveal_strlit("quit");
    assert("disconnected"@[0] == 'd' && "quit"@[0] == 'q' && "left"@[0] == 'l' && "joined"@[0] == 'j'
        && "left the game"@[0] == 'l' && "left the server"@[0] == 'l' && "joined the game"@[0] == 'j'
        && "joined the server"@[0] == 'j');
}

/// A line that a chat form of the server takes is what the player in its name group
/// said, and its content is the text in its content group. A form is asked only of
/// the lines that nothing before it takes.
pub proof fn lemma_chat_forms_name_the_speaker(
    matchers: Seq<deaths::MatcherText>,
    line: Seq<char>,
    g: Seq<char>,
    content: Seq<char>,
)
    requires
        !spam(read_text(line)),
        !spam(content),
        player_shaped(g),
        !formatted(line) || !only_legacy(name_body(g)),
        !plugin_speaker(g),
    ensures
        ({
            let plain = read_text(line);
            let c = classified(matchers, line, false, false, None);
            let free = unannounced(plain) && deaths::first_death(matchers, plain, 0) is None;
            &&& takes(ANGLE_CHAT@, plain, 2, g) && takes(ANGLE_CHAT@, plain, 3, content) ==> spoken(
                c,
                g,
                content,
            )
            &&& free && takes(CUTESMP_CHAT@, plain, 1, g) && takes(CUTESMP_CHAT@, plain, 2, g) && takes(
                CUTESMP_CHAT@,
                plain,
                3,
                content,
            ) ==> spoken(c, g, content)
            &&& free && passes(CUTESMP_CHAT@, plain) && takes(TAGGED_CHAT@, plain, 1, g) && takes(
                TAGGED_CHAT@,
                plain,
                2,
                content,
            ) ==> spoken(c, g, content)
            &&& free && passes(CUTESMP_CHAT@, plain) && passes(TAGGED_CHAT@, plain) && takes(
                REMPOLON_CHAT@,
                plain,
                1,
                g,
            ) && takes(REMPOLON_CHAT@, plain, 2, content) ==> spoken(c, g, content)
            &&& free && passes(CUTESMP_CHAT@, plain) && passes(TAGGED_CHAT@, plain) && passes(
                REMPOLON_CHAT@,
                plain,
            ) && takes(PREFIXED_CHAT@, plain, 1, g) && takes(PREFIXED_CHAT@, plain, 2, content)
                ==> spoken(c, g, content)
            &&& free && passes(CUTESMP_CHAT@, plain) && passes(TAGGED_CHAT@, plain) && passes(
                REMPOLON_CHAT@,
                plain,
            ) && passes(PREFIXED_CHAT@, plain) && takes(COLON_CHAT@, plain, 2, g) && takes(
                COLON_CHAT@,
                plain,
                3,
                content,
            ) ==> spoken(c, g, content)
            &&& free && passes(CUTESMP_CHAT@, plain) && passes(TAGGED_CHAT@, plain) && passes(
                REMPOLON_CHAT@,
                plain,
            ) && passes(PREFIXED_CHAT@, plain) && passes(COLON_CHAT@, plain) && takes(
                NAME_TAG_CHAT@,
                plain,
                1,
                g,
            ) && takes(NAME_TAG_CHAT@, plain, 2, content) ==> spoken(c, g, content)
        }),
{
    lemma_player_names_are_clean(g);
    lemma_no_sign_read(line);
}

/// A line that a form of a death takes is the death of its victim, by its killer, and
/// of the forms the first that takes it decides.
pub proof fn lemma_deaths_name_victim_and_killer(
    matchers: Seq<deaths::MatcherText>,
    line: Seq<char>,
    i: int,
    victim: Seq<char>,
)
    requires
        !spam(read_text(line)),
        unannounced(read_text(line)),
        0 <= i < matchers.len(),
        forall|j: int| 0 <= j < i ==> passes(#[trigger] matchers[j].source, read_text(line)),
        takes(matchers[i].source, read_text(line), matchers[i].victim, victim),
        deaths::tidied(victim) == victim,
        player_shaped(victim),
        !formatted(line) || !only_legacy(name_body(victim)),
    ensures
        ({
            let plain = read_text(line);
            let c = classified(matchers, line, false, false, None);
            &&& c.kind == Kind::Death
            &&& c.subject == Some(victim)
            &&& c.sender is None && c.content is None
            &&& matchers[i].killer is None ==> c.killer is None
            &&& forall|killer: Seq<char>|
                matchers[i].killer is Some && killer.len() > 0 && deaths::tidied(killer) == killer
                    && #[trigger] takes(matchers[i].source, plain, matchers[i].killer->0, killer)
                    ==> c.killer == Some(killer)
        }),
{
    let plain = read_text(line);
    lemma_player_names_are_clean(victim);
    deaths::lemma_first_form_decides(matchers, plain, 0, i);
}

/// A line that nothing takes is a line of the server.
pub proof fn lemma_other_lines_are_the_servers(matchers: Seq<deaths::MatcherText>, line: Seq<char>)
    requires
        !spam(read_text(line)),
        unannounced(read_text(line)),
        deaths::first_death(matchers, read_text(line), 0) is None,
        passes(CUTESMP_CHAT@, read_text(line)),
        passes(TAGGED_CHAT@, read_text(line)),
        passes(REMPOLON_CHAT@, read_text(line)),
        passes(PREFIXED_CHAT@, read_text(line)),
        passes(COLON_CHAT@, read_text(line)),
        passes(NAME_TAG_CHAT@, read_text(line)),
        read_text(line).len() > 0,
    ensures
        tells_of(classified(matchers, line, false, false, None), Kind::Server, None),
{
}

/// A notice that is repeated over and over is of no kind, and nobody said it.
pub proof fn lemma_notices_are_nobodys(matchers: Seq<deaths::MatcherText>, line: Seq<char>)
    requires
        spam(read_text(line)),
    ensures
        tells_of(classified(matchers, line, false, false, None), Kind::Unknown, None),
{
}

/// A line that comes with a key of the game is what the key says, whatever its text is;
/// of the others a whisper is a whisper, and what comes as chat of a player is chat.
pub proof fn lemma_keys_decide(
    matchers: Seq<deaths::MatcherText>,
    line: Seq<char>,
    packet: bool,
    rest: Seq<char>,
    other: Option<Seq<char>>,
)
    ensures
        classified(matchers, line, packet, true, other).kind == Kind::Whisper,
        classified(matchers, line, packet, false, Some("death."@ + rest)).kind == Kind::Death,
        classified(matchers, line, packet, false, Some("chat.type.advancement"@ + rest)).kind
            == Kind::Advancement,
        classified(matchers, line, packet, false, Some("multiplayer.player.joined"@)).kind
            == Kind::Join,
        classified(matchers, line, packet, false, Some("multiplayer.player.left"@)).kind
            == Kind::Leave,
        classified(matchers, line, packet, false, Some("chat.type.text"@)).kind == Kind::Chat,
        classified(matchers, line, true, false, None).kind == Kind::Chat,
{
    reveal_strlit("death.");
    reveal_strlit("chat.type.advancement");
    reveal_strlit("multiplayer.player.joined");
    reveal_strlit("multiplayer.player.left");
    reveal_strlit("chat.type.text");
    let d = "death."@ + rest;
    assert(d.take(6) =~= "death."@);
    let a = "chat.type.advancement"@ + rest;
    assert(a.take(21) =~= "chat.type.advancement"@);
    assert(a.take(6)[0] == 'c');
    assert("death."@[0] == 'd');
    assert("multiplayer.player.joined"@.take(6)[0] == 'm');
    assert("multiplayer.player.joined"@.take(21)[0] == 'm');
    assert("multiplayer.player.left"@.take(6)[0] == 'm');
    assert("multiplayer.player.left"@.take(21)[0] == 'm');
    assert("chat.type.text"@.take(6)[0] == 'c');
    assert("chat.type.text"@[0] == 'c');
    assert("multiplayer.player.joined"@.len() == 25);
    assert("multiplayer.player.left"@.len() == 23);
    assert("chat.type.text"@.len() == 14);
}

/// The letters that kinds are stored under.
pub proof fn lemma_kinds_are_stored_by_letter()
    ensures
        kind_code(Kind::Chat)[0] == 'c',
        kind_code(Kind::Whisper)[0] == 'w',
        kind_code(Kind::Join)[0] == 'j',
        kind_code(Kind::Leave)[0] == 'l',
        kind_code(Kind::Death)[0] == 'd',
        kind_code(Kind::Advancement)[0] == 'a',
        kind_code(Kind::Server)[0] == 's',
        kind_code(Kind::Unknown)[0] == 'u',
{
    reveal_strlit("c");
    reveal_strlit("w");
    reveal_strlit("j");
    reveal_strlit("l");
    reveal_strlit("d");
    reveal_strlit("a");
    reveal_strlit("s");
    reveal_strlit("u");
}

/// The time left until a restart is read as minutes and seconds: of the times in the
/// line the first that has either, with what it lacks counted as zero.
pub proof fn lemma_minutes_and_seconds(
    matches: Seq<Seq<Option<Seq<char>>>>,
    i: int,
    mins: Seq<char>,
    secs: Seq<char>,
)
    requires
        0 <= i < matches.len(),
        forall|j: int|
            0 <= j < i ==> group_number(#[trigger] matches[j], 1) is None && group_number(
                matches[j],
                2,
            ) is None,
        text::parsed_u64(mins) is Some,
        text::parsed_u64(secs) is Some,
    ensures
        pattern::group_of(matches[i], 1) == Some(mins) && pattern::group_of(matches[i], 2) == Some(
            secs,
        ) ==> first_duration(matches, 0) == Some(
            60 * text::parsed_u64(mins)->0 + text::parsed_u64(secs)->0,
        ),
        pattern::group_of(matches[i], 1) == Some(mins) && pattern::group_of(matches[i], 2) is None
            ==> first_duration(matches, 0) == Some(60 * text::parsed_u64(mins)->0),
        pattern::group_of(matches[i], 1) is None && pattern::group_of(matches[i], 2) == Some(secs)
            ==> first_duration(matches, 0) == Some(text::parsed_u64(secs)->0),
{
    lemma_first_with_time(matches, 0, i);
}

proof fn lemma_first_with_time(matches: Seq<Seq<Option<Seq<char>>>>, from: int, i: int)
    requires
        0 <= from <= i < matches.len(),
        forall|j: int|
            from <= j < i ==> group_number(#[trigger] matches[j], 1) is None && group_number(
                matches[j],
                2,
            ) is None,
    ensures
        first_duration(matches, from) == first_duration(matches, i),
    decreases i - from,
{
    if from < i {
        assert(group_number(matches[from], 1) is None);
        lemma_first_with_time(matches, from + 1, i);
    }
}

// ---------------------------------------------------------------------------
// Codes, names and labels
// ---------------------------------------------------------------------------

/// A section sign goes with the character behind it, and everything else stays.
pub proof fn lemma_codes_go(c: char, s: Seq<char>)
    ensures
        without_section(seq!['§', c] + s) == without_section(s),
        c != '§' ==> without_section(seq![c] + s) == seq![c] + without_section(s),
        without_section(seq!['§']).len() == 0,
        without_section(Seq::empty()).len() == 0,
{
    assert((seq!['§', c] + s).skip(2) =~= s);
    assert((seq![c] + s).skip(1) =~= s);
}

/// Of a name an ampersand goes with a code behind it, and stays with anything else.
pub proof fn lemma_ampersands_go_with_codes(c: char, s: Seq<char>)
    ensures
        legacy_code(c) ==> without_ampersand_codes(seq!['&', c] + s) == without_ampersand_codes(s),
        !legacy_code(c) ==> without_ampersand_codes(seq!['&', c] + s) == seq!['&', c]
            + without_ampersand_codes(s),
        c != '&' ==> without_ampersand_codes(seq![c] + s) == seq![c] + without_ampersand_codes(s),
        legacy_code('0') && legacy_code('9') && legacy_code('a') && legacy_code('f') && legacy_code('k')
            && legacy_code('o') && legacy_code('r') && legacy_code('x') && legacy_code('A')
            && legacy_code('R'),
        !legacy_code('g') && !legacy_code('z') && !legacy_code('_') && !legacy_code(' '),
{
    assert((seq!['&', c] + s).skip(2) =~= s);
    assert((seq![c] + s).skip(1) =~= s);
}

/// A name is one that a player can have where it is made of the letters of names and is no
/// longer than sixteen, with a full stop before it or without.
pub proof fn lemma_names_that_players_have(name: Seq<char>)
    requires
        forall|i: int| 0 <= i < name.len() ==> text::is_name_char(#[trigger] name[i]),
    ensures
        1 <= name.len() <= 16 ==> player_shaped(name) && player_shaped("."@ + name),
        name.len() > 16 ==> !player_shaped(name) && !player_shaped("."@ + name),
        !player_shaped(Seq::empty()),
{
    reveal_strlit(".");
    let dotted = "."@ + name;
    assert(dotted.take(1) =~= "."@);
    assert(dotted.skip(1) =~= name);
    assert(!text::begins(name, "."@)) by {
        if text::begins(name, "."@) {
            assert(name.take(1)[0] == '.');
            assert(text::is_name_char(name[0]));
        }
    }
    assert(name_body(name) == name);
    assert(name_body(dotted) == name);
}

/// The names under which plugins speak, in either case.
pub proof fn lemma_plugins_that_speak(name: Seq<char>)
    ensures
        plugin_speaker(name) <==> text::lowered(name) == "explainer"@ || text::lowered(name)
            == "debugmenu"@ || text::lowered(name) == "quests"@ || text::lowered(name) == "6b6t"@
            || text::lowered(name) == "sixbsixt"@,
{
}

/// What a plugin says through a chat form is a line of the server, and a notice that a chat
/// form takes is nobody's.
pub proof fn lemma_chat_forms_of_plugins(
    matchers: Seq<deaths::MatcherText>,
    line: Seq<char>,
    g: Seq<char>,
    content: Seq<char>,
)
    requires
        !spam(read_text(line)),
        takes(ANGLE_CHAT@, read_text(line), 2, g),
        takes(ANGLE_CHAT@, read_text(line), 3, content),
    ensures
        spam(content) ==> tells_of(
            classified(matchers, line, false, false, None),
            Kind::Unknown,
            None,
        ),
        !spam(content) && plugin_speaker(g) ==> tells_of(
            classified(matchers, line, false, false, None),
            Kind::Server,
            None,
        ),
{
}

/// The notices that are repeated over and over, in either case and however spaced.
pub proof fn lemma_notices_by_their_words(line: Seq<char>)
    requires
        collapsed(line).len() > 0,
    ensures
        text::has_text(collapsed(line), "remember to /vote"@) ==> spam(line),
        text::has_text(collapsed(line), "/vote to get free rewards"@) ==> spam(line),
        text::has_text(collapsed(line), "daily quests to complete"@) ==> spam(line),
        text::has_text(collapsed(line), "you're protected from attack"@) ==> spam(line),
        text::has_text(collapsed(line), "you are protected from attack"@) ==> spam(line),
        text::has_text(collapsed(line), "[ welcome ]"@) ==> spam(line),
        collapsed(line) == "unknown command."@ ==> spam(line),
        collapsed(line) == "unknown command"@ ==> spam(line),
{
}

/// The label of a line is what stands before its content, without the sign between them.
pub proof fn lemma_labels(label: Seq<char>, content: Seq<char>)
    requires
        label.len() > 0,
        text::trimmed(label) == label,
        !label.contains('»'),
        content.len() > 0,
        text::trimmed(content) == content,
        text::trimmed(label.push('»') + content) == label.push('»') + content,
    ensures
        label_of(label.push('»') + content, content) == Some(label),
{
    reveal_strlit("»");
    assert("»"@ =~= seq!['»']);
    text::lemma_first_one(label, '»', content, "»"@);
}

/// A server that says it restarts now has no time left; one that says it restarts has the
/// time it tells; any other line tells of no restart.
pub proof fn lemma_countdowns(line: Seq<char>)
    ensures
        ({
            let lower = text::unicode_lower(without_section(line));
            &&& !text::has_text(lower, "restart"@) ==> countdown(line) is None
            &&& text::has_text(lower, "restart"@) && (text::has_text(lower, "restarting now"@)
                || text::has_text(lower, "restart now"@)) ==> countdown(line) == Some(0int)
            &&& text::has_text(lower, "restart"@) && !text::has_text(lower, "restarting now"@)
                && !text::has_text(lower, "restart now"@) ==> countdown(line) == first_duration(
                line_durations(line),
                0,
            )
        }),
{
}

/// A classification is read field by field.
pub proof fn lemma_classifications_are_read_by_field(c: Classification)
    ensures
        c@.kind == c.kind,
        c.subject is Some ==> c@.subject == Some(c.subject->0@),
        c.subject is None ==> c@.subject is None,
        c.killer is Some ==> c@.killer == Some(c.killer->0@),
        c.killer is None ==> c@.killer is None,
        c.sender is Some ==> c@.sender == Some(c.sender->0@),
        c.sender is None ==> c@.sender is None,
        c.content is Some ==> c@.content == Some(c.content->0@),
        c.content is None ==> c@.content is None,
        c.sender_label is Some ==> c@.sender_label == Some(c.sender_label->0@),
        c.sender_label is None ==> c@.sender_label is None,
{
}

} // verus!
