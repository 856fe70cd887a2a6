//! Regular expressions, compiled once and applied to lines of text.
use vstd::prelude::*;
use vstd::string::*;

use crate::text;

verus! {

/// A compiled regular expression of the `regex` crate.
#[verifier::external_type_specification]
#[verifier::external_body]
pub struct ExRegex(regex::Regex);

/// Why a pattern did not compile.
#[verifier::external_type_specification]
#[verifier::external_body]
pub struct ExRegexError(regex::Error);

/// The pattern a regular expression was compiled from by `Regex::new`, without
/// any option of a builder; `None` for one that was made in another way.
pub uninterp spec fn compiled_from(re: regex::Regex) -> Option<Seq<char>>;

/// Whether `Regex::new` accepts the pattern.
pub uninterp spec fn regex_accepts(pattern: Seq<char>) -> bool;

/// What `Regex::captures` finds in a text: the text before the leftmost match,
/// the capture groups (the whole match first), and the text after the match.
pub uninterp spec fn regex_captures(
    pattern: Seq<char>,
    text: Seq<char>,
) -> Option<(Seq<char>, Seq<Option<Seq<char>>>, Seq<char>)>;

/// The capture groups of each of the successive matches that
/// `Regex::captures_iter` yields.
pub uninterp spec fn regex_captures_iter(
    pattern: Seq<char>,
    text: Seq<char>,
) -> Seq<Seq<Option<Seq<char>>>>;

/// What `Regex::replace_all` makes of a text, with a replacement in which no
/// group reference is expanded.
pub uninterp spec fn regex_replace_all(
    pattern: Seq<char>,
    text: Seq<char>,
    by: Seq<char>,
) -> Seq<char>;

/// The texts of a list of capture groups.
pub open spec fn group_texts(groups: Seq<Option<String>>) -> Seq<Option<Seq<char>>> {
    Seq::new(groups.len(), |i: int| text::opt_text(groups[i]))
}

/// The texts of the capture groups of several matches.
pub open spec fn all_group_texts(matches: Seq<Vec<Option<String>>>) -> Seq<
    Seq<Option<Seq<char>>>,
> {
    Seq::new(matches.len(), |i: int| group_texts(matches[i]@))
}

/// `Regex::new`: a pattern it accepts gives an expression compiled from it.
#[verifier::external_body]
fn compile(pattern: &str) -> (r: Result<regex::Regex, regex::Error>)
    ensures
        match r {
            Ok(re) => regex_accepts(pattern@) && compiled_from(re) == Some(pattern@),
            Err(_) => !regex_accepts(pattern@),
        },
{
    regex::Regex::new(pattern)
}

/// `Regex::captures`: the result is a function of the pattern and the text. The
/// parts put together are the text, and the group with number zero is the whole
/// match.
#[verifier::external_body]
fn captures(re: &regex::Regex, text: &str) -> (r: Option<(String, Vec<Option<String>>, String)>)
    requires
        compiled_from(*re) is Some,
    ensures
        (match r {
            Some((before, groups, after)) => Some((before@, group_texts(groups@), after@)),
            None => None,
        }) == regex_captures(compiled_from(*re)->0, text@),
        r matches Some((before, groups, after)) ==> groups.len() > 0 && groups[0] is Some
            && before@ + groups[0]->0@ + after@ == text@,
{
    let found = re.captures(text)?;
    let whole = found.get(0)?;
    let groups = found.iter().map(|group| group.map(|m| m.as_str().to_owned())).collect();
    Some((text[..whole.start()].to_owned(), groups, text[whole.end()..].to_owned()))
}

/// `Regex::captures_iter`: the capture groups of every match, as a function of
/// the pattern and the text. Each match has its group with number zero.
#[verifier::external_body]
fn captures_iter(re: &regex::Regex, text: &str) -> (r: Vec<Vec<Option<String>>>)
    requires
        compiled_from(*re) is Some,
    ensures
        all_group_texts(r@) == regex_captures_iter(compiled_from(*re)->0, text@),
        forall|i: int| 0 <= i < r.len() ==> #[trigger] r[i].len() > 0,
{
    re.captures_iter(text)
        .map(|found| found.iter().map(|group| group.map(|m| m.as_str().to_owned())).collect())
        .collect()
}

/// `Regex::replace_all` with `regex::NoExpand`: every match is replaced by the
/// text as it stands.
#[verifier::external_body]
fn replace_all(re: &regex::Regex, text: &str, by: &str) -> (r: String)
    requires
        compiled_from(*re) is Some,
    ensures
        r@ == regex_replace_all(compiled_from(*re)->0, text@, by@),
{
    re.replace_all(text, regex::NoExpand(by)).into_owned()
}

/// The characters that mean something in a regular expression.
pub open spec fn is_meta(c: char) -> bool {
    ||| c == '\\'
    ||| c == '.'
    ||| c == '+'
    ||| c == '*'
    ||| c == '?'
    ||| c == '('
    ||| c == ')'
    ||| c == '|'
    ||| c == '['
    ||| c == ']'
    ||| c == '{'
    ||| c == '}'
    ||| c == '^'
    ||| c == '$'
    ||| c == '#'
    ||| c == '&'
    ||| c == '-'
    ||| c == '~'
}

/// The text with a backslash before each character that means something in a
/// regular expression.
pub open spec fn escaped(s: Seq<char>) -> Seq<char>
    decreases s.len(),
{
    if s.len() == 0 {
        Seq::empty()
    } else if is_meta(s.last()) {
        escaped(s.drop_last()).push('\\').push(s.last())
    } else {
        escaped(s.drop_last()).push(s.last())
    }
}

fn meta(c: char) -> (b: bool)
    ensures
        b == is_meta(c),
{
    matches!(
        c,
        '\\' | '.' | '+' | '*' | '?' | '(' | ')' | '|' | '[' | ']' | '{' | '}' | '^' | '$' | '#'
            | '&' | '-' | '~'
    )
}

/// Puts a backslash before each character that means something in a regular
/// expression.
pub fn escape(s: &str) -> (r: String)
    ensures
        r@ == escaped(s@),
{
    let v = text::chars_of(s);
    let mut r = String::new();
    for i in 0..v.len()
        invariant
            v@ == s@,
            r@ == escaped(s@.take(i as int)),
    {
        assert(s@.take(i + 1).drop_last() =~= s@.take(i as int));
        if meta(v[i]) {
            r.push('\\');
        }
        r.push(v[i]);
    }
    assert(s@.take(s@.len() as int) =~= s@);
    r
}

/// One of the capture groups of a match, where it took part in the match.
pub open spec fn group_of(groups: Seq<Option<Seq<char>>>, i: int) -> Option<Seq<char>> {
    if 0 <= i < groups.len() {
        groups[i]
    } else {
        None
    }
}

/// What a pattern found in a text.
pub struct Found {
    /// The text before the match.
    pub before: String,
    /// The capture groups, the whole match first.
    pub groups: Vec<Option<String>>,
    /// The text after the match.
    pub after: String,
}

/// The contents of a [`Found`].
pub struct FoundText {
    pub before: Seq<char>,
    pub groups: Seq<Option<Seq<char>>>,
    pub after: Seq<char>,
}

impl View for Found {
    type V = FoundText;

    open spec fn view(&self) -> FoundText {
        FoundText {
            before: self.before@,
            groups: group_texts(self.groups@),
            after: self.after@,
        }
    }
}

impl Found {
    /// The group with number `i`, where it took part in the match.
    pub fn group(&self, i: usize) -> (r: Option<String>)
        ensures
            text::opt_text(r) == group_of(self@.groups, i as int),
    {
        group(&self.groups, i)
    }

    /// The group with number `i`, or the empty text.
    pub fn group_or_empty(&self, i: usize) -> (r: String)
        ensures
            r@ == text::text_or_empty(group_of(self@.groups, i as int)),
    {
        match self.group(i) {
            Some(s) => s,
            None => String::new(),
        }
    }
}

/// The group with number `i`, where it took part in the match.
pub fn group(groups: &Vec<Option<String>>, i: usize) -> (r: Option<String>)
    ensures
        text::opt_text(r) == group_of(group_texts(groups@), i as int),
{
    if i < groups.len() {
        text::copy_opt(&groups[i])
    } else {
        None
    }
}

/// What the pattern finds in the text.
pub open spec fn found_in(pattern: Seq<char>, text: Seq<char>) -> Option<FoundText> {
    match regex_captures(pattern, text) {
        Some((before, groups, after)) => Some(FoundText { before, groups, after }),
        None => None,
    }
}

pub open spec fn opt_found(o: Option<Found>) -> Option<FoundText> {
    match o {
        Some(f) => Some(f@),
        None => None,
    }
}

/// A regular expression that compiled.
pub struct Pattern {
    re: regex::Regex,
}

impl Pattern {
    #[verifier::type_invariant]
    spec fn inv(self) -> bool {
        compiled_from(self.re) is Some
    }

    /// The pattern it was compiled from.
    pub closed spec fn source(self) -> Seq<char> {
        compiled_from(self.re)->0
    }

    /// Compiles the pattern, where it is one.
    pub fn new(pattern: &str) -> (r: Option<Pattern>)
        ensures
            r is Some == regex_accepts(pattern@),
            r matches Some(p) ==> p.source() == pattern@,
    {
        match compile(pattern) {
            Ok(re) => Some(Pattern { re }),
            Err(_) => None,
        }
    }

    /// The leftmost match in the text.
    pub fn find(&self, text: &str) -> (r: Option<Found>)
        ensures
            opt_found(r) == found_in(self.source(), text@),
            r matches Some(f) ==> f.groups.len() > 0 && f.groups[0] is Some && f.before@
                + f.groups[0]->0@ + f.after@ == text@,
    {
        proof {
            use_type_invariant(self);
        }
        match captures(&self.re, text) {
            Some((before, groups, after)) => Some(Found { before, groups, after }),
            None => None,
        }
    }

    /// The capture groups of every match in the text.
    pub fn find_all(&self, text: &str) -> (r: Vec<Vec<Option<String>>>)
        ensures
            all_group_texts(r@) == regex_captures_iter(self.source(), text@),
    {
        proof {
            use_type_invariant(self);
        }
        captures_iter(&self.re, text)
    }

    /// The text with every match replaced by `by`.
    pub fn replace_all(&self, text: &str, by: &str) -> (r: String)
        ensures
            r@ == regex_replace_all(self.source(), text@, by@),
    {
        proof {
            use_type_invariant(self);
        }
        replace_all(&self.re, text, by)
    }
}

/// A text is found as it stands: the characters that mean something in a pattern get a
/// backslash before them, and no other does.
pub proof fn lemma_escaped_in_turn(s: Seq<char>, c: char)
    ensures
        escaped(Seq::empty()).len() == 0,
        is_meta(c) ==> escaped(s.push(c)) == escaped(s).push('\\').push(c),
        !is_meta(c) ==> escaped(s.push(c)) == escaped(s).push(c),
        is_meta('.') && is_meta('*') && is_meta('(') && is_meta(')') && is_meta('[') && is_meta(']')
            && is_meta('$') && is_meta('\\') && is_meta('+') && is_meta('?') && is_meta('|') && is_meta(
            '^',
        ) && is_meta('{') && is_meta('}'),
        text::is_name_char(c) ==> !is_meta(c),
{
    assert(s.push(c).drop_last() =~= s);
}

/// The groups of a match are read by their number, and one that is not there is none.
pub proof fn lemma_groups(groups: Seq<Option<Seq<char>>>, i: int)
    ensures
        0 <= i < groups.len() ==> group_of(groups, i) == groups[i],
        i < 0 || i >= groups.len() ==> group_of(groups, i) is None,
{
}

} // verus!
