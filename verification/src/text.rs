//! Text as a sequence of characters.
//!
//! The rules of this crate read and write short lines of text. Their contracts
//! speak of `Seq<char>`; the functions here are the executable counterparts of
//! the sequence functions they are stated with.
use vstd::prelude::*;
use vstd::string::*;

verus! {

/// `String::push` appends one character.
pub assume_specification[ String::push ](s: &mut String, c: char)
    ensures
        final(s)@ == old(s)@.push(c),
;

// ---------------------------------------------------------------------------
// Models
// ---------------------------------------------------------------------------

/// The texts of a list of strings.
pub open spec fn texts(v: Seq<String>) -> Seq<Seq<char>> {
    Seq::new(v.len(), |i: int| v[i]@)
}

/// The text of an optional string.
pub open spec fn opt_text(o: Option<String>) -> Option<Seq<char>> {
    match o {
        Some(s) => Some(s@),
        None => None,
    }
}

/// The text of an optional string slice.
pub open spec fn opt_str(o: Option<&str>) -> Option<Seq<char>> {
    match o {
        Some(s) => Some(s@),
        None => None,
    }
}

/// The text, or the empty text where there is none.
pub open spec fn text_or_empty(o: Option<Seq<char>>) -> Seq<char> {
    match o {
        Some(s) => s,
        None => Seq::empty(),
    }
}

// ---------------------------------------------------------------------------
// Characters
// ---------------------------------------------------------------------------

/// The characters with Unicode's White_Space property.
pub open spec fn is_white(c: char) -> bool {
    ||| '\u{9}' <= c <= '\u{d}'
    ||| c == ' '
    ||| c == '\u{85}'
    ||| c == '\u{a0}'
    ||| c == '\u{1680}'
    ||| '\u{2000}' <= c <= '\u{200a}'
    ||| c == '\u{2028}'
    ||| c == '\u{2029}'
    ||| c == '\u{202f}'
    ||| c == '\u{205f}'
    ||| c == '\u{3000}'
}

/// The characters of Unicode's general category Cc.
pub open spec fn is_control(c: char) -> bool {
    c <= '\u{1f}' || '\u{7f}' <= c <= '\u{9f}'
}

pub open spec fn is_digit(c: char) -> bool {
    '0' <= c <= '9'
}

pub open spec fn is_ascii_letter(c: char) -> bool {
    'a' <= c <= 'z' || 'A' <= c <= 'Z'
}

/// A character a Minecraft name is made of.
pub open spec fn is_name_char(c: char) -> bool {
    is_digit(c) || is_ascii_letter(c) || c == '_'
}

/// ASCII lower case of one character; every other character is its own.
pub open spec fn lower_char(c: char) -> char {
    if 'A' <= c <= 'Z' {
        (c as u32 + 32) as char
    } else {
        c
    }
}

/// ASCII upper case of one character; every other character is its own.
pub open spec fn upper_char(c: char) -> char {
    if 'a' <= c <= 'z' {
        (c as u32 - 32) as char
    } else {
        c
    }
}

pub fn white(c: char) -> (b: bool)
    ensures
        b == is_white(c),
{
    matches!(
        c,
        '\u{9}'..='\u{d}' | ' ' | '\u{85}' | '\u{a0}' | '\u{1680}' | '\u{2000}'..='\u{200a}'
            | '\u{2028}' | '\u{2029}' | '\u{202f}' | '\u{205f}' | '\u{3000}'
    )
}

pub fn control(c: char) -> (b: bool)
    ensures
        b == is_control(c),
{
    c <= '\u{1f}' || ('\u{7f}' <= c && c <= '\u{9f}')
}

pub fn digit(c: char) -> (b: bool)
    ensures
        b == is_digit(c),
{
    '0' <= c && c <= '9'
}

pub fn ascii_letter(c: char) -> (b: bool)
    ensures
        b == is_ascii_letter(c),
{
    ('a' <= c && c <= 'z') || ('A' <= c && c <= 'Z')
}

pub fn name_char(c: char) -> (b: bool)
    ensures
        b == is_name_char(c),
{
    digit(c) || ascii_letter(c) || c == '_'
}

pub fn to_lower_char(c: char) -> (r: char)
    ensures
        r == lower_char(c),
{
    if 'A' <= c && c <= 'Z' {
        ((c as u8) + 32) as char
    } else {
        c
    }
}

// ---------------------------------------------------------------------------
// Characters of a string, and back
// ---------------------------------------------------------------------------

/// The characters of a string, in order.
pub fn chars_of(s: &str) -> (v: Vec<char>)
    ensures
        v@ == s@,
{
    let mut v: Vec<char> = Vec::new();
    for c in it: s.chars()
        invariant
            v@ == s@.take(it.index() as int),
            it.seq() == s@,
    {
        v.push(c);
    }
    assert(s@.take(s@.len() as int) == s@);
    v
}

/// The string made of `v[from..to]`.
pub fn string_of(v: &Vec<char>, from: usize, to: usize) -> (s: String)
    requires
        from <= to <= v.len(),
    ensures
        s@ == v@.subrange(from as int, to as int),
{
    let mut s = String::new();
    for i in from..to
        invariant
            from <= to <= v.len(),
            s@ == v@.subrange(from as int, i as int),
    {
        s.push(v[i]);
    }
    s
}

/// A copy of the text.
pub fn copy(s: &str) -> (r: String)
    ensures
        r@ == s@,
{
    s.to_owned()
}

/// A copy of an optional text.
pub fn copy_opt(s: &Option<String>) -> (r: Option<String>)
    ensures
        opt_text(r) == opt_text(*s),
{
    match s {
        Some(t) => Some(t.clone()),
        None => None,
    }
}

/// Whether two texts are the same.
pub fn same(a: &str, b: &str) -> (r: bool)
    ensures
        r == (a@ == b@),
{
    if a.len() != b.len() {
        return false;
    }
    let x = chars_of(a);
    let y = chars_of(b);
    if x.len() != y.len() {
        return false;
    }
    for i in 0..x.len()
        invariant
            x@ == a@,
            y@ == b@,
            x.len() == y.len(),
            forall|j: int| 0 <= j < i ==> x[j] == y[j],
    {
        if x[i] != y[i] {
            assert(a@[i as int] != b@[i as int]);
            return false;
        }
    }
    assert(a@ =~= b@);
    true
}

/// Whether two optional texts are the same.
pub fn same_opt(a: &Option<String>, b: &Option<String>) -> (r: bool)
    ensures
        r == (opt_text(*a) == opt_text(*b)),
{
    match (a, b) {
        (Some(x), Some(y)) => same(x, y),
        (None, None) => true,
        _ => false,
    }
}

// ---------------------------------------------------------------------------
// Concatenation
// ---------------------------------------------------------------------------

pub fn cat2(a: &str, b: &str) -> (s: String)
    ensures
        s@ == a@ + b@,
{
    let mut s = a.to_owned();
    s.append(b);
    s
}

pub fn cat3(a: &str, b: &str, c: &str) -> (s: String)
    ensures
        s@ == a@ + b@ + c@,
{
    let mut s = a.to_owned();
    s.append(b);
    s.append(c);
    s
}

pub fn cat4(a: &str, b: &str, c: &str, d: &str) -> (s: String)
    ensures
        s@ == a@ + b@ + c@ + d@,
{
    let mut s = cat3(a, b, c);
    s.append(d);
    s
}

pub fn cat5(a: &str, b: &str, c: &str, d: &str, e: &str) -> (s: String)
    ensures
        s@ == a@ + b@ + c@ + d@ + e@,
{
    let mut s = cat4(a, b, c, d);
    s.append(e);
    s
}

pub fn cat6(a: &str, b: &str, c: &str, d: &str, e: &str, f: &str) -> (s: String)
    ensures
        s@ == a@ + b@ + c@ + d@ + e@ + f@,
{
    let mut s = cat5(a, b, c, d, e);
    s.append(f);
    s
}

/// The parts with `sep` between each two.
pub open spec fn join_text(parts: Seq<Seq<char>>, sep: Seq<char>) -> Seq<char>
    decreases parts.len(),
{
    if parts.len() == 0 {
        Seq::empty()
    } else if parts.len() == 1 {
        parts[0]
    } else {
        join_text(parts.drop_last(), sep) + sep + parts.last()
    }
}

/// The parts with `sep` between each two.
pub fn join(parts: &Vec<String>, sep: &str) -> (s: String)
    ensures
        s@ == join_text(texts(parts@), sep@),
{
    let mut s = String::new();
    for i in 0..parts.len()
        invariant
            s@ == join_text(texts(parts@).take(i as int), sep@),
    {
        proof {
            let now = texts(parts@).take(i + 1);
            assert(now.drop_last() =~= texts(parts@).take(i as int));
            assert(now.last() == parts[i as int]@);
            if i == 0 {
                assert(now[0] == parts[0]@);
                assert(texts(parts@).take(0).len() == 0);
                assert(Seq::<char>::empty() + parts[0]@ =~= parts[0]@);
            }
        }
        if i > 0 {
            s.append(sep);
        }
        s.append(&parts[i]);
    }
    assert(texts(parts@).take(parts.len() as int) =~= texts(parts@));
    s
}

// ---------------------------------------------------------------------------
// Trimming
// ---------------------------------------------------------------------------

/// The text without the leading characters that satisfy `p`.
pub open spec fn drop_front(s: Seq<char>, p: spec_fn(char) -> bool) -> Seq<char>
    decreases s.len(),
{
    if s.len() > 0 && p(s[0]) {
        drop_front(s.skip(1), p)
    } else {
        s
    }
}

/// The text without the trailing characters that satisfy `p`.
pub open spec fn drop_back(s: Seq<char>, p: spec_fn(char) -> bool) -> Seq<char>
    decreases s.len(),
{
    if s.len() > 0 && p(s.last()) {
        drop_back(s.drop_last(), p)
    } else {
        s
    }
}

pub open spec fn white_pred() -> spec_fn(char) -> bool {
    |c: char| is_white(c)
}

/// The text without white space at its ends.
pub open spec fn trimmed(s: Seq<char>) -> Seq<char> {
    drop_back(drop_front(s, white_pred()), white_pred())
}

pub open spec fn trimmed_end(s: Seq<char>) -> Seq<char> {
    drop_back(s, white_pred())
}

/// The index of the first character of `v[from..to]` that is not white space.
fn front_of(v: &Vec<char>, to: usize) -> (i: usize)
    requires
        to <= v.len(),
    ensures
        i <= to,
        drop_front(v@.subrange(0, to as int), white_pred()) == v@.subrange(i as int, to as int),
{
    let mut i: usize = 0;
    while i < to && white(v[i])
        invariant
            i <= to <= v.len(),
            drop_front(v@.subrange(0, to as int), white_pred()) == drop_front(
                v@.subrange(i as int, to as int),
                white_pred(),
            ),
        decreases to - i,
    {
        assert(v@.subrange(i as int, to as int).skip(1) =~= v@.subrange(i + 1, to as int));
        i += 1;
    }
    i
}

/// The end of `v[from..to]` without trailing white space.
fn back_of(v: &Vec<char>, from: usize, to: usize) -> (j: usize)
    requires
        from <= to <= v.len(),
    ensures
        from <= j <= to,
        drop_back(v@.subrange(from as int, to as int), white_pred()) == v@.subrange(
            from as int,
            j as int,
        ),
{
    let mut j: usize = to;
    while j > from && white(v[j - 1])
        invariant
            from <= j <= to <= v.len(),
            drop_back(v@.subrange(from as int, to as int), white_pred()) == drop_back(
                v@.subrange(from as int, j as int),
                white_pred(),
            ),
        decreases j,
    {
        assert(v@.subrange(from as int, j as int).drop_last() =~= v@.subrange(
            from as int,
            j - 1,
        ));
        j -= 1;
    }
    j
}

/// The text without white space at its ends, as `str::trim` gives it.
pub fn trim(s: &str) -> (r: String)
    ensures
        r@ == trimmed(s@),
{
    let v = chars_of(s);
    let n: usize = v.len();
    assert(v@.subrange(0, n as int) =~= s@);
    let i: usize = front_of(&v, n);
    let j: usize = back_of(&v, i, n);
    string_of(&v, i, j)
}

pub fn trim_end(s: &str) -> (r: String)
    ensures
        r@ == trimmed_end(s@),
{
    let v = chars_of(s);
    let n: usize = v.len();
    assert(v@.subrange(0, n as int) =~= s@);
    let j: usize = back_of(&v, 0, n);
    string_of(&v, 0, j)
}

pub open spec fn either(a: char, b: char) -> spec_fn(char) -> bool {
    |c: char| c == a || c == b
}

/// The text without the trailing characters that are `a` or `b`.
pub fn trim_end_chars(s: &str, a: char, b: char) -> (r: String)
    ensures
        r@ == drop_back(s@, either(a, b)),
{
    let v = chars_of(s);
    let mut j: usize = v.len();
    assert(v@.subrange(0, j as int) =~= s@);
    while j > 0 && (v[j - 1] == a || v[j - 1] == b)
        invariant
            j <= v.len(),
            drop_back(s@, either(a, b)) == drop_back(v@.subrange(0, j as int), either(a, b)),
        decreases j,
    {
        assert(v@.subrange(0, j as int).drop_last() =~= v@.subrange(0, j - 1));
        j -= 1;
    }
    string_of(&v, 0, j)
}

// ---------------------------------------------------------------------------
// Case
// ---------------------------------------------------------------------------

pub open spec fn lowered(s: Seq<char>) -> Seq<char> {
    Seq::new(s.len(), |i: int| lower_char(s[i]))
}

pub open spec fn uppered(s: Seq<char>) -> Seq<char> {
    Seq::new(s.len(), |i: int| upper_char(s[i]))
}

/// The case of ASCII letters is lost in lower case.
pub proof fn lemma_case_is_lost(s: Seq<char>)
    ensures
        lowered(uppered(s)) == lowered(s),
        lowered(lowered(s)) == lowered(s),
{
    assert(lowered(uppered(s)) =~= lowered(s));
    assert(lowered(lowered(s)) =~= lowered(s));
}

/// The text with its ASCII letters in lower case, as `str::to_ascii_lowercase`
/// gives it.
pub fn lower(s: &str) -> (r: String)
    ensures
        r@ == lowered(s@),
{
    let v = chars_of(s);
    let mut r = String::new();
    for i in 0..v.len()
        invariant
            v@ == s@,
            r@ == lowered(s@).take(i as int),
    {
        r.push(to_lower_char(v[i]));
        assert(lowered(s@).take(i + 1) =~= lowered(s@).take(i as int).push(
            lower_char(s@[i as int]),
        ));
    }
    assert(lowered(s@).take(s@.len() as int) =~= lowered(s@));
    r
}

/// Whether two texts are the same but for the case of ASCII letters.
pub fn same_ignoring_case(a: &str, b: &str) -> (r: bool)
    ensures
        r == (lowered(a@) == lowered(b@)),
{
    same(&lower(a), &lower(b))
}

/// What `str::to_lowercase` makes of a text, under Unicode's mapping.
pub uninterp spec fn unicode_lower(s: Seq<char>) -> Seq<char>;

/// What `str::to_uppercase` makes of a text, under Unicode's mapping.
pub uninterp spec fn unicode_upper(s: Seq<char>) -> Seq<char>;

/// `str::to_lowercase`. Only its dependence on the text alone is claimed, and
/// that an ASCII text comes out with its letters in ASCII lower case.
#[verifier::external_body]
pub(crate) fn to_lowercase(s: &str) -> (r: String)
    ensures
        r@ == unicode_lower(s@),
        is_ascii(s) ==> r@ == lowered(s@),
{
    s.to_lowercase()
}

/// `str::to_uppercase`. Only its dependence on the text alone is claimed, and
/// that an ASCII text comes out with its letters in ASCII upper case.
#[verifier::external_body]
pub(crate) fn to_uppercase(s: &str) -> (r: String)
    ensures
        r@ == unicode_upper(s@),
        is_ascii(s) ==> r@ == uppered(s@),
{
    s.to_uppercase()
}

// ---------------------------------------------------------------------------
// Searching
// ---------------------------------------------------------------------------

pub open spec fn begins(s: Seq<char>, p: Seq<char>) -> bool {
    p.len() <= s.len() && s.take(p.len() as int) == p
}

pub open spec fn ends(s: Seq<char>, p: Seq<char>) -> bool {
    p.len() <= s.len() && s.skip(s.len() - p.len()) == p
}

/// The first position at which `p` stands in `s`.
pub open spec fn find_text(s: Seq<char>, p: Seq<char>) -> Option<int>
    decreases s.len(),
{
    if begins(s, p) {
        Some(0)
    } else if s.len() == 0 {
        None
    } else {
        match find_text(s.skip(1), p) {
            Some(k) => Some(k + 1),
            None => None,
        }
    }
}

/// The last position at which `p` stands in `s`.
pub open spec fn rfind_text(s: Seq<char>, p: Seq<char>) -> Option<int>
    decreases s.len(),
{
    if ends(s, p) {
        Some(s.len() - p.len())
    } else if s.len() == 0 {
        None
    } else {
        rfind_text(s.drop_last(), p)
    }
}

pub open spec fn has_text(s: Seq<char>, p: Seq<char>) -> bool {
    find_text(s, p) is Some
}

/// Where a text is found it stands there.
pub proof fn lemma_find_text(s: Seq<char>, p: Seq<char>)
    ensures
        find_text(s, p) matches Some(k) ==> 0 <= k && k + p.len() <= s.len() && s.subrange(
            k,
            k + p.len(),
        ) == p,
    decreases s.len(),
{
    if begins(s, p) {
        assert(s.subrange(0, p.len() as int) =~= s.take(p.len() as int));
    } else if s.len() > 0 {
        lemma_find_text(s.skip(1), p);
        match find_text(s.skip(1), p) {
            Some(k) => {
                assert(s.skip(1).subrange(k, k + p.len()) =~= s.subrange(k + 1, k + 1 + p.len()));
            },
            None => {},
        }
    }
}

pub proof fn lemma_rfind_text(s: Seq<char>, p: Seq<char>)
    ensures
        rfind_text(s, p) matches Some(k) ==> 0 <= k && k + p.len() <= s.len() && s.subrange(
            k,
            k + p.len(),
        ) == p,
    decreases s.len(),
{
    if ends(s, p) {
        assert(s.subrange(s.len() - p.len(), s.len() as int) =~= s.skip(s.len() - p.len()));
    } else if s.len() > 0 {
        lemma_rfind_text(s.drop_last(), p);
        match rfind_text(s.drop_last(), p) {
            Some(k) => {
                assert(s.drop_last().subrange(k, k + p.len()) =~= s.subrange(k, k + p.len()));
            },
            None => {},
        }
    }
}

/// A text that stands anywhere is found.
pub proof fn lemma_has_text(s: Seq<char>, p: Seq<char>, at: int)
    requires
        0 <= at,
        at + p.len() <= s.len(),
        s.subrange(at, at + p.len()) == p,
    ensures
        has_text(s, p),
    decreases at,
{
    if at == 0 {
        assert(s.take(p.len() as int) =~= s.subrange(0, p.len() as int));
    } else if !begins(s, p) {
        assert(s.skip(1).subrange(at - 1, at - 1 + p.len()) =~= s.subrange(at, at + p.len()));
        lemma_has_text(s.skip(1), p, at - 1);
    }
}

/// Whether `p` stands in `v` at `at`.
fn stands_at(v: &Vec<char>, p: &Vec<char>, at: usize) -> (b: bool)
    requires
        at <= v.len(),
    ensures
        b == begins(v@.skip(at as int), p@),
{
    if p.len() > v.len() - at {
        return false;
    }
    for i in 0..p.len()
        invariant
            at + p.len() <= v.len(),
            forall|j: int| 0 <= j < i ==> v[at + j] == p[j],
    {
        if v[at + i] != p[i] {
            assert(v@.skip(at as int).take(p.len() as int)[i as int] != p@[i as int]);
            return false;
        }
    }
    assert(v@.skip(at as int).take(p.len() as int) =~= p@);
    true
}

/// The first position at which `p` stands in `v`.
pub fn find_in(v: &Vec<char>, p: &Vec<char>) -> (r: Option<usize>)
    ensures
        r matches Some(k) ==> find_text(v@, p@) == Some(k as int) && k + p.len() <= v.len(),
        r is None ==> find_text(v@, p@) is None,
{
    let mut i: usize = 0;
    assert(v@.skip(0) =~= v@);
    while i < v.len()
        invariant
            i <= v.len(),
            find_text(v@, p@) == (match find_text(v@.skip(i as int), p@) {
                Some(k) => Some(k + i),
                None => None,
            }),
        decreases v.len() - i,
    {
        if stands_at(v, p, i) {
            return Some(i);
        }
        assert(v@.skip(i as int).skip(1) =~= v@.skip(i + 1));
        i += 1;
    }
    if stands_at(v, p, i) {
        Some(i)
    } else {
        None
    }
}

/// The last position at which `p` stands in `v`.
pub fn rfind_in(v: &Vec<char>, p: &Vec<char>) -> (r: Option<usize>)
    ensures
        r matches Some(k) ==> rfind_text(v@, p@) == Some(k as int) && k + p.len() <= v.len(),
        r is None ==> rfind_text(v@, p@) is None,
{
    let mut n: usize = v.len();
    assert(v@.take(n as int) =~= v@);
    loop
        invariant
            n <= v.len(),
            rfind_text(v@, p@) == rfind_text(v@.take(n as int), p@),
        decreases n,
    {
        let ghost cur = v@.take(n as int);
        if p.len() <= n {
            let at: usize = n - p.len();
            let mut k: usize = 0;
            let mut ok = true;
            while k < p.len() && ok
                invariant
                    k <= p.len(),
                    p.len() <= n <= v.len(),
                    at == n - p.len(),
                    ok ==> forall|j: int| 0 <= j < k ==> v[at + j] == p[j],
                    !ok ==> exists|j: int| 0 <= j < p.len() && v@[at + j] != #[trigger] p@[j],
                decreases p.len() - k, (if ok { 1int } else { 0int }),
            {
                if v[at + k] != p[k] {
                    assert(v@[at + k] != p@[k as int]);
                    ok = false;
                } else {
                    k += 1;
                }
            }
            if ok {
                assert(cur.skip(at as int) =~= p@);
                return Some(at);
            }
            proof {
                let j = choose|j: int| 0 <= j < p.len() && v@[at + j] != #[trigger] p@[j];
                assert(cur.skip(at as int)[j] != p@[j]);
            }
        }
        if n == 0 {
            return None;
        }
        assert(cur.drop_last() =~= v@.take(n - 1));
        n -= 1;
    }
}

/// Whether `p` stands somewhere in `s`.
pub fn has(s: &str, p: &str) -> (b: bool)
    ensures
        b == has_text(s@, p@),
{
    find_in(&chars_of(s), &chars_of(p)).is_some()
}

/// Whether the character stands in the text.
pub fn has_char(s: &str, c: char) -> (b: bool)
    ensures
        b == s@.contains(c),
{
    let v = chars_of(s);
    for i in 0..v.len()
        invariant
            v@ == s@,
            forall|j: int| 0 <= j < i ==> v[j] != c,
    {
        if v[i] == c {
            assert(s@[i as int] == c);
            return true;
        }
    }
    false
}

pub fn starts_with(s: &str, p: &str) -> (b: bool)
    ensures
        b == begins(s@, p@),
{
    let v = chars_of(s);
    assert(v@.skip(0) =~= s@);
    stands_at(&v, &chars_of(p), 0)
}

pub fn ends_with(s: &str, p: &str) -> (b: bool)
    ensures
        b == ends(s@, p@),
{
    let v = chars_of(s);
    let w = chars_of(p);
    if w.len() > v.len() {
        return false;
    }
    let at: usize = v.len() - w.len();
    proof {
        assert(v@.skip(at as int).take(w.len() as int) =~= v@.skip(at as int));
    }
    stands_at(&v, &w, at)
}

/// The parts of `s` before and after the first place at which `p` stands.
pub open spec fn split_once_text(s: Seq<char>, p: Seq<char>) -> Option<(Seq<char>, Seq<char>)> {
    match find_text(s, p) {
        Some(k) => Some((s.take(k), s.skip(k + p.len()))),
        None => None,
    }
}

/// The parts of `s` before and after the last place at which `p` stands.
pub open spec fn rsplit_once_text(s: Seq<char>, p: Seq<char>) -> Option<(Seq<char>, Seq<char>)> {
    match rfind_text(s, p) {
        Some(k) => Some((s.take(k), s.skip(k + p.len()))),
        None => None,
    }
}

pub open spec fn opt_pair(o: Option<(String, String)>) -> Option<(Seq<char>, Seq<char>)> {
    match o {
        Some((a, b)) => Some((a@, b@)),
        None => None,
    }
}

pub fn split_once(s: &str, p: &str) -> (r: Option<(String, String)>)
    ensures
        opt_pair(r) == split_once_text(s@, p@),
{
    let v = chars_of(s);
    let w = chars_of(p);
    match find_in(&v, &w) {
        Some(k) => {
            assert(v@.subrange(0, k as int) =~= s@.take(k as int));
            assert(v@.subrange(k + w.len(), v.len() as int) =~= s@.skip(k + w.len()));
            Some((string_of(&v, 0, k), string_of(&v, k + w.len(), v.len())))
        },
        None => None,
    }
}

pub fn rsplit_once(s: &str, p: &str) -> (r: Option<(String, String)>)
    ensures
        opt_pair(r) == rsplit_once_text(s@, p@),
{
    let v = chars_of(s);
    let w = chars_of(p);
    match rfind_in(&v, &w) {
        Some(k) => {
            assert(v@.subrange(0, k as int) =~= s@.take(k as int));
            assert(v@.subrange(k + w.len(), v.len() as int) =~= s@.skip(k + w.len()));
            Some((string_of(&v, 0, k), string_of(&v, k + w.len(), v.len())))
        },
        None => None,
    }
}

/// The text after the prefix, where it begins with it.
pub open spec fn after_prefix(s: Seq<char>, p: Seq<char>) -> Option<Seq<char>> {
    if begins(s, p) {
        Some(s.skip(p.len() as int))
    } else {
        None
    }
}

pub fn strip_prefix(s: &str, p: &str) -> (r: Option<String>)
    ensures
        opt_text(r) == after_prefix(s@, p@),
{
    if starts_with(s, p) {
        let v = chars_of(s);
        let n: usize = chars_of(p).len();
        assert(v@.subrange(n as int, v.len() as int) =~= s@.skip(n as int));
        Some(string_of(&v, n, v.len()))
    } else {
        None
    }
}

// ---------------------------------------------------------------------------
// Splitting
// ---------------------------------------------------------------------------

/// The pieces between the characters that satisfy `p`: one more than there are
/// such characters.
pub open spec fn pieces(s: Seq<char>, p: spec_fn(char) -> bool) -> Seq<Seq<char>>
    decreases s.len(),
{
    if s.len() == 0 {
        seq![Seq::<char>::empty()]
    } else {
        let before = pieces(s.drop_last(), p);
        if p(s.last()) {
            before.push(Seq::empty())
        } else {
            before.drop_last().push(before.last().push(s.last()))
        }
    }
}

pub proof fn lemma_pieces_nonempty(s: Seq<char>, p: spec_fn(char) -> bool)
    ensures
        pieces(s, p).len() > 0,
    decreases s.len(),
{
    if s.len() > 0 {
        lemma_pieces_nonempty(s.drop_last(), p);
    }
}

pub open spec fn is_char(c: char) -> spec_fn(char) -> bool {
    |d: char| d == c
}

/// The non-empty ones, in order.
pub open spec fn nonempty(parts: Seq<Seq<char>>) -> Seq<Seq<char>>
    decreases parts.len(),
{
    if parts.len() == 0 {
        Seq::empty()
    } else if parts.last().len() == 0 {
        nonempty(parts.drop_last())
    } else {
        nonempty(parts.drop_last()).push(parts.last())
    }
}

/// The words between white space.
pub open spec fn words_text(s: Seq<char>) -> Seq<Seq<char>> {
    nonempty(pieces(s, white_pred()))
}

pub proof fn lemma_texts_push(v: Seq<String>, s: String)
    ensures
        texts(v.push(s)) == texts(v).push(s@),
{
    assert(texts(v.push(s)) =~= texts(v).push(s@));
}

/// The pieces between the occurrences of a character.
pub fn split(s: &str, c: char) -> (r: Vec<String>)
    ensures
        texts(r@) == pieces(s@, is_char(c)),
        r.len() > 0,
{
    let v = chars_of(s);
    let mut r: Vec<String> = Vec::new();
    let mut cur = String::new();
    assert(texts(r@).push(cur@) =~= pieces(s@.take(0), is_char(c)));
    for i in 0..v.len()
        invariant
            v@ == s@,
            texts(r@).push(cur@) == pieces(s@.take(i as int), is_char(c)),
    {
        proof {
            let now = s@.take(i + 1);
            assert(now.drop_last() =~= s@.take(i as int));
            assert(now.last() == s@[i as int]);
            let before = pieces(s@.take(i as int), is_char(c));
            assert(before.drop_last() =~= texts(r@));
            assert(before.last() == cur@);
        }
        if v[i] == c {
            proof {
                lemma_texts_push(r@, cur);
            }
            r.push(cur);
            cur = String::new();
        } else {
            cur.push(v[i]);
        }
    }
    assert(s@.take(s@.len() as int) =~= s@);
    proof {
        lemma_texts_push(r@, cur);
    }
    r.push(cur);
    r
}

/// The words between white space, as `str::split_whitespace` gives them.
pub fn words(s: &str) -> (r: Vec<String>)
    ensures
        texts(r@) == words_text(s@),
{
    let v = chars_of(s);
    let mut r: Vec<String> = Vec::new();
    let mut cur = String::new();
    let ghost done: Seq<Seq<char>> = Seq::empty();
    assert(done.push(cur@) =~= pieces(s@.take(0), white_pred()));
    assert(texts(r@) =~= nonempty(done));
    for i in 0..v.len()
        invariant
            v@ == s@,
            done.push(cur@) == pieces(s@.take(i as int), white_pred()),
            texts(r@) == nonempty(done),
    {
        proof {
            let now = s@.take(i + 1);
            assert(now.drop_last() =~= s@.take(i as int));
            assert(now.last() == s@[i as int]);
            let before = pieces(s@.take(i as int), white_pred());
            assert(before.drop_last() =~= done);
            assert(before.last() == cur@);
            assert(done.push(cur@).drop_last() =~= done);
        }
        if white(v[i]) {
            proof {
                lemma_texts_push(r@, cur);
                done = done.push(cur@);
            }
            if !cur.as_str().is_empty() {
                r.push(cur);
            }
            cur = String::new();
        } else {
            cur.push(v[i]);
        }
    }
    assert(s@.take(s@.len() as int) =~= s@);
    proof {
        lemma_texts_push(r@, cur);
        assert(done.push(cur@).drop_last() =~= done);
    }
    if !cur.as_str().is_empty() {
        r.push(cur);
    }
    r
}

/// A word: not empty, and without white space.
pub open spec fn is_word(w: Seq<char>) -> bool {
    w.len() > 0 && forall|k: int| 0 <= k < w.len() ==> !is_white(#[trigger] w[k])
}

pub open spec fn all_words(ws: Seq<Seq<char>>) -> bool {
    forall|i: int| 0 <= i < ws.len() ==> is_word(#[trigger] ws[i])
}

proof fn lemma_pieces_free(s: Seq<char>)
    ensures
        forall|i: int, k: int|
            0 <= i < pieces(s, white_pred()).len() && 0 <= k < pieces(s, white_pred())[i].len()
                ==> !is_white(#[trigger] pieces(s, white_pred())[i][k]),
    decreases s.len(),
{
    if s.len() > 0 {
        let before = pieces(s.drop_last(), white_pred());
        let now = pieces(s, white_pred());
        lemma_pieces_free(s.drop_last());
        lemma_pieces_nonempty(s.drop_last(), white_pred());
        assert forall|i: int, k: int|
            0 <= i < now.len() && 0 <= k < now[i].len() implies !is_white(
            #[trigger] now[i][k],
        ) by {
            if i < before.len() - 1 {
                assert(now[i] == before[i]);
                assert(!is_white(before[i][k]));
            } else if i == before.len() - 1 && k < before[i].len() {
                assert(now[i][k] == before[i][k]);
            }
        }
    }
}

proof fn lemma_nonempty_words(parts: Seq<Seq<char>>)
    requires
        forall|i: int, k: int|
            0 <= i < parts.len() && 0 <= k < parts[i].len() ==> !is_white(
                #[trigger] parts[i][k],
            ),
    ensures
        all_words(nonempty(parts)),
    decreases parts.len(),
{
    if parts.len() > 0 {
        let rest = parts.drop_last();
        assert forall|i: int, k: int|
            0 <= i < rest.len() && 0 <= k < rest[i].len() implies !is_white(
            #[trigger] rest[i][k],
        ) by {
            assert(!is_white(parts[i][k]));
        }
        lemma_nonempty_words(rest);
        if parts.last().len() > 0 {
            let w = parts.last();
            assert(is_word(w)) by {
                assert forall|k: int| 0 <= k < w.len() implies !is_white(#[trigger] w[k]) by {
                    assert(!is_white(parts[parts.len() - 1][k]));
                }
            }
            assert forall|i: int| 0 <= i < nonempty(parts).len() implies is_word(
                #[trigger] nonempty(parts)[i],
            ) by {
                if i < nonempty(rest).len() {
                    assert(nonempty(parts)[i] == nonempty(rest)[i]);
                }
            }
        }
    }
}

/// What stands between white space are words.
pub proof fn lemma_words(s: Seq<char>)
    ensures
        all_words(words_text(s)),
{
    lemma_pieces_free(s);
    lemma_nonempty_words(pieces(s, white_pred()));
}

/// White space behind a text adds no word.
pub proof fn lemma_words_before_white(s: Seq<char>, c: char)
    requires
        is_white(c),
    ensures
        words_text(s.push(c)) == words_text(s),
{
    assert(s.push(c).drop_last() =~= s);
    let before = pieces(s, white_pred());
    assert(before.push(Seq::empty()).drop_last() =~= before);
}

/// White space alone holds no word.
pub proof fn lemma_no_words(s: Seq<char>)
    requires
        forall|i: int| 0 <= i < s.len() ==> is_white(#[trigger] s[i]),
    ensures
        words_text(s).len() == 0,
    decreases s.len(),
{
    if s.len() > 0 {
        assert forall|i: int| 0 <= i < s.drop_last().len() implies is_white(
            #[trigger] s.drop_last()[i],
        ) by {
            assert(is_white(s[i]));
        }
        lemma_no_words(s.drop_last());
        assert(is_white(s[s.len() - 1]));
        assert(s =~= s.drop_last().push(s.last()));
        lemma_words_before_white(s.drop_last(), s.last());
    } else {
        assert(seq![Seq::<char>::empty()].drop_last() =~= Seq::<Seq<char>>::empty());
        assert(nonempty(Seq::<Seq<char>>::empty()).len() == 0);
    }
}

proof fn lemma_pieces_extend(s: Seq<char>, w: Seq<char>)
    requires
        forall|k: int| 0 <= k < w.len() ==> !is_white(#[trigger] w[k]),
    ensures
        pieces(s + w, white_pred()) == pieces(s, white_pred()).drop_last().push(
            pieces(s, white_pred()).last() + w,
        ),
    decreases w.len(),
{
    let before = pieces(s, white_pred());
    lemma_pieces_nonempty(s, white_pred());
    if w.len() == 0 {
        assert(s + w =~= s);
        assert(before.last() + w =~= before.last());
        assert(before =~= before.drop_last().push(before.last()));
    } else {
        let front = w.drop_last();
        assert forall|k: int| 0 <= k < front.len() implies !is_white(#[trigger] front[k]) by {
            assert(!is_white(w[k]));
        }
        lemma_pieces_extend(s, front);
        assert((s + w).drop_last() =~= s + front);
        assert(!is_white(w[w.len() - 1]));
        let inner = pieces(s + front, white_pred());
        assert(inner.drop_last() =~= before.drop_last());
        assert((before.last() + front).push(w.last()) =~= before.last() + w);
    }
}

/// A word behind a text that is empty or ends in white space is the next word.
pub proof fn lemma_words_push(s: Seq<char>, w: Seq<char>)
    requires
        s.len() == 0 || is_white(s.last()),
        is_word(w),
    ensures
        words_text(s + w) == words_text(s).push(w),
{
    let before = pieces(s, white_pred());
    lemma_pieces_nonempty(s, white_pred());
    lemma_pieces_extend(s, w);
    assert(before.last() =~= Seq::<char>::empty());
    assert(before.last() + w =~= w);
    assert(before.drop_last().push(w).drop_last() =~= before.drop_last());
}

/// The words of words that were joined by single spaces are those words.
pub proof fn lemma_words_of_joined(ws: Seq<Seq<char>>)
    requires
        all_words(ws),
    ensures
        words_text(join_text(ws, " "@)) == ws,
    decreases ws.len(),
{
    reveal_strlit(" ");
    let none = Seq::<char>::empty();
    lemma_no_words(none);
    if ws.len() == 0 {
        assert(words_text(none) =~= ws);
    } else {
        let rest = ws.drop_last();
        let w = ws.last();
        assert(is_word(ws[ws.len() - 1]));
        assert forall|i: int| 0 <= i < rest.len() implies is_word(#[trigger] rest[i]) by {
            assert(is_word(ws[i]));
        }
        lemma_words_of_joined(rest);
        assert(ws =~= rest.push(w));
        if ws.len() == 1 {
            lemma_words_push(none, w);
            assert(none + w =~= w);
            assert(words_text(none) =~= rest);
        } else {
            let head = join_text(rest, " "@);
            assert(head + " "@ =~= head.push(' '));
            lemma_words_before_white(head, ' ');
            lemma_words_push(head.push(' '), w);
        }
    }
}

/// Whether the only white space in a text is a single space between two words.
pub open spec fn single_spaced(s: Seq<char>) -> bool {
    forall|i: int|
        0 <= i < s.len() && is_white(#[trigger] s[i]) ==> s[i] == ' ' && 0 < i < s.len() - 1
            && !is_white(s[i - 1]) && !is_white(s[i + 1])
}

/// Words that were joined by single spaces have no other white space.
pub proof fn lemma_joined_is_single_spaced(ws: Seq<Seq<char>>)
    requires
        all_words(ws),
    ensures
        single_spaced(join_text(ws, " "@)),
        ws.len() > 0 ==> join_text(ws, " "@).len() > 0 && !is_white(join_text(ws, " "@).last()),
    decreases ws.len(),
{
    reveal_strlit(" ");
    if ws.len() > 0 {
        let rest = ws.drop_last();
        let w = ws.last();
        assert(is_word(ws[ws.len() - 1]));
        assert(!is_white(w[w.len() - 1]));
        let r = join_text(ws, " "@);
        if ws.len() == 1 {
            assert forall|i: int| 0 <= i < r.len() implies !is_white(#[trigger] r[i]) by {
                assert(r[i] == w[i]);
            }
        } else {
            assert forall|i: int| 0 <= i < rest.len() implies is_word(#[trigger] rest[i]) by {
                assert(is_word(ws[i]));
            }
            lemma_joined_is_single_spaced(rest);
            let head = join_text(rest, " "@);
            assert forall|i: int| 0 <= i < r.len() && is_white(#[trigger] r[i]) implies r[i]
                == ' ' && 0 < i < r.len() - 1 && !is_white(r[i - 1]) && !is_white(r[i + 1]) by {
                if i < head.len() {
                    assert(r[i] == head[i]);
                    assert(is_white(head[i]));
                    assert(r[i - 1] == head[i - 1]);
                    assert(r[i + 1] == head[i + 1]);
                } else if i == head.len() {
                    assert(r[i - 1] == head.last());
                    assert(r[i + 1] == w[0]);
                } else {
                    assert(r[i] == w[i - head.len() - 1]);
                }
            }
            assert(r.last() == w.last());
        }
    }
}

pub open spec fn all_lowered(ws: Seq<Seq<char>>) -> Seq<Seq<char>> {
    Seq::new(ws.len(), |i: int| lowered(ws[i]))
}

proof fn lemma_lower_pieces(s: Seq<char>)
    ensures
        pieces(lowered(s), white_pred()) == all_lowered(pieces(s, white_pred())),
    decreases s.len(),
{
    if s.len() == 0 {
        assert(lowered(s) =~= s);
        assert(pieces(s, white_pred()) =~= seq![Seq::<char>::empty()]);
        assert(lowered(Seq::<char>::empty()) =~= Seq::<char>::empty());
        assert(all_lowered(pieces(s, white_pred())) =~= pieces(s, white_pred()));
    } else {
        let front = s.drop_last();
        let before = pieces(front, white_pred());
        lemma_lower_pieces(front);
        lemma_pieces_nonempty(front, white_pred());
        assert(lowered(s).drop_last() =~= lowered(front));
        assert(is_white(lower_char(s.last())) == is_white(s.last()));
        if is_white(s.last()) {
            assert(lowered(Seq::<char>::empty()) =~= Seq::<char>::empty());
            assert(all_lowered(before.push(Seq::empty())) =~= all_lowered(before).push(
                Seq::empty(),
            ));
        } else {
            let grown = before.last().push(s.last());
            assert(lowered(grown) =~= lowered(before.last()).push(lower_char(s.last())));
            assert(all_lowered(before).last() == lowered(before.last()));
            assert(all_lowered(before).drop_last() =~= all_lowered(before.drop_last()));
            assert(all_lowered(before.drop_last().push(grown)) =~= all_lowered(
                before.drop_last(),
            ).push(lowered(grown)));
        }
    }
}

proof fn lemma_lower_nonempty(parts: Seq<Seq<char>>)
    ensures
        nonempty(all_lowered(parts)) == all_lowered(nonempty(parts)),
    decreases parts.len(),
{
    if parts.len() > 0 {
        let rest = parts.drop_last();
        lemma_lower_nonempty(rest);
        assert(all_lowered(parts).drop_last() =~= all_lowered(rest));
        assert(all_lowered(parts).last() == lowered(parts.last()));
        assert(all_lowered(nonempty(rest).push(parts.last())) =~= all_lowered(nonempty(rest)).push(
            lowered(parts.last()),
        ));
    } else {
        assert(all_lowered(parts) =~= parts);
        assert(all_lowered(nonempty(parts)) =~= nonempty(parts));
    }
}

/// The words of a text in lower case are its words in lower case.
pub proof fn lemma_lower_words(s: Seq<char>)
    ensures
        words_text(lowered(s)) == all_lowered(words_text(s)),
{
    lemma_lower_pieces(s);
    lemma_lower_nonempty(pieces(s, white_pred()));
}

/// Lower case and joining by single spaces can change places.
pub proof fn lemma_lower_joined(ws: Seq<Seq<char>>)
    ensures
        join_text(all_lowered(ws), " "@) == lowered(join_text(ws, " "@)),
    decreases ws.len(),
{
    reveal_strlit(" ");
    if ws.len() == 0 {
        assert(lowered(Seq::<char>::empty()) =~= Seq::<char>::empty());
    } else if ws.len() > 1 {
        let rest = ws.drop_last();
        lemma_lower_joined(rest);
        assert(all_lowered(ws).drop_last() =~= all_lowered(rest));
        assert(lowered(join_text(rest, " "@) + " "@ + ws.last()) =~= lowered(
            join_text(rest, " "@),
        ) + " "@ + lowered(ws.last()));
    }
}

// ---------------------------------------------------------------------------
// Selecting and replacing characters
// ---------------------------------------------------------------------------

/// The characters that satisfy `p`, in order.
pub open spec fn kept(s: Seq<char>, p: spec_fn(char) -> bool) -> Seq<char>
    decreases s.len(),
{
    if s.len() == 0 {
        Seq::empty()
    } else if p(s.last()) {
        kept(s.drop_last(), p).push(s.last())
    } else {
        kept(s.drop_last(), p)
    }
}

/// The text without every occurrence of a character.
pub fn without(s: &str, c: char) -> (r: String)
    ensures
        r@ == kept(s@, |d: char| d != c),
{
    let v = chars_of(s);
    let mut r = String::new();
    for i in 0..v.len()
        invariant
            v@ == s@,
            r@ == kept(s@.take(i as int), |d: char| d != c),
    {
        assert(s@.take(i + 1).drop_last() =~= s@.take(i as int));
        if v[i] != c {
            r.push(v[i]);
        }
    }
    assert(s@.take(s@.len() as int) =~= s@);
    r
}

/// The text with every `p`, taken from the left without overlap, replaced.
pub open spec fn replaced(s: Seq<char>, p: Seq<char>, by: Seq<char>) -> Seq<char>
    decreases s.len(),
{
    if p.len() == 0 || s.len() < p.len() {
        s
    } else if begins(s, p) {
        by + replaced(s.skip(p.len() as int), p, by)
    } else {
        seq![s[0]] + replaced(s.skip(1), p, by)
    }
}

/// Replaces every `p`, as `str::replace` does for a non-empty pattern.
pub fn replace(s: &str, p: &str, by: &str) -> (r: String)
    ensures
        r@ == replaced(s@, p@, by@),
{
    let v = chars_of(s);
    let w = chars_of(p);
    if w.len() == 0 {
        return copy(s);
    }
    let mut r = String::new();
    let mut i: usize = 0;
    assert(v@.skip(0) =~= s@);
    assert(r@ + replaced(v@.skip(0), w@, by@) =~= replaced(s@, p@, by@));
    while i < v.len()
        invariant
            w.len() > 0,
            w@ == p@,
            i <= v.len(),
            r@ + replaced(v@.skip(i as int), w@, by@) == replaced(s@, p@, by@),
        decreases v.len() - i,
    {
        let ghost rest = v@.skip(i as int);
        let ghost before = r@;
        if stands_at(&v, &w, i) {
            r.append(by);
            proof {
                assert(rest.skip(w.len() as int) =~= v@.skip(i + w.len()));
                assert(before + (by@ + replaced(v@.skip(i + w.len()), w@, by@)) =~= r@ + replaced(
                    v@.skip(i + w.len()),
                    w@,
                    by@,
                ));
            }
            i += w.len();
        } else {
            r.push(v[i]);
            proof {
                assert(rest.skip(1) =~= v@.skip(i + 1));
                if rest.len() < w.len() {
                    assert(rest =~= seq![rest[0]] + rest.skip(1));
                    assert(rest.skip(1).len() < w.len());
                }
                assert(before + (seq![rest[0]] + replaced(v@.skip(i + 1), w@, by@)) =~= r@
                    + replaced(v@.skip(i + 1), w@, by@));
            }
            i += 1;
        }
    }
    proof {
        assert(v@.skip(i as int).len() == 0);
        assert(r@ + replaced(v@.skip(i as int), w@, by@) =~= r@);
    }
    r
}

// ---------------------------------------------------------------------------
// Numbers
// ---------------------------------------------------------------------------

/// The decimal digit for a number below ten.
pub open spec fn digit_char(d: int) -> char {
    ('0' as int + d) as char
}

/// The value of a decimal digit.
pub open spec fn digit_value(c: char) -> int {
    c as int - '0' as int
}

/// A number in decimal.
pub open spec fn decimal(n: int) -> Seq<char>
    decreases n,
{
    if n < 10 {
        seq![digit_char(n)]
    } else {
        decimal(n / 10).push(digit_char(n % 10))
    }
}

/// A number in decimal, with a minus sign where it is negative.
pub open spec fn signed_decimal(n: int) -> Seq<char> {
    if n < 0 {
        seq!['-'] + decimal(-n)
    } else {
        decimal(n)
    }
}

pub fn to_digit(d: u64) -> (c: char)
    requires
        d < 10,
    ensures
        c == digit_char(d as int),
{
    (48u8 + (d as u8)) as char
}

fn push_decimal(n: u64, out: &mut String)
    ensures
        final(out)@ == old(out)@ + decimal(n as int),
    decreases n,
{
    if n >= 10 {
        push_decimal(n / 10, out);
    }
    out.push(to_digit(n % 10));
}

pub fn number(n: u64) -> (s: String)
    ensures
        s@ == decimal(n as int),
{
    let mut s = String::new();
    push_decimal(n, &mut s);
    s
}

pub fn signed_number(n: i64) -> (s: String)
    ensures
        s@ == signed_decimal(n as int),
{
    if n >= 0 {
        number(n as u64)
    } else {
        let m: u64 = if n == i64::MIN {
            9_223_372_036_854_775_808
        } else {
            (-n) as u64
        };
        let mut s = String::new();
        s.push('-');
        push_decimal(m, &mut s);
        s
    }
}

/// The value of a text of decimal digits.
pub open spec fn value_of(s: Seq<char>) -> int
    decreases s.len(),
{
    if s.len() == 0 {
        0
    } else {
        value_of(s.drop_last()) * 10 + digit_value(s.last())
    }
}

pub open spec fn all_digits(s: Seq<char>) -> bool {
    forall|i: int| 0 <= i < s.len() ==> is_digit(#[trigger] s[i])
}

/// The number a text of digits, with a plus sign allowed before it, stands for.
pub open spec fn parsed_u64(s: Seq<char>) -> Option<int> {
    let body = if s.len() > 0 && s[0] == '+' {
        s.skip(1)
    } else {
        s
    };
    if body.len() > 0 && all_digits(body) && value_of(body) <= u64::MAX {
        Some(value_of(body))
    } else {
        None
    }
}

pub open spec fn opt_int(o: Option<u64>) -> Option<int> {
    match o {
        Some(n) => Some(n as int),
        None => None,
    }
}

pub proof fn lemma_value_grows(s: Seq<char>, k: int)
    requires
        all_digits(s),
        0 <= k <= s.len(),
    ensures
        0 <= value_of(s.take(k)) <= value_of(s),
    decreases s.len() - k,
{
    lemma_value_nonnegative(s.take(k));
    if k < s.len() {
        lemma_value_grows(s, k + 1);
        assert(s.take(k + 1).drop_last() =~= s.take(k));
        assert(s.take(k + 1).last() == s[k]);
    } else {
        assert(s.take(k) =~= s);
    }
}

pub proof fn lemma_value_nonnegative(s: Seq<char>)
    requires
        all_digits(s),
    ensures
        value_of(s) >= 0,
    decreases s.len(),
{
    if s.len() > 0 {
        assert(is_digit(s[s.len() - 1]));
        assert forall|i: int| 0 <= i < s.drop_last().len() implies is_digit(
            #[trigger] s.drop_last()[i],
        ) by {
            assert(s.drop_last()[i] == s[i]);
        }
        lemma_value_nonnegative(s.drop_last());
    }
}

/// Reads a whole number, as `str::parse::<u64>` does.
pub fn parse_u64(s: &str) -> (r: Option<u64>)
    ensures
        opt_int(r) == parsed_u64(s@),
{
    let v = chars_of(s);
    let start: usize = if v.len() > 0 && v[0] == '+' {
        1
    } else {
        0
    };
    let ghost body = if start == 1 {
        s@.skip(1)
    } else {
        s@
    };
    assert(body =~= v@.skip(start as int));
    if start == v.len() {
        return None;
    }
    let mut n: u64 = 0;
    for i in start..v.len()
        invariant
            start <= 1,
            start < v.len(),
            body == v@.skip(start as int),
            forall|j: int| 0 <= j < i - start ==> is_digit(#[trigger] body[j]),
            n == value_of(body.take(i - start)),
            body == (if s@.len() > 0 && s@[0] == '+' {
                s@.skip(1)
            } else {
                s@
            }),
    {
        let c = v[i];
        let ghost k = i - start;
        proof {
            assert(body[k] == c);
            assert(body.take(k + 1).drop_last() =~= body.take(k));
            assert(body.take(k + 1).last() == c);
        }
        if !digit(c) {
            assert(!is_digit(body[k]));
            return None;
        }
        let d: u64 = (c as u64) - 48;
        if n > (u64::MAX - d) / 10 {
            proof {
                assert(value_of(body.take(k + 1)) == n * 10 + d);
                assert(n * 10 + d > u64::MAX);
                if all_digits(body) {
                    lemma_value_grows(body, k + 1);
                }
            }
            return None;
        }
        n = n * 10 + d;
    }
    proof {
        assert(body.take(body.len() as int) =~= body);
        assert(all_digits(body));
    }
    Some(n)
}

// ---------------------------------------------------------------------------
// Order and size
// ---------------------------------------------------------------------------

/// The number of bytes of the text in UTF-8.
pub open spec fn byte_len(s: Seq<char>) -> usize {
    vstd::utf8::encode_utf8(s).len() as usize
}

pub fn bytes_in(s: &str) -> (n: usize)
    ensures
        n == byte_len(s@),
{
    s.len()
}

/// Whether `a` stands before `b` in the order of the code points, or is `b`.
pub open spec fn at_most(a: Seq<char>, b: Seq<char>) -> bool
    decreases a.len(),
{
    if a.len() == 0 {
        true
    } else if b.len() == 0 {
        false
    } else if a[0] == b[0] {
        at_most(a.skip(1), b.skip(1))
    } else {
        a[0] < b[0]
    }
}

/// Whether `a` stands before `b` in the order of the code points, or is `b`.
pub fn not_after(a: &str, b: &str) -> (r: bool)
    ensures
        r == at_most(a@, b@),
{
    let x = chars_of(a);
    let y = chars_of(b);
    let mut i: usize = 0;
    assert(x@.skip(0) =~= a@);
    assert(y@.skip(0) =~= b@);
    while i < x.len()
        invariant
            i <= x.len(),
            i <= y.len(),
            at_most(a@, b@) == at_most(x@.skip(i as int), y@.skip(i as int)),
        decreases x.len() - i,
    {
        if i == y.len() {
            return false;
        }
        if x[i] != y[i] {
            return x[i] < y[i];
        }
        assert(x@.skip(i as int).skip(1) =~= x@.skip(i + 1));
        assert(y@.skip(i as int).skip(1) =~= y@.skip(i + 1));
        i += 1;
    }
    true
}

pub proof fn lemma_at_most_total(a: Seq<char>, b: Seq<char>)
    ensures
        at_most(a, b) || at_most(b, a),
    decreases a.len(),
{
    if a.len() > 0 && b.len() > 0 && a[0] == b[0] {
        lemma_at_most_total(a.skip(1), b.skip(1));
    }
}

pub proof fn lemma_at_most_antisymmetric(a: Seq<char>, b: Seq<char>)
    requires
        at_most(a, b),
        at_most(b, a),
    ensures
        a == b,
    decreases a.len(),
{
    if a.len() > 0 && b.len() > 0 {
        lemma_at_most_antisymmetric(a.skip(1), b.skip(1));
        assert(a =~= seq![a[0]] + a.skip(1));
        assert(b =~= seq![b[0]] + b.skip(1));
    } else {
        assert(a =~= b);
    }
}

pub proof fn lemma_at_most_transitive(a: Seq<char>, b: Seq<char>, c: Seq<char>)
    requires
        at_most(a, b),
        at_most(b, c),
    ensures
        at_most(a, c),
    decreases a.len(),
{
    if a.len() > 0 && b.len() > 0 && c.len() > 0 && a[0] == b[0] && b[0] == c[0] {
        lemma_at_most_transitive(a.skip(1), b.skip(1), c.skip(1));
    }
}

// ---------------------------------------------------------------------------
// Sorted lists without repetition
// ---------------------------------------------------------------------------

/// Each entry stands before the next and differs from it.
pub open spec fn strictly_sorted(v: Seq<Seq<char>>) -> bool {
    forall|i: int, j: int|
        0 <= i < j < v.len() ==> #[trigger] at_most(v[i], v[j]) && v[i] != v[j]
}

/// The position of a text in a list.
pub fn position(v: &Vec<String>, s: &str) -> (r: Option<usize>)
    ensures
        match r {
            Some(i) => i < v.len() && v[i as int]@ == s@ && forall|j: int|
                0 <= j < i ==> #[trigger] v[j]@ != s@,
            None => forall|j: int| 0 <= j < v.len() ==> #[trigger] v[j]@ != s@,
        },
        r is Some == texts(v@).contains(s@),
{
    for i in 0..v.len()
        invariant
            forall|j: int| 0 <= j < i ==> #[trigger] v[j]@ != s@,
    {
        if same(&v[i], s) {
            assert(texts(v@)[i as int] == s@);
            return Some(i);
        }
    }
    proof {
        assert forall|j: int| 0 <= j < texts(v@).len() implies texts(v@)[j] != s@ by {
            assert(v[j]@ != s@);
        }
    }
    None
}

/// Whether the list holds the text.
pub fn listed(v: &Vec<String>, s: &str) -> (b: bool)
    ensures
        b == texts(v@).contains(s@),
{
    position(v, s).is_some()
}

/// Puts a text in its place, unless the list holds it.
pub fn insert_sorted(v: &mut Vec<String>, s: String)
    requires
        strictly_sorted(texts(old(v)@)),
    ensures
        strictly_sorted(texts(final(v)@)),
        texts(final(v)@).to_set() == texts(old(v)@).to_set().insert(s@),
{
    let ghost before = texts(v@);
    let mut i: usize = v.len();
    while i > 0 && !not_after(&v[i - 1], &s)
        invariant
            i <= v.len(),
            before == texts(v@),
            strictly_sorted(before),
            forall|j: int| i <= j < v.len() ==> !at_most(#[trigger] before[j], s@),
        decreases i,
    {
        assert(before[i - 1] == v[i - 1]@);
        i -= 1;
    }
    if i > 0 && same(&v[i - 1], &s) {
        proof {
            assert(before[i - 1] == s@);
            assert(before.to_set().contains(s@));
            assert(before.to_set() =~= before.to_set().insert(s@));
        }
        return;
    }
    proof {
        assert(i > 0 ==> before[i - 1] == v[i - 1]@);
    }
    v.insert(i, s);
    proof {
        let after = texts(v@);
        assert(after =~= before.insert(i as int, s@));
        assert forall|a: int, b: int| 0 <= a < b < after.len() implies #[trigger] at_most(
            after[a],
            after[b],
        ) && after[a] != after[b] by {
            let x = if a < i {
                a
            } else {
                a - 1
            };
            let y = if b < i {
                b
            } else {
                b - 1
            };
            if a != i && b != i {
                assert(at_most(before[x], before[y]));
            } else if b == i {
                if a < i - 1 {
                    assert(at_most(before[a], before[i - 1]));
                    lemma_at_most_transitive(before[a], before[i - 1], s@);
                    if before[a] == s@ {
                        lemma_at_most_antisymmetric(before[a], before[i - 1]);
                    }
                }
            } else {
                lemma_at_most_total(s@, before[y]);
            }
        }
        assert(strictly_sorted(after));
        assert(after.to_set() =~= before.to_set().insert(s@)) by {
            assert forall|t: Seq<char>|
                after.to_set().contains(t) == before.to_set().insert(s@).contains(t) by {
                if after.contains(t) {
                    let k = choose|k: int| 0 <= k < after.len() && after[k] == t;
                    if k < i {
                        assert(before[k] == t);
                    } else if k > i {
                        assert(before[k - 1] == t);
                    }
                }
                if before.contains(t) {
                    let k = choose|k: int| 0 <= k < before.len() && before[k] == t;
                    if k < i {
                        assert(after[k] == t);
                    } else {
                        assert(after[k + 1] == t);
                    }
                }
                assert(after[i as int] == s@);
            }
        }
    }
}

/// Puts every text of `more` in its place.
pub fn insert_all(v: &mut Vec<String>, more: &Vec<String>)
    requires
        strictly_sorted(texts(old(v)@)),
    ensures
        strictly_sorted(texts(final(v)@)),
        texts(final(v)@).to_set() == texts(old(v)@).to_set().union(texts(more@).to_set()),
{
    let ghost before = texts(v@).to_set();
    assert(before.union(texts(more@).take(0).to_set()) =~= before);
    for i in 0..more.len()
        invariant
            strictly_sorted(texts(v@)),
            texts(v@).to_set() == before.union(texts(more@).take(i as int).to_set()),
    {
        proof {
            lemma_take_to_set(texts(more@), i as int);
            assert(before.union(texts(more@).take(i as int).to_set()).insert(more[i as int]@)
                =~= before.union(texts(more@).take(i + 1).to_set()));
        }
        insert_sorted(v, more[i].clone());
    }
    assert(texts(more@).take(more.len() as int) =~= texts(more@));
}

pub proof fn lemma_take_to_set<A>(s: Seq<A>, i: int)
    requires
        0 <= i < s.len(),
    ensures
        s.take(i + 1).to_set() == s.take(i).to_set().insert(s[i]),
{
    let (now, before) = (s.take(i + 1), s.take(i));
    assert forall|a: A| now.to_set().contains(a) == before.to_set().insert(s[i]).contains(a) by {
        if now.contains(a) {
            let k = choose|k: int| 0 <= k < now.len() && now[k] == a;
            if k < i {
                assert(before[k] == a);
            }
        }
        if before.contains(a) {
            let k = choose|k: int| 0 <= k < before.len() && before[k] == a;
            assert(now[k] == a);
        }
        assert(now[i] == s[i]);
    }
    assert(now.to_set() =~= before.to_set().insert(s[i]));
}

/// Takes a text out of a sorted list, where the list holds it.
pub fn remove_sorted(v: &mut Vec<String>, s: &str)
    requires
        strictly_sorted(texts(old(v)@)),
    ensures
        strictly_sorted(texts(final(v)@)),
        texts(final(v)@).to_set() == texts(old(v)@).to_set().remove(s@),
{
    let ghost before = texts(v@);
    match position(v, s) {
        Some(i) => {
            v.remove(i);
            proof {
                let after = texts(v@);
                assert(after =~= before.remove(i as int));
                assert forall|a: int, b: int| 0 <= a < b < after.len() implies #[trigger] at_most(
                    after[a],
                    after[b],
                ) && after[a] != after[b] by {
                    let x = if a < i {
                        a
                    } else {
                        a + 1
                    };
                    let y = if b < i {
                        b
                    } else {
                        b + 1
                    };
                    assert(at_most(before[x], before[y]));
                }
                assert forall|t: Seq<char>|
                    after.to_set().contains(t) == before.to_set().remove(s@).contains(t) by {
                    if after.contains(t) {
                        let k = choose|k: int| 0 <= k < after.len() && after[k] == t;
                        let x = if k < i {
                            k
                        } else {
                            k + 1
                        };
                        assert(before[x] == t);
                        if x < i {
                            assert(at_most(before[x], before[i as int]));
                        } else {
                            assert(at_most(before[i as int], before[x]));
                        }
                    }
                    if before.contains(t) && t != s@ {
                        let k = choose|k: int| 0 <= k < before.len() && before[k] == t;
                        if k < i {
                            assert(after[k] == t);
                        } else {
                            assert(after[k - 1] == t);
                        }
                    }
                }
                assert(after.to_set() =~= before.to_set().remove(s@));
            }
        },
        None => {
            assert(before.to_set() =~= before.to_set().remove(s@));
        },
    }
}

pub open spec fn one_of(set: Seq<char>) -> spec_fn(char) -> bool {
    |c: char| set.contains(c)
}

/// The text without the leading characters that stand in `set`.
pub fn trim_front_set(s: &str, set: &str) -> (r: String)
    ensures
        r@ == drop_front(s@, one_of(set@)),
{
    let v = chars_of(s);
    let mut i: usize = 0;
    assert(v@.skip(0) =~= s@);
    while i < v.len() && has_char(set, v[i])
        invariant
            i <= v.len(),
            drop_front(s@, one_of(set@)) == drop_front(v@.skip(i as int), one_of(set@)),
        decreases v.len() - i,
    {
        assert(v@.skip(i as int).skip(1) =~= v@.skip(i + 1));
        i += 1;
    }
    assert(v@.subrange(i as int, v.len() as int) =~= v@.skip(i as int));
    string_of(&v, i, v.len())
}

/// The text without the trailing characters that stand in `set`.
pub fn trim_back_set(s: &str, set: &str) -> (r: String)
    ensures
        r@ == drop_back(s@, one_of(set@)),
{
    let v = chars_of(s);
    let mut j: usize = v.len();
    assert(v@.take(j as int) =~= s@);
    while j > 0 && has_char(set, v[j - 1])
        invariant
            j <= v.len(),
            drop_back(s@, one_of(set@)) == drop_back(v@.take(j as int), one_of(set@)),
        decreases j,
    {
        assert(v@.take(j as int).drop_last() =~= v@.take(j - 1));
        j -= 1;
    }
    assert(v@.subrange(0, j as int) =~= v@.take(j as int));
    string_of(&v, 0, j)
}

/// The number a text of digits, with a sign allowed before it, stands for.
pub open spec fn parsed_i64(s: Seq<char>) -> Option<int> {
    if s.len() > 0 && s[0] == '-' {
        let body = s.skip(1);
        if body.len() > 0 && all_digits(body) && -value_of(body) >= i64::MIN {
            Some(-value_of(body))
        } else {
            None
        }
    } else {
        match parsed_u64(s) {
            Some(n) if n <= i64::MAX => Some(n),
            _ => None,
        }
    }
}

pub open spec fn opt_i64(o: Option<i64>) -> Option<int> {
    match o {
        Some(n) => Some(n as int),
        None => None,
    }
}

/// Reads a whole number with a sign, as `str::parse::<i64>` does.
pub fn parse_i64(s: &str) -> (r: Option<i64>)
    ensures
        opt_i64(r) == parsed_i64(s@),
{
    let v = chars_of(s);
    if v.len() > 0 && v[0] == '-' {
        if v.len() > 1 && v[1] == '+' {
            assert(!is_digit(s@.skip(1)[0]));
            return None;
        }
        let body = string_of(&v, 1, v.len());
        assert(body@ =~= s@.skip(1));
        assert(body@.len() > 0 ==> body@[0] == v[1]);
        match parse_u64(&body) {
            Some(n) => {
                if n < 9_223_372_036_854_775_808 {
                    Some(-(n as i64))
                } else if n == 9_223_372_036_854_775_808 {
                    Some(i64::MIN)
                } else {
                    None
                }
            },
            None => None,
        }
    } else {
        match parse_u64(s) {
            Some(n) => {
                if n <= 9_223_372_036_854_775_807 {
                    Some(n as i64)
                } else {
                    None
                }
            },
            None => None,
        }
    }
}

/// The leading characters that satisfy `p`.
pub open spec fn front_run(s: Seq<char>, p: spec_fn(char) -> bool) -> Seq<char> {
    s.take(s.len() - drop_front(s, p).len())
}

/// The trailing characters that satisfy `p`.
pub open spec fn back_run(s: Seq<char>, p: spec_fn(char) -> bool) -> Seq<char> {
    s.skip(drop_back(s, p).len() as int)
}

pub proof fn lemma_drop_front(s: Seq<char>, p: spec_fn(char) -> bool, i: int)
    requires
        0 <= i <= s.len(),
        forall|j: int| 0 <= j < i ==> p(#[trigger] s[j]),
        i < s.len() ==> !p(s[i]),
    ensures
        drop_front(s, p) == s.skip(i),
    decreases s.len(),
{
    if i == 0 {
        assert(s.skip(0) =~= s);
    } else {
        assert(p(s[0]));
        lemma_drop_front(s.skip(1), p, i - 1);
        assert(s.skip(1).skip(i - 1) =~= s.skip(i));
    }
}

pub proof fn lemma_drop_back(s: Seq<char>, p: spec_fn(char) -> bool, i: int)
    requires
        0 <= i <= s.len(),
        forall|j: int| i <= j < s.len() ==> p(#[trigger] s[j]),
        i > 0 ==> !p(s[i - 1]),
    ensures
        drop_back(s, p) == s.take(i),
    decreases s.len(),
{
    if i == s.len() {
        assert(s.take(i) =~= s);
    } else {
        assert(p(s[s.len() - 1]));
        assert forall|j: int| i <= j < s.drop_last().len() implies p(#[trigger] s.drop_last()[j]) by {
            assert(p(s[j]));
        }
        lemma_drop_back(s.drop_last(), p, i);
        assert(s.drop_last().take(i) =~= s.take(i));
    }
}

/// What a text looks like in quotes, as `{:?}` shows it.
pub uninterp spec fn str_debug(s: Seq<char>) -> Seq<char>;

/// `format!` with `{:?}` of a text: a function of the text.
#[verifier::external_body]
pub(crate) fn quoted(s: &str) -> (r: String)
    ensures
        r@ == str_debug(s@),
{
    format!("{:?}", s)
}

/// A number without a sign is never below zero.
pub proof fn lemma_parsed_nonnegative(s: Seq<char>)
    ensures
        parsed_u64(s) matches Some(n) ==> 0 <= n <= u64::MAX,
{
    let body = if s.len() > 0 && s[0] == '+' {
        s.skip(1)
    } else {
        s
    };
    if all_digits(body) {
        lemma_value_grows(body, 0);
    }
}

// ---------------------------------------------------------------------------
// What holds of joined parts and of numbers
// ---------------------------------------------------------------------------

/// A text that stands inside another is found there.
pub proof fn lemma_has_inside(before: Seq<char>, part: Seq<char>, after: Seq<char>)
    ensures
        has_text(before + part + after, part),
{
    let whole = before + part + after;
    assert(whole.subrange(before.len() as int, (before.len() + part.len()) as int) =~= part);
    lemma_has_text(whole, part, before.len() as int);
}

/// Whatever stands in a part of a longer text stands in that text.
pub proof fn lemma_has_within(before: Seq<char>, s: Seq<char>, after: Seq<char>, p: Seq<char>)
    requires
        has_text(s, p),
    ensures
        has_text(before + s + after, p),
{
    let whole = before + s + after;
    lemma_find_text(s, p);
    let at = find_text(s, p)->0;
    assert(whole.subrange(before.len() + at, before.len() + at + p.len()) =~= s.subrange(
        at,
        at + p.len(),
    ));
    lemma_has_text(whole, p, before.len() + at);
}

/// Whatever stands in one of the parts stands in what is joined of them.
pub proof fn lemma_joined_has(parts: Seq<Seq<char>>, sep: Seq<char>, i: int, p: Seq<char>)
    requires
        0 <= i < parts.len(),
        has_text(parts[i], p),
    ensures
        has_text(join_text(parts, sep), p),
    decreases parts.len(),
{
    let none = Seq::<char>::empty();
    if parts.len() > 1 {
        let rest = parts.drop_last();
        let head = join_text(rest, sep);
        if i < rest.len() {
            lemma_joined_has(rest, sep, i, p);
            lemma_has_within(none, head, sep + parts.last(), p);
            assert(none + head + (sep + parts.last()) =~= head + sep + parts.last());
        } else {
            lemma_has_within(head + sep, parts.last(), none, p);
            assert(head + sep + parts.last() + none =~= head + sep + parts.last());
        }
    }
}

/// The first part stands in front of the separator and the rest.
pub proof fn lemma_join_front(first: Seq<char>, rest: Seq<Seq<char>>, sep: Seq<char>)
    requires
        rest.len() > 0,
    ensures
        join_text(seq![first] + rest, sep) == first + sep + join_text(rest, sep),
    decreases rest.len(),
{
    let all = seq![first] + rest;
    assert(all.last() == rest.last());
    if rest.len() == 1 {
        assert(all.drop_last() =~= seq![first]);
        assert(join_text(all.drop_last(), sep) == first);
    } else {
        let init = rest.drop_last();
        lemma_join_front(first, init, sep);
        assert(all.drop_last() =~= seq![first] + init);
        assert(first + sep + join_text(init, sep) + sep + rest.last() =~= first + sep + (join_text(
            init,
            sep,
        ) + sep + rest.last()));
    }
}

/// A number that is written in decimal reads back.
pub proof fn lemma_decimal_reads_back(n: int)
    requires
        n >= 0,
    ensures
        decimal(n).len() > 0,
        all_digits(decimal(n)),
        value_of(decimal(n)) == n,
        n <= u64::MAX ==> parsed_u64(decimal(n)) == Some(n),
    decreases n,
{
    let d = decimal(n);
    if n >= 10 {
        lemma_decimal_reads_back(n / 10);
        assert(d.drop_last() =~= decimal(n / 10));
        assert forall|i: int| 0 <= i < d.len() implies is_digit(#[trigger] d[i]) by {
            if i < d.len() - 1 {
                assert(d[i] == decimal(n / 10)[i]);
            }
        }
    } else {
        assert(d.drop_last() =~= Seq::<char>::empty());
        assert(value_of(d.drop_last()) == 0);
    }
    assert(is_digit(d[0]));
}

/// Two numbers that are written alike are one.
pub proof fn lemma_decimal_tells_apart(a: int, b: int)
    requires
        a >= 0,
        b >= 0,
        decimal(a) == decimal(b),
    ensures
        a == b,
{
    lemma_decimal_reads_back(a);
    lemma_decimal_reads_back(b);
}

/// A text that was trimmed has no white space at its ends to trim.
pub proof fn lemma_trimmed_twice(s: Seq<char>)
    ensures
        trimmed(trimmed(s)) == trimmed(s),
{
    let front = drop_front(s, white_pred());
    let t = drop_back(front, white_pred());
    lemma_front_dropped(s, white_pred());
    lemma_back_dropped(front, white_pred());
    if t.len() > 0 {
        assert(t[0] == front[0]);
        assert(drop_front(t, white_pred()) == t);
    }
}

proof fn lemma_front_dropped(s: Seq<char>, p: spec_fn(char) -> bool)
    ensures
        drop_front(s, p).len() > 0 ==> !p(drop_front(s, p)[0]),
    decreases s.len(),
{
    if s.len() > 0 && p(s[0]) {
        lemma_front_dropped(s.skip(1), p);
    }
}

proof fn lemma_back_dropped(s: Seq<char>, p: spec_fn(char) -> bool)
    ensures
        drop_back(s, p).len() > 0 ==> !p(drop_back(s, p).last()) && drop_back(s, p)[0] == s[0],
        drop_back(s, p).len() <= s.len(),
    decreases s.len(),
{
    if s.len() > 0 && p(s.last()) {
        lemma_back_dropped(s.drop_last(), p);
    }
}

/// Keeping drops what is not wanted and nothing else.
pub proof fn lemma_kept(s: Seq<char>, p: spec_fn(char) -> bool)
    ensures
        forall|i: int| 0 <= i < kept(s, p).len() ==> p(#[trigger] kept(s, p)[i]),
        (forall|i: int| 0 <= i < s.len() ==> p(#[trigger] s[i])) ==> kept(s, p) == s,
        forall|c: char| p(c) ==> (#[trigger] kept(s, p).contains(c) <==> s.contains(c)),
        kept(s, p).len() <= s.len(),
    decreases s.len(),
{
    if s.len() > 0 {
        let rest = s.drop_last();
        lemma_kept(rest, p);
        assert(s =~= rest.push(s.last()));
        if p(s.last()) {
            let all = kept(rest, p).push(s.last());
            assert forall|c: char| p(c) implies (#[trigger] kept(s, p).contains(c) <==> s.contains(
                c,
            )) by {
                if s.contains(c) {
                    let i = choose|i: int| 0 <= i < s.len() && s[i] == c;
                    if i < rest.len() {
                        assert(rest[i] == c);
                        assert(kept(rest, p).contains(c));
                        let j = choose|j: int| 0 <= j < kept(rest, p).len() && kept(rest, p)[j] == c;
                        assert(all[j] == c);
                    } else {
                        assert(all[all.len() - 1] == c);
                    }
                }
                if all.contains(c) {
                    let j = choose|j: int| 0 <= j < all.len() && all[j] == c;
                    if j < kept(rest, p).len() {
                        assert(kept(rest, p)[j] == c);
                        assert(kept(rest, p).contains(c));
                        let i = choose|i: int| 0 <= i < rest.len() && rest[i] == c;
                        assert(s[i] == c);
                    } else {
                        assert(s[s.len() - 1] == c);
                    }
                }
            }
        } else {
            assert forall|c: char| p(c) implies (#[trigger] kept(s, p).contains(c) <==> s.contains(
                c,
            )) by {
                if s.contains(c) {
                    let i = choose|i: int| 0 <= i < s.len() && s[i] == c;
                    assert(i < rest.len());
                    assert(rest[i] == c);
                }
                if rest.contains(c) {
                    let i = choose|i: int| 0 <= i < rest.len() && rest[i] == c;
                    assert(s[i] == c);
                }
            }
        }
        if forall|i: int| 0 <= i < s.len() ==> p(#[trigger] s[i]) {
            assert(p(s[s.len() - 1]));
            assert forall|i: int| 0 <= i < rest.len() implies p(#[trigger] rest[i]) by {
                assert(p(s[i]));
            }
        }
    }
}

/// The last occurrence of a character is behind everything but what has none of it.
pub proof fn lemma_last_one(before: Seq<char>, c: char, after: Seq<char>, p: Seq<char>)
    requires
        !after.contains(c),
        p == seq![c],
    ensures
        rfind_text(before.push(c) + after, p) == Some(before.len() as int),
    decreases after.len(),
{
    let s = before.push(c) + after;
    if after.len() == 0 {
        assert(s =~= before.push(c));
        assert(s.skip(s.len() - 1) =~= p);
    } else {
        assert(after.contains(after.last()));
        assert(s.last() == after.last());
        assert(s.skip(s.len() - 1)[0] == after.last());
        assert(!ends(s, p));
        let rest = after.drop_last();
        assert forall|i: int| 0 <= i < rest.len() implies rest[i] != c by {
            assert(after.contains(after[i]));
        }
        assert(s.drop_last() =~= before.push(c) + rest);
        lemma_last_one(before, c, rest, p);
    }
}

/// Trimming adds nothing.
pub proof fn lemma_trimmed_part(s: Seq<char>, p: spec_fn(char) -> bool)
    requires
        forall|i: int| 0 <= i < s.len() ==> p(#[trigger] s[i]),
    ensures
        forall|i: int| 0 <= i < trimmed(s).len() ==> p(#[trigger] trimmed(s)[i]),
{
    let front = drop_front(s, white_pred());
    lemma_front_part(s, p);
    lemma_back_part(front, p);
}

proof fn lemma_front_part(s: Seq<char>, p: spec_fn(char) -> bool)
    requires
        forall|i: int| 0 <= i < s.len() ==> p(#[trigger] s[i]),
    ensures
        forall|i: int|
            0 <= i < drop_front(s, white_pred()).len() ==> p(
                #[trigger] drop_front(s, white_pred())[i],
            ),
    decreases s.len(),
{
    if s.len() > 0 && white_pred()(s[0]) {
        let rest = s.skip(1);
        assert forall|i: int| 0 <= i < rest.len() implies p(#[trigger] rest[i]) by {
            assert(p(s[i + 1]));
        }
        lemma_front_part(rest, p);
        assert(drop_front(s, white_pred()) == drop_front(rest, white_pred()));
    } else {
        assert(drop_front(s, white_pred()) == s);
    }
}

proof fn lemma_back_part(s: Seq<char>, p: spec_fn(char) -> bool)
    requires
        forall|i: int| 0 <= i < s.len() ==> p(#[trigger] s[i]),
    ensures
        forall|i: int|
            0 <= i < drop_back(s, white_pred()).len() ==> p(
                #[trigger] drop_back(s, white_pred())[i],
            ),
    decreases s.len(),
{
    if s.len() > 0 && white_pred()(s.last()) {
        let rest = s.drop_last();
        assert forall|i: int| 0 <= i < rest.len() implies p(#[trigger] rest[i]) by {
            assert(p(s[i]));
        }
        lemma_back_part(rest, p);
        assert(drop_back(s, white_pred()) == drop_back(rest, white_pred()));
    } else {
        assert(drop_back(s, white_pred()) == s);
    }
}

/// The first occurrence of a character is before everything but what has none of it, and
/// a text that is split there has that before it and the rest behind.
pub proof fn lemma_first_one(before: Seq<char>, c: char, after: Seq<char>, p: Seq<char>)
    requires
        !before.contains(c),
        p == seq![c],
    ensures
        find_text(before.push(c) + after, p) == Some(before.len() as int),
        split_once_text(before.push(c) + after, p) == Some((before, after)),
    decreases before.len(),
{
    let s = before.push(c) + after;
    if before.len() == 0 {
        assert(s.take(1) =~= p);
    } else {
        assert(before.contains(before[0]));
        assert(s.take(1)[0] == before[0]);
        assert(!begins(s, p));
        let rest = before.skip(1);
        assert forall|i: int| 0 <= i < rest.len() implies rest[i] != c by {
            assert(before.contains(before[i + 1]));
        }
        assert(s.skip(1) =~= rest.push(c) + after);
        lemma_first_one(rest, c, after, p);
    }
    assert(s.take(before.len() as int) =~= before);
    assert(s.skip((before.len() + 1) as int) =~= after);
}

/// A text without the character keeps still where it is replaced.
pub proof fn lemma_nothing_to_replace(s: Seq<char>, c: char, p: Seq<char>, by: Seq<char>)
    requires
        !s.contains(c),
        p == seq![c],
    ensures
        replaced(s, p, by) == s,
    decreases s.len(),
{
    if s.len() > 0 {
        assert(s.contains(s[0]));
        assert(s.take(1)[0] == s[0]);
        assert(!begins(s, p));
        let rest = s.skip(1);
        assert forall|i: int| 0 <= i < rest.len() implies rest[i] != c by {
            assert(s.contains(s[i + 1]));
        }
        lemma_nothing_to_replace(rest, c, p, by);
        assert(seq![s[0]] + rest =~= s);
    }
}

/// A text that begins with what is replaced begins with what stands for it, and the rest
/// is replaced likewise.
pub proof fn lemma_replaced_in_turn(s: Seq<char>, p: Seq<char>, by: Seq<char>, c: char)
    requires
        p.len() > 0,
    ensures
        replaced(p + s, p, by) == by + replaced(s, p, by),
        !begins(seq![c] + s, p) ==> replaced(seq![c] + s, p, by) == seq![c] + replaced(s, p, by) || s.len()
            + 1 < p.len(),
{
    let t = p + s;
    assert(t.take(p.len() as int) =~= p);
    assert(t.skip(p.len() as int) =~= s);
    let u = seq![c] + s;
    assert(u.skip(1) =~= s);
}

/// Letters change their case and nothing else does.
pub proof fn lemma_cases_of_letters(s: Seq<char>, i: int)
    requires
        0 <= i < s.len(),
    ensures
        lowered(s).len() == s.len() && uppered(s).len() == s.len(),
        'A' <= s[i] <= 'Z' ==> lowered(s)[i] as int == s[i] as int + 32,
        !('A' <= s[i] <= 'Z') ==> lowered(s)[i] == s[i],
        'a' <= s[i] <= 'z' ==> uppered(s)[i] as int == s[i] as int - 32,
        !('a' <= s[i] <= 'z') ==> uppered(s)[i] == s[i],
{
}

/// The parts of a text are split where the character stands.
pub proof fn lemma_pieces_in_turn(s: Seq<char>, p: spec_fn(char) -> bool, c: char)
    ensures
        pieces(Seq::empty(), p) == seq![Seq::<char>::empty()],
        p(c) ==> pieces(s.push(c), p) == pieces(s, p).push(Seq::empty()),
        !p(c) ==> pieces(s.push(c), p).len() == pieces(s, p).len() && pieces(s.push(c), p).last()
            == pieces(s, p).last().push(c),
{
    assert(s.push(c).drop_last() =~= s);
    lemma_pieces_nonempty(s, p);
}

/// A number is read with or without a sign before it, and not where anything else stands.
pub proof fn lemma_numbers_are_read(n: int)
    requires
        0 <= n <= i64::MAX,
    ensures
        parsed_u64(decimal(n)) == Some(n),
        parsed_u64(seq!['+'] + decimal(n)) == Some(n),
        parsed_i64(decimal(n)) == Some(n),
        parsed_i64(seq!['-'] + decimal(n)) == Some(-n),
        parsed_u64(seq!['-'] + decimal(n)) is None,
        parsed_u64(Seq::empty()) is None,
        parsed_u64(decimal(n).push(' ')) is None,
{
    lemma_decimal_reads_back(n);
    let d = decimal(n);
    let plus = seq!['+'] + d;
    let minus = seq!['-'] + d;
    assert(plus.skip(1) =~= d);
    assert(minus.skip(1) =~= d);
    assert(is_digit(d[0]));
    assert(!is_digit(minus[0]));
    let sp = d.push(' ');
    assert(!is_digit(sp[sp.len() - 1]));
}

/// What stands behind a beginning is the rest.
pub proof fn lemma_after_prefixes(p: Seq<char>, rest: Seq<char>)
    ensures
        after_prefix(p + rest, p) == Some(rest),
        begins(p + rest, p),
        ends(rest + p, p),
{
    assert((p + rest).take(p.len() as int) =~= p);
    assert((p + rest).skip(p.len() as int) =~= rest);
    let t = rest + p;
    assert(t.skip(t.len() - p.len()) =~= p);
}

/// Texts are ordered by their first difference, and a beginning comes first.
pub proof fn lemma_order_of_texts(p: Seq<char>, a: char, b: char, s: Seq<char>, t: Seq<char>)
    requires
        a < b,
    ensures
        at_most(p + (seq![a] + s), p + (seq![b] + t)),
        !at_most(p + (seq![b] + t), p + (seq![a] + s)),
        at_most(p, p + s),
    decreases p.len(),
{
    let x = p + (seq![a] + s);
    let y = p + (seq![b] + t);
    let z = p + s;
    if p.len() > 0 {
        let q = p.skip(1);
        assert(x.skip(1) =~= q + (seq![a] + s));
        assert(y.skip(1) =~= q + (seq![b] + t));
        assert(z.skip(1) =~= q + s);
        lemma_order_of_texts(q, a, b, s, t);
    }
}

} // verus!
