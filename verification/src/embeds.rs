//! What the bot posts, as plain values.
use vstd::prelude::*;
use vstd::string::*;

use crate::config;
use crate::config::Config;
use crate::formatting;
use crate::formatting::{Category, Limits, Palette};
use crate::models;
use crate::models::ChatRow;
use crate::text;

verus! {

pub struct EmbedAuthor {
    pub name: String,
    pub icon_url: String,
}

pub struct EmbedField {
    pub name: String,
    pub value: String,
    pub inline: bool,
}

pub struct EmbedFooter {
    pub text: String,
    pub icon_url: Option<String>,
}

/// A post with a coloured edge.
pub struct Embed {
    pub colour: u32,
    pub title: Option<String>,
    pub description: Option<String>,
    pub author: Option<EmbedAuthor>,
    pub thumbnail: Option<String>,
    pub fields: Vec<EmbedField>,
    pub footer: Option<EmbedFooter>,
    /// Microseconds since the epoch.
    pub timestamp: Option<i64>,
}

/// The contents of an [`Embed`].
#[verifier::ext_equal]
pub struct EmbedText {
    pub colour: u32,
    pub title: Option<Seq<char>>,
    pub description: Option<Seq<char>>,
    pub author: Option<(Seq<char>, Seq<char>)>,
    pub thumbnail: Option<Seq<char>>,
    pub fields: Seq<(Seq<char>, Seq<char>, bool)>,
    pub footer: Option<(Seq<char>, Option<Seq<char>>)>,
    pub timestamp: Option<i64>,
}

pub open spec fn field_texts(v: Seq<EmbedField>) -> Seq<(Seq<char>, Seq<char>, bool)> {
    Seq::new(v.len(), |i: int| (v[i].name@, v[i].value@, v[i].inline))
}

impl View for Embed {
    type V = EmbedText;

    open spec fn view(&self) -> EmbedText {
        EmbedText {
            colour: self.colour,
            title: text::opt_text(self.title),
            description: text::opt_text(self.description),
            author: match self.author {
                Some(a) => Some((a.name@, a.icon_url@)),
                None => None,
            },
            thumbnail: text::opt_text(self.thumbnail),
            fields: field_texts(self.fields@),
            footer: match self.footer {
                Some(f) => Some((f.text@, text::opt_text(f.icon_url))),
                None => None,
            },
            timestamp: self.timestamp,
        }
    }
}

/// An embed of a colour and nothing else.
pub open spec fn blank(colour: u32) -> EmbedText {
    EmbedText {
        colour,
        title: None,
        description: None,
        author: None,
        thumbnail: None,
        fields: Seq::empty(),
        footer: None,
        timestamp: None,
    }
}

impl Embed {
    pub fn new(colour: u32) -> (e: Self)
        ensures
            e@ == blank(colour),
    {
        let e = Embed {
            colour,
            title: None,
            description: None,
            author: None,
            thumbnail: None,
            fields: Vec::new(),
            footer: None,
            timestamp: None,
        };
        assert(e@ =~= blank(colour));
        e
    }

    pub fn titled(self, title: String) -> (e: Self)
        ensures
            e@ == (EmbedText { title: Some(title@), ..self@ }),
    {
        Embed { title: Some(title), ..self }
    }

    pub fn described(self, description: String) -> (e: Self)
        ensures
            e@ == (EmbedText { description: Some(description@), ..self@ }),
    {
        Embed { description: Some(description), ..self }
    }

    pub fn with_footer(self, footer: String) -> (e: Self)
        ensures
            e@ == (EmbedText { footer: Some((footer@, None)), ..self@ }),
    {
        Embed { footer: Some(EmbedFooter { text: footer, icon_url: None }), ..self }
    }

    pub fn at(self, us: i64) -> (e: Self)
        ensures
            e@ == (EmbedText { timestamp: Some(us), ..self@ }),
    {
        Embed { timestamp: Some(us), ..self }
    }

    /// The head and name of a player above the title.
    pub fn authored(self, name: &str, config: &Config) -> (e: Self)
        ensures
            e@ == (EmbedText { author: Some(author_of_player(name@, config@)), ..self@ }),
    {
        Embed {
            author: Some(
                EmbedAuthor { name: text::copy(name), icon_url: config.head_url_name(name) },
            ),
            ..self
        }
    }

    /// The picture of a player beside the text.
    pub fn picturing(self, name: &str, config: &Config) -> (e: Self)
        ensures
            e@ == (EmbedText { thumbnail: Some(config::body_url(name@)), ..self@ }),
    {
        Embed { thumbnail: Some(config.body_url_name(name)), ..self }
    }

    pub fn field(self, name: &str, value: String, inline: bool) -> (e: Self)
        ensures
            e@ == (EmbedText { fields: self@.fields.push((name@, value@, inline)), ..self@ }),
    {
        let ghost before = self@;
        let mut fields = self.fields;
        let ghost old_fields = fields@;
        fields.push(EmbedField { name: text::copy(name), value, inline });
        assert(field_texts(fields@) =~= field_texts(old_fields).push((name@, value@, inline)));
        Embed { fields, ..self }
    }
}

pub open spec fn author_of_player(name: Seq<char>, config: config::ConfigText) -> (Seq<char>, Seq<char>) {
    (name, config::head_url(name, config.head_size as int))
}

fn lines() -> (v: Vec<String>)
    ensures
        text::texts(v@) == Seq::<Seq<char>>::empty(),
{
    let v: Vec<String> = Vec::new();
    assert(text::texts(v@) =~= Seq::<Seq<char>>::empty());
    v
}

fn line(v: &mut Vec<String>, s: String)
    ensures
        text::texts(final(v)@) == text::texts(old(v)@).push(s@),
{
    proof {
        text::lemma_texts_push(v@, s);
    }
    v.push(s);
}

// ---------------------------------------------------------------------------
// Notices
// ---------------------------------------------------------------------------

pub open spec fn skeleton_text(category: Category, now_us: i64) -> EmbedText {
    EmbedText {
        timestamp: Some(now_us),
        ..blank(formatting::category_colour(category))
    }
}

pub fn skeleton(category: Category, now_us: i64) -> (e: Embed)
    ensures
        e@ == skeleton_text(category, now_us),
{
    Embed::new(category.color()).at(now_us)
}

pub fn with_context(embed: Embed, server_label: &str, extra: &Vec<String>) -> (e: Embed)
    ensures
        e@ == (EmbedText {
            footer: Some(
                (formatting::footer_text(server_label@, text::texts(extra@)), None),
            ),
            ..embed@
        }),
{
    embed.with_footer(formatting::footer(server_label, extra))
}

/// A notice in a colour.
pub open spec fn notice_text(colour: u32, title: Seq<char>, body: Seq<char>, now_us: i64) -> EmbedText {
    EmbedText {
        title: Some(title),
        description: Some(body),
        timestamp: Some(now_us),
        ..blank(colour)
    }
}

pub fn notice(title: &str, body: &str, now_us: i64) -> (e: Embed)
    ensures
        e@ == notice_text(
            formatting::category_colour(Category::Server),
            title@,
            body@,
            now_us,
        ),
{
    skeleton(Category::Server, now_us).titled(text::copy(title)).described(text::copy(body))
}

/// The colour of warnings.
pub const WARNING_COLOUR: u32 = 0xfaa61a;

pub fn warning(title: &str, body: &str, now_us: i64) -> (e: Embed)
    ensures
        e@ == notice_text(WARNING_COLOUR, title@, body@, now_us),
{
    Embed::new(WARNING_COLOUR).titled(text::copy(title)).described(text::copy(body)).at(now_us)
}

pub fn failure(title: &str, body: &str, now_us: i64) -> (e: Embed)
    ensures
        e@ == notice_text(Palette::LEAVE, title@, body@, now_us),
{
    Embed::new(Palette::LEAVE).titled(text::copy(title)).described(text::copy(body)).at(now_us)
}

pub fn not_found(title: &str, body: &str, now_us: i64) -> (e: Embed)
    ensures
        e@ == notice_text(WARNING_COLOUR, title@, body@, now_us),
{
    warning(title, body, now_us)
}

// ---------------------------------------------------------------------------
// Lines of the feed
// ---------------------------------------------------------------------------

pub open spec fn is_chat(kind: Seq<char>) -> bool {
    kind == "chat"@ || kind == "c"@
}

pub open spec fn is_whisper(kind: Seq<char>) -> bool {
    kind == "whisper"@ || kind == "w"@
}

fn chat_kind(kind: &str) -> (b: bool)
    ensures
        b == is_chat(kind@),
{
    text::same(kind, "chat") || text::same(kind, "c")
}

fn whisper_kind(kind: &str) -> (b: bool)
    ensures
        b == is_whisper(kind@),
{
    text::same(kind, "whisper") || text::same(kind, "w")
}

/// The first of two that is there.
pub open spec fn or_else(a: Option<Seq<char>>, b: Option<Seq<char>>) -> Option<Seq<char>> {
    if a is Some {
        a
    } else {
        b
    }
}

fn first_of<'a>(a: &'a Option<String>, b: &'a Option<String>) -> (r: Option<&'a str>)
    ensures
        text::opt_str(r) == or_else(text::opt_text(*a), text::opt_text(*b)),
{
    match a {
        Some(s) => Some(s.as_str()),
        None => match b {
            Some(s) => Some(s.as_str()),
            None => None,
        },
    }
}

/// Whom a line is about.
pub open spec fn subject_of(row: models::ChatRowText) -> Option<Seq<char>> {
    or_else(row.sender_name, row.subject_name)
}

/// Who is shown as the author of a line: of chat the decorated name.
pub open spec fn author_of(row: models::ChatRowText) -> Option<Seq<char>> {
    if is_chat(row.kind) || is_whisper(row.kind) {
        or_else(row.sender_label, subject_of(row))
    } else {
        subject_of(row)
    }
}

fn subject(row: &ChatRow) -> (r: Option<&str>)
    ensures
        text::opt_str(r) == subject_of(row@),
{
    first_of(&row.sender_name, &row.subject_name)
}

fn author(row: &ChatRow) -> (r: Option<&str>)
    ensures
        text::opt_str(r) == author_of(row@),
{
    if chat_kind(&row.kind) || whisper_kind(&row.kind) {
        match &row.sender_label {
            Some(s) => Some(s.as_str()),
            None => subject(row),
        }
    } else {
        subject(row)
    }
}

/// The sentence of a death: the stored one where it names the player, or else one
/// that is put together.
pub open spec fn death_sentence(name: Seq<char>, killer: Option<Seq<char>>, stored: Seq<char>) -> Seq<
    char,
> {
    if stored.len() > 0 && text::has_text(stored, name) {
        stored
    } else {
        match killer {
            Some(k) if k.len() > 0 => name + " was slain by "@ + k,
            _ => name + " died"@,
        }
    }
}

pub fn reconstruct_death(name: &str, killer: &Option<String>, stored: &str) -> (r: String)
    ensures
        r@ == death_sentence(name@, text::opt_text(*killer), stored@),
{
    if !stored.is_empty() && text::has(stored, name) {
        return text::copy(stored);
    }
    match killer {
        Some(k) => if k.as_str().is_empty() {
            text::cat2(name, " died")
        } else {
            text::cat3(name, " was slain by ", k)
        },
        None => text::cat2(name, " died"),
    }
}

/// The sentence of an advancement: the stored one where it is a full line, or else
/// one round its title.
pub open spec fn advancement_sentence(name: Seq<char>, stored: Seq<char>) -> Seq<char> {
    if stored.len() == 0 {
        name + " has made an advancement"@
    } else if text::has_text(stored, name) && (text::has_text(stored, "advancement"@)
        || text::has_text(stored, "challenge"@) || text::has_text(stored, "goal"@)) {
        stored
    } else {
        name + " has made the advancement "@ + text::trimmed(stored)
    }
}

pub fn reconstruct_advancement(name: &str, stored: &str) -> (r: String)
    ensures
        r@ == advancement_sentence(name@, stored@),
{
    if stored.is_empty() {
        return text::cat2(name, " has made an advancement");
    }
    if text::has(stored, name) && (text::has(stored, "advancement") || text::has(
        stored,
        "challenge",
    ) || text::has(stored, "goal")) {
        return text::copy(stored);
    }
    text::cat3(name, " has made the advancement ", &text::trim(stored))
}

/// What a line says.
pub open spec fn body_of(row: models::ChatRowText) -> Seq<char> {
    let name = match or_else(row.subject_name, row.sender_name) {
        Some(n) => n,
        None => "?"@,
    };
    let stored = text::trimmed(row.plain_text);
    if row.kind == "j"@ || row.kind == "join"@ {
        if stored.len() > 0 {
            row.plain_text
        } else {
            name + " joined the game"@
        }
    } else if row.kind == "l"@ || row.kind == "leave"@ {
        if stored.len() > 0 {
            row.plain_text
        } else {
            name + " left the game"@
        }
    } else if row.kind == "d"@ || row.kind == "death"@ {
        death_sentence(name, row.killer_name, stored)
    } else if row.kind == "a"@ || row.kind == "advancement"@ {
        advancement_sentence(name, stored)
    } else if stored.len() > 0 {
        row.plain_text
    } else {
        " "@
    }
}

fn body(row: &ChatRow) -> (r: String)
    ensures
        r@ == body_of(row@),
{
    let name: &str = match first_of(&row.subject_name, &row.sender_name) {
        Some(n) => n,
        None => "?",
    };
    let stored = text::trim(&row.plain_text);
    let empty = stored.as_str().is_empty();
    let kind = row.kind.as_str();
    if text::same(kind, "j") || text::same(kind, "join") {
        if !empty {
            row.plain_text.clone()
        } else {
            text::cat2(name, " joined the game")
        }
    } else if text::same(kind, "l") || text::same(kind, "leave") {
        if !empty {
            row.plain_text.clone()
        } else {
            text::cat2(name, " left the game")
        }
    } else if text::same(kind, "d") || text::same(kind, "death") {
        reconstruct_death(name, &row.killer_name, &stored)
    } else if text::same(kind, "a") || text::same(kind, "advancement") {
        reconstruct_advancement(name, &stored)
    } else if !empty {
        row.plain_text.clone()
    } else {
        text::copy(" ")
    }
}

/// A sentence with the name at its head in bold.
pub open spec fn name_first(subject: Option<Seq<char>>, body: Seq<char>) -> Seq<char> {
    match subject {
        Some(name) => match text::after_prefix(body, formatting::escaped(name)) {
            Some(rest) => formatting::bold_text(formatting::escaped(name)) + rest,
            None => body,
        },
        None => body,
    }
}

fn lead_with_name(subject: Option<&str>, body: &str) -> (r: String)
    ensures
        r@ == name_first(text::opt_str(subject), body@),
{
    match subject {
        Some(name) => {
            let escaped = formatting::escape_md(name);
            match text::strip_prefix(body, &escaped) {
                Some(rest) => text::cat2(&formatting::bold(&escaped), &rest),
                None => text::copy(body),
            }
        },
        None => text::copy(body),
    }
}

/// The colour of a line of the feed. Chat has that of the background, so that only
/// events draw the eye.
pub open spec fn feed_colour(kind: Seq<char>) -> u32 {
    if is_chat(kind) {
        Palette::MUTED
    } else {
        formatting::colour_of(kind)
    }
}

/// The text of an event.
pub open spec fn event_description(row: models::ChatRowText) -> Seq<char> {
    let body = formatting::escaped(body_of(row));
    let speaker = formatting::escaped(
        match author_of(row) {
            Some(name) => name,
            None => row.kind,
        },
    );
    if is_chat(row.kind) {
        formatting::bold_text(speaker + ":"@) + " "@ + body
    } else if is_whisper(row.kind) {
        formatting::bold_text(speaker + ":"@) + " "@ + formatting::italic_text(body)
    } else {
        name_first(subject_of(row), body)
    }
}

/// An event as an embed: the head of the player stands beside the time. The footer
/// holds a space of no width, because one without text is dropped with its icon.
pub open spec fn event_embed(
    row: models::ChatRowText,
    head_url: Option<Seq<char>>,
    rainbow: Option<u32>,
) -> EmbedText {
    EmbedText {
        description: Some(
            formatting::clamped(event_description(row), Limits::DESCRIPTION as int),
        ),
        timestamp: Some(row.received_at),
        footer: Some(("\u{200b}"@, head_url)),
        ..blank(
            match rainbow {
                Some(colour) => colour,
                None => feed_colour(row.kind),
            },
        )
    }
}

/// Builds the embed of an event. `rainbow` is the colour of the moment where the
/// channel wants one.
pub fn build_event_embed(row: &ChatRow, head_url: Option<String>, rainbow: Option<u32>) -> (e: Embed)
    ensures
        e@ == event_embed(row@, text::opt_text(head_url), rainbow),
{
    let kind = row.kind.as_str();
    let said = formatting::escape_md(&body(row));
    let speaker = match author(row) {
        Some(name) => formatting::escape_md(name),
        None => formatting::escape_md(kind),
    };
    let description = if chat_kind(kind) {
        text::cat3(&formatting::bold(&text::cat2(&speaker, ":")), " ", &said)
    } else if whisper_kind(kind) {
        text::cat3(
            &formatting::bold(&text::cat2(&speaker, ":")),
            " ",
            &formatting::italic(&said),
        )
    } else {
        lead_with_name(subject(row), &said)
    };
    let colour: u32 = match rainbow {
        Some(colour) => colour,
        None => if chat_kind(kind) {
            Palette::MUTED
        } else {
            formatting::kind_color(kind)
        },
    };
    let base = Embed::new(colour).described(
        formatting::clamp(&description, Limits::DESCRIPTION),
    ).at(row.received_at);
    Embed {
        footer: Some(EmbedFooter { text: text::copy("\u{200b}"), icon_url: head_url }),
        ..base
    }
}

/// An event as a line.
pub open spec fn feed_line_text(row: models::ChatRowText) -> Seq<char> {
    let when = formatting::time_tag(row.received_at as int, "t"@);
    let body = formatting::log_line(body_of(row));
    let name = author_of(row);
    if is_chat(row.kind) {
        when + " "@ + formatting::name_text(
            if name is Some {
                name
            } else {
                subject_of(row)
            },
        ) + "  "@ + body
    } else if is_whisper(row.kind) {
        when + " "@ + formatting::name_text(name) + "  "@ + formatting::italic_text(
            "whispers: "@ + body,
        )
    } else {
        when + " "@ + formatting::italic_text(body)
    }
}

pub fn feed_line(row: &ChatRow) -> (r: String)
    ensures
        r@ == feed_line_text(row@),
{
    let when = formatting::short_time(row.received_at);
    let said = formatting::log_text(&body(row));
    let name = author(row);
    if chat_kind(&row.kind) {
        let shown = match name {
            Some(n) => formatting::player_name(Some(n)),
            None => formatting::player_name(subject(row)),
        };
        text::cat5(&when, " ", &shown, "  ", &said)
    } else if whisper_kind(&row.kind) {
        text::cat5(
            &when,
            " ",
            &formatting::player_name(name),
            "  ",
            &formatting::italic(&text::cat2("whispers: ", &said)),
        )
    } else {
        text::cat3(&when, " ", &formatting::italic(&said))
    }
}

/// How many bytes a row takes in a post.
pub open spec fn row_cost(row: models::ChatRowText) -> int {
    text::byte_len(feed_line_text(row)) + 1
}

/// Rows in groups: those that are full, the one that is being filled, and how many
/// bytes that one takes.
#[verifier::ext_equal]
pub struct Packing {
    pub full: Seq<Seq<models::ChatRowText>>,
    pub open: Seq<models::ChatRowText>,
    pub used: int,
}

/// Puts a row behind the others, in a new group where the last has no room.
pub open spec fn pack_row(p: Packing, row: models::ChatRowText, max_lines: int) -> Packing {
    if p.open.len() > 0 && (p.open.len() >= max_lines || p.used + row_cost(row)
        > Limits::DESCRIPTION) {
        Packing { full: p.full.push(p.open), open: seq![row], used: row_cost(row) }
    } else {
        Packing { full: p.full, open: p.open.push(row), used: p.used + row_cost(row) }
    }
}

pub open spec fn packing(rows: Seq<models::ChatRowText>, max_lines: int) -> Packing
    decreases rows.len(),
{
    if rows.len() == 0 {
        Packing { full: Seq::empty(), open: Seq::empty(), used: 0 }
    } else {
        pack_row(packing(rows.drop_last(), max_lines), rows.last(), max_lines)
    }
}

/// The groups of rows that are posted together.
pub open spec fn packed(rows: Seq<models::ChatRowText>, max_lines: int) -> Seq<
    Seq<models::ChatRowText>,
> {
    let p = packing(rows, max_lines);
    if p.open.len() > 0 {
        p.full.push(p.open)
    } else {
        p.full
    }
}

pub open spec fn group_texts(v: Seq<Vec<ChatRow>>) -> Seq<Seq<models::ChatRowText>> {
    Seq::new(v.len(), |i: int| models::row_texts(v[i]@))
}

pub fn pack_feed(rows: &Vec<ChatRow>, max_lines: usize) -> (r: Vec<Vec<ChatRow>>)
    ensures
        group_texts(r@) == packed(models::row_texts(rows@), max_lines as int),
{
    let ghost all = models::row_texts(rows@);
    let mut groups: Vec<Vec<ChatRow>> = Vec::new();
    let mut open: Vec<ChatRow> = Vec::new();
    let mut used: u128 = 0;
    assert(group_texts(groups@) =~= Seq::<Seq<models::ChatRowText>>::empty());
    assert(models::row_texts(open@) =~= Seq::<models::ChatRowText>::empty());
    for i in 0..rows.len()
        invariant
            all == models::row_texts(rows@),
            used <= 4096 + 0x1_0000_0000_0000_0000,
            packing(all.take(i as int), max_lines as int) == (Packing {
                full: group_texts(groups@),
                open: models::row_texts(open@),
                used: used as int,
            }),
    {
        proof {
            assert(all.take(i + 1).drop_last() =~= all.take(i as int));
            assert(all.take(i + 1).last() == rows[i as int]@);
        }
        let shown = feed_line(&rows[i]);
        let cost: u128 = text::bytes_in(&shown) as u128 + 1;
        assert(cost == row_cost(rows[i as int]@));
        let row = rows[i].copy();
        if open.len() > 0 && (open.len() >= max_lines || used + cost > 4096) {
            let ghost before = groups@;
            let ghost filled = models::row_texts(open@);
            let mut next: Vec<ChatRow> = Vec::new();
            next.push(row);
            assert(models::row_texts(next@) =~= seq![rows[i as int]@]);
            std::mem::swap(&mut open, &mut next);
            groups.push(next);
            assert(group_texts(groups@) =~= group_texts(before).push(filled));
            used = cost;
        } else {
            let ghost before = models::row_texts(open@);
            open.push(row);
            assert(models::row_texts(open@) =~= before.push(rows[i as int]@));
            used = used + cost;
        }
    }
    assert(all.take(all.len() as int) =~= all);
    if open.len() > 0 {
        let ghost before = groups@;
        groups.push(open);
        assert(group_texts(groups@) =~= group_texts(before).push(models::row_texts(open@)));
    }
    groups
}

/// The rows of the groups in a row.
pub open spec fn flattened(groups: Seq<Seq<models::ChatRowText>>) -> Seq<models::ChatRowText>
    decreases groups.len(),
{
    if groups.len() == 0 {
        Seq::empty()
    } else {
        flattened(groups.drop_last()) + groups.last()
    }
}

/// How many bytes rows take together.
pub open spec fn total_cost(rows: Seq<models::ChatRowText>) -> int
    decreases rows.len(),
{
    if rows.len() == 0 {
        0
    } else {
        total_cost(rows.drop_last()) + row_cost(rows.last())
    }
}

/// Whether a group of rows may be posted: it has a row, and unless it is a single
/// row no more than it may have, and fits in a post.
pub open spec fn postable(group: Seq<models::ChatRowText>, max_lines: int) -> bool {
    &&& 0 < group.len()
    &&& group.len() == 1 || group.len() <= max_lines && total_cost(group) <= Limits::DESCRIPTION
}

proof fn lemma_packing(rows: Seq<models::ChatRowText>, max_lines: int)
    ensures
        ({
            let p = packing(rows, max_lines);
            &&& flattened(p.full) + p.open == rows
            &&& forall|i: int|
                0 <= i < p.full.len() ==> postable(#[trigger] p.full[i], max_lines)
            &&& p.open.len() == 0 || postable(p.open, max_lines)
            &&& p.used == total_cost(p.open)
        }),
    decreases rows.len(),
{
    if rows.len() == 0 {
        assert(flattened(packing(rows, max_lines).full) + packing(rows, max_lines).open =~= rows);
    } else {
        let before = rows.drop_last();
        lemma_packing(before, max_lines);
        let p = packing(before, max_lines);
        let q = packing(rows, max_lines);
        let row = rows.last();
        assert(rows =~= before.push(row));
        if p.open.len() > 0 && (p.open.len() >= max_lines || p.used + row_cost(row)
            > Limits::DESCRIPTION) {
            assert(q.full.drop_last() =~= p.full);
            assert(flattened(q.full) + q.open =~= rows);
            assert(q.open.drop_last() =~= Seq::<models::ChatRowText>::empty());
            assert(total_cost(q.open.drop_last()) == 0);
            assert forall|i: int| 0 <= i < q.full.len() implies postable(
                #[trigger] q.full[i],
                max_lines,
            ) by {
                if i < p.full.len() {
                    assert(q.full[i] == p.full[i]);
                }
            }
        } else {
            assert(q.open.drop_last() =~= p.open);
            assert(total_cost(q.open) == total_cost(p.open) + row_cost(row));
            assert(flattened(q.full) + q.open =~= rows);
            assert(postable(q.open, max_lines));
        }
    }
}

/// No row is lost, doubled or moved by posting rows together, and every group can
/// be posted.
pub proof fn lemma_packing_keeps_rows(rows: Seq<models::ChatRowText>, max_lines: int)
    ensures
        flattened(packed(rows, max_lines)) == rows,
        forall|i: int|
            0 <= i < packed(rows, max_lines).len() ==> postable(
                #[trigger] packed(rows, max_lines)[i],
                max_lines,
            ),
{
    lemma_packing(rows, max_lines);
    let p = packing(rows, max_lines);
    let all = packed(rows, max_lines);
    if p.open.len() > 0 {
        assert(all.drop_last() =~= p.full);
        assert forall|i: int| 0 <= i < all.len() implies postable(#[trigger] all[i], max_lines) by {
            if i < p.full.len() {
                assert(all[i] == p.full[i]);
            }
        }
    } else {
        assert(flattened(p.full) + p.open =~= flattened(p.full));
    }
}

/// The host of the first row that has one.
pub open spec fn first_host(rows: Seq<models::ChatRowText>) -> Option<Seq<char>>
    decreases rows.len(),
{
    if rows.len() == 0 {
        None
    } else {
        match first_host(rows.drop_last()) {
            Some(h) => Some(h),
            None => rows.last().server_host,
        }
    }
}

fn find_host(rows: &Vec<ChatRow>) -> (r: Option<&str>)
    ensures
        text::opt_str(r) == first_host(models::row_texts(rows@)),
{
    let ghost all = models::row_texts(rows@);
    let mut found: Option<&str> = None;
    for i in 0..rows.len()
        invariant
            all == models::row_texts(rows@),
            text::opt_str(found) == first_host(all.take(i as int)),
    {
        assert(all.take(i + 1).drop_last() =~= all.take(i as int));
        if found.is_none() {
            found = match &rows[i].server_host {
                Some(h) => Some(h.as_str()),
                None => None,
            };
        }
    }
    assert(all.take(all.len() as int) =~= all);
    found
}

pub open spec fn feed_lines(rows: Seq<models::ChatRowText>) -> Seq<Seq<char>> {
    Seq::new(rows.len(), |i: int| feed_line_text(rows[i]))
}

fn make_feed_lines(rows: &Vec<ChatRow>) -> (r: Vec<String>)
    ensures
        text::texts(r@) == feed_lines(models::row_texts(rows@)),
{
    let ghost goal = feed_lines(models::row_texts(rows@));
    let mut r = lines();
    assert(goal.take(0) =~= Seq::<Seq<char>>::empty());
    for i in 0..rows.len()
        invariant
            goal == feed_lines(models::row_texts(rows@)),
            text::texts(r@) == goal.take(i as int),
    {
        let l = feed_line(&rows[i]);
        assert(goal[i as int] == l@);
        line(&mut r, l);
        assert(text::texts(r@) =~= goal.take(i + 1));
    }
    assert(goal.take(goal.len() as int) =~= goal);
    r
}

/// How many lines, in words.
pub open spec fn line_count(n: int) -> Seq<char> {
    text::decimal(n) + " "@ + (if n == 1 {
        "line"@
    } else {
        "lines"@
    })
}

/// Several events in one embed.
pub open spec fn batch_embed(
    rows: Seq<models::ChatRowText>,
    server_label: Seq<char>,
    rainbow: Option<u32>,
    now_us: i64,
) -> EmbedText {
    EmbedText {
        description: Some(
            formatting::joined_lines(feed_lines(rows), Limits::DESCRIPTION as int),
        ),
        footer: Some(
            (
                formatting::footer_text(
                    match first_host(rows) {
                        Some(h) => h,
                        None => server_label,
                    },
                    seq![line_count(rows.len() as int)],
                ),
                None,
            ),
        ),
        timestamp: Some(
            if rows.len() > 0 {
                rows.last().received_at
            } else {
                now_us
            },
        ),
        ..blank(
            match rainbow {
                Some(colour) => colour,
                None => Palette::BRAND,
            },
        )
    }
}

pub fn build_feed_batch_embed(
    rows: &Vec<ChatRow>,
    server_label: &str,
    rainbow: Option<u32>,
    now_us: i64,
) -> (e: Embed)
    ensures
        e@ == batch_embed(models::row_texts(rows@), server_label@, rainbow, now_us),
{
    let host: &str = match find_host(rows) {
        Some(h) => h,
        None => server_label,
    };
    let word: &str = if rows.len() == 1 {
        "line"
    } else {
        "lines"
    };
    let mut extra = lines();
    line(&mut extra, text::cat3(&text::number(rows.len() as u64), " ", word));
    assert(text::texts(extra@) =~= seq![line_count(rows.len() as int)]);
    let ts: i64 = if rows.len() > 0 {
        rows[rows.len() - 1].received_at
    } else {
        now_us
    };
    let colour: u32 = match rainbow {
        Some(colour) => colour,
        None => Palette::BRAND,
    };
    Embed::new(colour).described(
        formatting::join_lines(&make_feed_lines(rows), Limits::DESCRIPTION),
    ).with_footer(formatting::footer(host, &extra)).at(ts)
}

// ---------------------------------------------------------------------------
// What is posted
// ---------------------------------------------------------------------------

proof fn lemma_kinds()
    ensures
        !is_chat("join"@) && !is_whisper("join"@),
        !is_chat("j"@) && !is_whisper("j"@),
        !is_chat("leave"@) && !is_whisper("leave"@),
        !is_chat("l"@) && !is_whisper("l"@),
        !is_chat("death"@) && !is_whisper("death"@),
        !is_chat("d"@) && !is_whisper("d"@),
        !is_chat("advancement"@) && !is_whisper("advancement"@),
        !is_chat("a"@) && !is_whisper("a"@),
        !is_whisper("chat"@) && !is_whisper("c"@),
        !is_chat("whisper"@) && !is_chat("w"@),
        "leave"@ != "j"@ && "leave"@ != "join"@,
        "l"@ != "j"@ && "l"@ != "join"@,
        "death"@ != "j"@ && "death"@ != "join"@ && "death"@ != "l"@ && "death"@ != "leave"@,
        "d"@ != "j"@ && "d"@ != "join"@ && "d"@ != "l"@ && "d"@ != "leave"@,
        "advancement"@ != "j"@ && "advancement"@ != "join"@ && "advancement"@ != "l"@
            && "advancement"@ != "leave"@ && "advancement"@ != "d"@ && "advancement"@ != "death"@,
        "a"@ != "j"@ && "a"@ != "join"@ && "a"@ != "l"@ && "a"@ != "leave"@ && "a"@ != "d"@ && "a"@
            != "death"@,
        "chat"@ != "j"@ && "chat"@ != "join"@ && "chat"@ != "l"@ && "chat"@ != "leave"@ && "chat"@
            != "d"@ && "chat"@ != "death"@ && "chat"@ != "a"@ && "chat"@ != "advancement"@,
        "c"@ != "j"@ && "c"@ != "join"@ && "c"@ != "l"@ && "c"@ != "leave"@ && "c"@ != "d"@ && "c"@
            != "death"@ && "c"@ != "a"@ && "c"@ != "advancement"@,
        "whisper"@ != "j"@ && "whisper"@ != "join"@ && "whisper"@ != "l"@ && "whisper"@ != "leave"@
            && "whisper"@ != "d"@ && "whisper"@ != "death"@ && "whisper"@ != "a"@ && "whisper"@
            != "advancement"@,
        "w"@ != "j"@ && "w"@ != "join"@ && "w"@ != "l"@ && "w"@ != "leave"@ && "w"@ != "d"@ && "w"@
            != "death"@ && "w"@ != "a"@ && "w"@ != "advancement"@,
{
    reveal_strlit("join");
    reveal_strlit("j");
    reveal_strlit("leave");
    reveal_strlit("l");
    reveal_strlit("death");
    reveal_strlit("d");
    reveal_strlit("advancement");
    reveal_strlit("a");
    reveal_strlit("chat");
    reveal_strlit("c");
    reveal_strlit("whisper");
    reveal_strlit("w");
    assert("join"@[0] == 'j' && "j"@[0] == 'j' && "leave"@[0] == 'l' && "l"@[0] == 'l');
    assert("death"@[0] == 'd' && "d"@[0] == 'd' && "advancement"@[0] == 'a' && "a"@[0] == 'a');
    assert("chat"@[0] == 'c' && "c"@[0] == 'c' && "whisper"@[0] == 'w' && "w"@[0] == 'w');
}

/// A row about a player whose text is the name and some words is posted as the name
/// in bold and the words, and as one line with its time in a batch.
proof fn lemma_sentence_posted(
    row: models::ChatRowText,
    name: Seq<char>,
    rest: Seq<Seq<char>>,
    head_url: Option<Seq<char>>,
    rainbow: Option<u32>,
)
    requires
        body_of(row) == name + " "@ + text::join_text(rest, " "@),
        subject_of(row) == Some(name),
        !is_chat(row.kind),
        !is_whisper(row.kind),
        text::is_word(name),
        text::all_words(rest),
        rest.len() > 0,
        name.len() + text::join_text(rest, " "@).len() <= 300,
    ensures
        ({
            let shown = formatting::escaped(name);
            let words = formatting::with_backslashes(" "@ + text::join_text(rest, " "@));
            &&& event_embed(row, head_url, rainbow).description == Some(
                "**"@ + shown + "**"@ + words,
            )
            &&& text::ends(feed_line_text(row), shown + words + "*"@)
        }),
{
    reveal_strlit("**");
    reveal_strlit("*");
    reveal_strlit(" ");
    formatting::lemma_sentence(name, rest);
    let shown = formatting::escaped(name);
    let tail = " "@ + text::join_text(rest, " "@);
    let words = formatting::with_backslashes(tail);
    let body = shown + words;
    assert(formatting::escaped(body_of(row)) == body);
    formatting::lemma_escaped_size(name);
    formatting::lemma_escaped_size(tail);
    assert(body.take(shown.len() as int) =~= shown);
    assert(body.skip(shown.len() as int) =~= words);
    assert(text::after_prefix(body, shown) == Some(words));
    let line = feed_line_text(row);
    let when = formatting::time_tag(row.received_at as int, "t"@);
    assert(formatting::log_line(body_of(row)) == body);
    assert(line =~= when + " "@ + "*"@ + (body + "*"@));
    assert(line.skip(line.len() - (body + "*"@).len()) =~= body + "*"@);
}

proof fn lemma_joined_words()
    ensures
        text::all_words(seq!["joined"@, "the"@, "game"@]),
        text::join_text(seq!["joined"@, "the"@, "game"@], " "@) == "joined the game"@,
        formatting::with_backslashes(" "@ + "joined the game"@) == " joined the game"@,
        "joined the game"@.len() < 100,
        text::all_words(seq!["left"@, "the"@, "game"@]),
        text::join_text(seq!["left"@, "the"@, "game"@], " "@) == "left the game"@,
        formatting::with_backslashes(" "@ + "left the game"@) == " left the game"@,
        "left the game"@.len() < 100,
{
    reveal_strlit("joined");
    reveal_strlit("left");
    reveal_strlit("the");
    reveal_strlit("game");
    reveal_strlit(" ");
    reveal_strlit("joined the game");
    reveal_strlit("left the game");
    reveal_strlit(" joined the game");
    reveal_strlit(" left the game");
    reveal_with_fuel(text::join_text, 4);
    let j = seq!["joined"@, "the"@, "game"@];
    let l = seq!["left"@, "the"@, "game"@];
    assert(j.drop_last() =~= seq!["joined"@, "the"@]);
    assert(j.drop_last().drop_last() =~= seq!["joined"@]);
    assert(l.drop_last() =~= seq!["left"@, "the"@]);
    assert(l.drop_last().drop_last() =~= seq!["left"@]);
    assert(text::join_text(j, " "@) =~= "joined the game"@);
    assert(text::join_text(l, " "@) =~= "left the game"@);
    assert(" "@ + "joined the game"@ =~= " joined the game"@);
    assert(" "@ + "left the game"@ =~= " left the game"@);
    formatting::lemma_plain_texts_stay(" joined the game"@);
    formatting::lemma_plain_texts_stay(" left the game"@);
}

/// A join of the tab list is posted as the player's name in bold and "joined the
/// game", and a leave as the name and "left the game", each alone and in a batch.
pub proof fn lemma_joins_and_leaves_are_posted(
    row: models::ChatRowText,
    name: Seq<char>,
    head_url: Option<Seq<char>>,
    rainbow: Option<u32>,
)
    requires
        row.subject_name == Some(name),
        row.sender_name is None,
        text::trimmed(row.plain_text).len() == 0,
        text::is_word(name),
        name.len() <= 100,
    ensures
        row.kind == "join"@ || row.kind == "j"@ ==> event_embed(row, head_url, rainbow).description
            == Some("**"@ + formatting::escaped(name) + "**"@ + " joined the game"@) && text::ends(
            feed_line_text(row),
            formatting::escaped(name) + " joined the game"@ + "*"@,
        ),
        row.kind == "leave"@ || row.kind == "l"@ ==> event_embed(row, head_url, rainbow).description
            == Some("**"@ + formatting::escaped(name) + "**"@ + " left the game"@) && text::ends(
            feed_line_text(row),
            formatting::escaped(name) + " left the game"@ + "*"@,
        ),
{
    lemma_kinds();
    lemma_joined_words();
    reveal_strlit(" ");
    reveal_strlit("joined the game");
    reveal_strlit("left the game");
    reveal_strlit(" joined the game");
    reveal_strlit(" left the game");
    if row.kind == "join"@ || row.kind == "j"@ {
        assert(name + " joined the game"@ =~= name + " "@ + "joined the game"@);
        lemma_sentence_posted(row, name, seq!["joined"@, "the"@, "game"@], head_url, rainbow);
    } else if row.kind == "leave"@ || row.kind == "l"@ {
        assert(name + " left the game"@ =~= name + " "@ + "left the game"@);
        lemma_sentence_posted(row, name, seq!["left"@, "the"@, "game"@], head_url, rainbow);
    }
}

proof fn lemma_death_words(killer: Seq<char>)
    requires
        text::is_word(killer),
    ensures
        text::all_words(seq!["was"@, "slain"@, "by"@, killer]),
        text::join_text(seq!["was"@, "slain"@, "by"@, killer], " "@) == "was slain by "@ + killer,
        " "@ + ("was slain by "@ + killer) == " was slain by "@ + killer,
        formatting::with_backslashes(" was slain by "@) == " was slain by "@,
        " was slain by "@.len() < 100,
        text::all_words(seq!["died"@]),
        text::join_text(seq!["died"@], " "@) == "died"@,
        " "@ + "died"@ == " died"@,
        formatting::with_backslashes(" died"@) == " died"@,
        " died"@.len() < 100,
{
    reveal_strlit("was");
    reveal_strlit("slain");
    reveal_strlit("by");
    reveal_strlit("died");
    reveal_strlit(" ");
    reveal_strlit("was slain by ");
    reveal_strlit(" was slain by ");
    reveal_strlit(" died");
    reveal_with_fuel(text::join_text, 5);
    let w = seq!["was"@, "slain"@, "by"@, killer];
    assert(w.drop_last() =~= seq!["was"@, "slain"@, "by"@]);
    assert(w.drop_last().drop_last() =~= seq!["was"@, "slain"@]);
    assert(w.drop_last().drop_last().drop_last() =~= seq!["was"@]);
    assert(text::join_text(w, " "@) =~= "was slain by "@ + killer);
    assert(" "@ + ("was slain by "@ + killer) =~= " was slain by "@ + killer);
    assert(" "@ + "died"@ =~= " died"@);
    formatting::lemma_plain_texts_stay(" was slain by "@);
    formatting::lemma_plain_texts_stay(" died"@);
}

/// A death without a stored text names the victim in front and the killer behind "was
/// slain by"; without a killer it says that the victim died.
pub proof fn lemma_deaths_are_posted(
    row: models::ChatRowText,
    victim: Seq<char>,
    head_url: Option<Seq<char>>,
    rainbow: Option<u32>,
)
    requires
        row.kind == "death"@ || row.kind == "d"@,
        row.subject_name == Some(victim),
        row.sender_name is None,
        text::trimmed(row.plain_text).len() == 0,
        text::is_word(victim),
        victim.len() <= 100,
    ensures
        row.killer_name is None ==> event_embed(row, head_url, rainbow).description == Some(
            "**"@ + formatting::escaped(victim) + "**"@ + " died"@,
        ) && text::ends(feed_line_text(row), formatting::escaped(victim) + " died"@ + "*"@),
        row.killer_name matches Some(killer) ==> text::is_word(killer) && killer.len() <= 100 ==> {
            &&& event_embed(row, head_url, rainbow).description == Some(
                "**"@ + formatting::escaped(victim) + "**"@ + (" was slain by "@
                    + formatting::escaped(killer)),
            )
            &&& text::ends(
                feed_line_text(row),
                formatting::escaped(victim) + (" was slain by "@ + formatting::escaped(killer))
                    + "*"@,
            )
        },
{
    lemma_kinds();
    reveal_strlit(" ");
    reveal_strlit(" died");
    reveal_strlit("died");
    match row.killer_name {
        None => {
            lemma_death_words(victim);
            assert(victim + " died"@ =~= victim + " "@ + "died"@);
            lemma_sentence_posted(row, victim, seq!["died"@], head_url, rainbow);
        },
        Some(killer) => if text::is_word(killer) && killer.len() <= 100 {
            lemma_death_words(killer);
            let rest = seq!["was"@, "slain"@, "by"@, killer];
            assert(victim + " was slain by "@ + killer =~= victim + (" was slain by "@ + killer));
            assert(victim + " "@ + ("was slain by "@ + killer) =~= victim + (" "@ + (
            "was slain by "@ + killer)));
            reveal_strlit("was slain by ");
            lemma_sentence_posted(row, victim, rest, head_url, rainbow);
            formatting::lemma_backslashes_apart(" was slain by "@, killer);
            let one = seq![killer];
            assert(text::all_words(one));
            text::lemma_words_of_joined(one);
            assert(text::join_text(one, " "@) == killer);
        },
    }
}

/// A text that was stored with a death, and names the victim, is what is posted of it.
pub proof fn lemma_stored_deaths_are_posted(row: models::ChatRowText, victim: Seq<char>)
    requires
        row.kind == "death"@ || row.kind == "d"@,
        row.subject_name == Some(victim),
        text::trimmed(row.plain_text).len() > 0,
        text::has_text(text::trimmed(row.plain_text), victim),
    ensures
        feed_line_text(row) == formatting::time_tag(row.received_at as int, "t"@) + " "@ + ("*"@
            + formatting::clamped(
            formatting::escaped(text::trimmed(row.plain_text)),
            formatting::MAX_LINE_CHARS as int,
        ) + "*"@),
{
    lemma_kinds();
}

/// What a player says is posted behind the name they are shown under: the label where
/// there is one, the sender's name where there is none.
pub proof fn lemma_chat_is_posted(
    row: models::ChatRowText,
    sender: Seq<char>,
    head_url: Option<Seq<char>>,
    rainbow: Option<u32>,
)
    requires
        row.kind == "chat"@ || row.kind == "c"@,
        row.sender_name == Some(sender),
        text::trimmed(row.plain_text).len() > 0,
    ensures
        ({
            let shown = match row.sender_label {
                Some(label) => label,
                None => sender,
            };
            let whole = "**"@ + (formatting::escaped(shown) + ":"@) + "**"@ + " "@
                + formatting::escaped(row.plain_text);
            let e = event_embed(row, head_url, rainbow);
            &&& whole.len() <= 4096 ==> e.description == Some(whole)
            &&& e.timestamp == Some(row.received_at)
            &&& rainbow matches Some(colour) ==> e.colour == colour
        }),
        ({
            let shown = match row.sender_label {
                Some(label) => label,
                None => sender,
            };
            feed_line_text(row) == formatting::time_tag(row.received_at as int, "t"@) + " "@ + (
            "**"@ + formatting::clamped(formatting::escaped(shown), 16) + "**"@) + "  "@
                + formatting::clamped(formatting::escaped(row.plain_text), 700)
        }),
{
    lemma_kinds();
}

/// A whisper says that it is one, and who whispers.
pub proof fn lemma_whispers_are_posted(row: models::ChatRowText, sender: Seq<char>)
    requires
        row.kind == "whisper"@ || row.kind == "w"@,
        row.sender_name == Some(sender),
        row.sender_label is None,
        text::trimmed(row.plain_text).len() > 0,
    ensures
        feed_line_text(row) == formatting::time_tag(row.received_at as int, "t"@) + " "@ + ("**"@
            + formatting::clamped(formatting::escaped(sender), 16) + "**"@) + "  "@ + ("*"@ + (
        "whispers: "@ + formatting::clamped(formatting::escaped(row.plain_text), 700)) + "*"@),
{
    lemma_kinds();
}

/// An advancement says who made it and which one it is.
pub proof fn lemma_advancements_are_posted(row: models::ChatRowText, name: Seq<char>)
    requires
        row.kind == "advancement"@ || row.kind == "a"@,
        row.subject_name == Some(name),
    ensures
        ({
            let title = text::trimmed(row.plain_text);
            &&& title.len() == 0 ==> body_of(row) == name + " has made an advancement"@
            &&& title.len() > 0 && !text::has_text(title, name) ==> body_of(row) == name
                + " has made the advancement "@ + title
        }),
{
    lemma_kinds();
    let title = text::trimmed(row.plain_text);
    text::lemma_trimmed_twice(row.plain_text);
}

/// A batch of rows is posted as their lines in order, with the newest time and the
/// number of lines.
pub proof fn lemma_batches_are_posted(
    rows: Seq<models::ChatRowText>,
    server_label: Seq<char>,
    now_us: i64,
    i: int,
)
    requires
        0 <= i < rows.len(),
        total_cost(rows) <= 4096,
    ensures
        ({
            let e = batch_embed(rows, server_label, None, now_us);
            &&& e.description == Some(
                text::join_text(
                    Seq::new(rows.len(), |k: int| feed_line_text(rows[k])),
                    "\n"@,
                ),
            )
            &&& e.timestamp == Some(rows[rows.len() - 1].received_at)
            &&& e.footer matches Some((shown, _)) && text::has_text(
                shown,
                text::decimal(rows.len() as int) + (if rows.len() == 1 {
                    " line"@
                } else {
                    " lines"@
                }),
            )
        }),
{
    let all = feed_lines(rows);
    lemma_costs_fit(rows, 0);
    reveal_strlit(" line");
    reveal_strlit(" lines");
    reveal_strlit("line");
    reveal_strlit("lines");
    reveal_strlit(" ");
    let n = rows.len() as int;
    let count = line_count(n);
    assert(text::decimal(n) + " line"@ =~= text::decimal(n) + " "@ + "line"@);
    assert(text::decimal(n) + " lines"@ =~= text::decimal(n) + " "@ + "lines"@);
    let extra = seq![count];
    assert(extra.drop_last() =~= Seq::<Seq<char>>::empty());
    reveal_with_fuel(formatting::filled, 2);
    assert(formatting::filled(extra.drop_last()) =~= Seq::<Seq<char>>::empty());
    assert(count.len() > 0);
    assert(formatting::filled(extra) =~= extra);
    let label = match first_host(rows) {
        Some(h) => h,
        None => server_label,
    };
    let parts = seq![label] + formatting::filled(extra);
    let none = Seq::<char>::empty();
    text::lemma_has_inside(none, count, none);
    assert(none + count + none =~= count);
    assert(parts[1] == count);
    text::lemma_joined_has(parts, "  ·  "@, 1, count);
}

proof fn lemma_costs_fit(rows: Seq<models::ChatRowText>, k: int)
    requires
        0 <= k <= rows.len(),
        total_cost(rows) <= 4096,
    ensures
        formatting::fitting(feed_lines(rows), k, total_cost(rows.take(k)), 4096) == rows.len(),
    decreases rows.len() - k,
{
    if k < rows.len() {
        assert(rows.take(k + 1).drop_last() =~= rows.take(k));
        lemma_cost_grows(rows, k + 1);
        lemma_costs_fit(rows, k + 1);
    } else {
        assert(rows.take(k) =~= rows);
    }
    if k == 0 {
        assert(total_cost(rows.take(0)) == 0);
    }
}

proof fn lemma_cost_grows(rows: Seq<models::ChatRowText>, k: int)
    requires
        0 <= k <= rows.len(),
    ensures
        total_cost(rows.take(k)) <= total_cost(rows),
    decreases rows.len() - k,
{
    if k < rows.len() {
        lemma_cost_grows(rows, k + 1);
        assert(rows.take(k + 1).drop_last() =~= rows.take(k));
    } else {
        assert(rows.take(k) =~= rows);
    }
}

/// A line has the colour of its kind, unless the colours turn: joins, leaves, deaths,
/// advancements and whispers each have their own. The foot shows the head.
pub proof fn lemma_lines_are_coloured(
    row: models::ChatRowText,
    head_url: Option<Seq<char>>,
    turn: u32,
)
    ensures
        event_embed(row, head_url, Some(turn)).colour == turn,
        row.kind == "join"@ || row.kind == "j"@ ==> event_embed(row, head_url, None).colour
            == Palette::JOIN,
        row.kind == "leave"@ || row.kind == "l"@ ==> event_embed(row, head_url, None).colour
            == Palette::LEAVE,
        row.kind == "death"@ || row.kind == "d"@ ==> event_embed(row, head_url, None).colour
            == Palette::DEATH,
        row.kind == "advancement"@ || row.kind == "a"@ ==> event_embed(row, head_url, None).colour
            == Palette::ADVANCEMENT,
        row.kind == "whisper"@ || row.kind == "w"@ ==> event_embed(row, head_url, None).colour
            == Palette::WHISPER,
        row.kind == "chat"@ || row.kind == "c"@ ==> event_embed(row, head_url, None).colour
            == Palette::MUTED,
        row.kind == "server"@ || row.kind == "s"@ ==> event_embed(row, head_url, None).colour
            == Palette::NEUTRAL,
        event_embed(row, head_url, None).timestamp == Some(row.received_at),
        event_embed(row, head_url, None).footer matches Some((_, icon)) && icon == head_url,
{
    lemma_kinds();
    reveal_strlit("kill");
    reveal_strlit("server");
    reveal_strlit("s");
    reveal_strlit("advancement");
    reveal_strlit("a");
    reveal_strlit("chat");
    reveal_strlit("c");
    reveal_strlit("whisper");
    reveal_strlit("w");
    reveal_strlit("join");
    reveal_strlit("j");
    reveal_strlit("leave");
    reveal_strlit("l");
    reveal_strlit("death");
    reveal_strlit("d");
    assert("kill"@[0] == 'k' && "server"@[0] == 's' && "s"@[0] == 's');
    assert("advancement"@[0] == 'a' && "a"@[0] == 'a' && "chat"@[0] == 'c' && "c"@[0] == 'c');
    assert("whisper"@[0] == 'w' && "w"@[0] == 'w' && "join"@[0] == 'j' && "j"@[0] == 'j');
    assert("leave"@[0] == 'l' && "l"@[0] == 'l' && "death"@[0] == 'd' && "d"@[0] == 'd');
}

/// A line is about its sender, and else about its subject; chat is shown under the label
/// of its sender where there is one.
pub proof fn lemma_whom_a_line_is_about(row: models::ChatRowText)
    ensures
        row.sender_name is Some ==> subject_of(row) == row.sender_name,
        row.sender_name is None ==> subject_of(row) == row.subject_name,
        row.kind == "chat"@ && row.sender_label is Some ==> author_of(row) == row.sender_label,
        row.kind == "chat"@ && row.sender_label is None ==> author_of(row) == subject_of(row),
        row.kind == "join"@ ==> author_of(row) == subject_of(row),
{
    lemma_kinds();
}

/// The host of a batch is that of its first line that has one.
pub proof fn lemma_hosts_of_batches(rows: Seq<models::ChatRowText>, row: models::ChatRowText)
    ensures
        first_host(Seq::empty()) is None,
        first_host(rows) is Some ==> first_host(rows.push(row)) == first_host(rows),
        first_host(rows) is None ==> first_host(rows.push(row)) == row.server_host,
{
    assert(rows.push(row).drop_last() =~= rows);
}

/// An embed is read field by field.
pub proof fn lemma_embeds_are_read_by_field(e: Embed)
    ensures
        e@.colour == e.colour,
        e.title is Some ==> e@.title == Some(e.title->0@),
        e.title is None ==> e@.title is None,
        e.description is Some ==> e@.description == Some(e.description->0@),
        e.description is None ==> e@.description is None,
        e.author is Some ==> e@.author == Some((e.author->0.name@, e.author->0.icon_url@)),
        e.author is None ==> e@.author is None,
        e.thumbnail is Some ==> e@.thumbnail == Some(e.thumbnail->0@),
        e@.timestamp == e.timestamp,
        e@.fields.len() == e.fields@.len(),
        forall|i: int|
            0 <= i < e.fields@.len() ==> (#[trigger] e@.fields[i]).0 == e.fields@[i].name@ && e@.fields[i].1
                == e.fields@[i].value@,
        e.footer is Some ==> e@.footer is Some,
{
}

/// A notice says what it is about and the rest below it.
pub proof fn lemma_notices(colour: u32, title: Seq<char>, body: Seq<char>, now_us: i64)
    ensures
        notice_text(colour, title, body, now_us).title == Some(title),
        notice_text(colour, title, body, now_us).description == Some(body),
        notice_text(colour, title, body, now_us).colour == colour,
        notice_text(colour, title, body, now_us).timestamp == Some(now_us),
{
}

} // verus!
