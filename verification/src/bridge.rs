//! The live feed of a server in Discord.
use vstd::prelude::*;
use vstd::string::*;

use crate::chatbridge;
use crate::config;
use crate::config::{BridgeStyle, Config};
use crate::embeds;
use crate::embeds::{Embed, EmbedText};
use crate::heads;
use crate::models;
use crate::models::{ChatRow, ChatRowText, EventKind, EventRoute};
use crate::text;

verus! {

// ---------------------------------------------------------------------------
// Where a line goes
// ---------------------------------------------------------------------------

/// The channel that a line goes to: that of its route, or the main one where the
/// route has none of its own. Lines without a route follow the configured kinds.
pub open spec fn channel_of(
    kind: Seq<char>,
    fallback: Seq<char>,
    routes: Seq<models::RouteText>,
    default_kinds: Seq<Seq<char>>,
) -> Option<Seq<char>> {
    match models::canonical(kind) {
        None => None,
        Some(k) => match chatbridge::route_of(routes, models::route_name(k)) {
            Some(route) => if !route.enabled {
                None
            } else {
                match route.channel_id {
                    Some(c) => Some(c),
                    None => Some(fallback),
                }
            },
            None => if models::configured(default_kinds, kind) {
                Some(fallback)
            } else {
                None
            },
        },
    }
}

pub fn route_channel(
    row: &ChatRow,
    fallback: &str,
    routes: &Vec<EventRoute>,
    default_kinds: &Vec<String>,
) -> (r: Option<String>)
    ensures
        text::opt_text(r) == channel_of(
            row@.kind,
            fallback@,
            models::route_texts(routes@),
            text::texts(default_kinds@),
        ),
{
    let kind = match models::canonical_route_kind(&row.kind) {
        Some(k) => k,
        None => {
            return None;
        },
    };
    match chatbridge::find_route(routes, kind) {
        Some(route) => if !route.enabled {
            None
        } else {
            match &route.channel_id {
                Some(c) => Some(c.clone()),
                None => Some(text::copy(fallback)),
            }
        },
        None => if EventKind::matches_name(default_kinds, &row.kind) {
            Some(text::copy(fallback))
        } else {
            None
        },
    }
}

/// A kind that is turned off is posted nowhere.
pub proof fn lemma_hidden_kinds_go_nowhere(
    kind: Seq<char>,
    fallback: Seq<char>,
    routes: Seq<models::RouteText>,
    default_kinds: Seq<Seq<char>>,
)
    requires
        models::canonical(kind) is Some,
        chatbridge::route_of(
            routes,
            models::route_name(models::canonical(kind)->0),
        ) matches Some(r) && !r.enabled,
    ensures
        channel_of(kind, fallback, routes, default_kinds) is None,
{
}

// ---------------------------------------------------------------------------
// Joins and leaves that come twice
// ---------------------------------------------------------------------------

/// Within so many milliseconds a second join or leave of a player is no news.
pub const PRESENCE_DEDUP_MS: u64 = 20_000;

/// Joins and leaves that were posted, and when.
pub type Recent = Seq<(Seq<char>, int)>;

pub open spec fn recent_text(v: Seq<(String, u64)>) -> Recent {
    Seq::new(v.len(), |i: int| (v[i].0@, v[i].1 as int))
}

/// What tells a join or leave from others: the kind, the host and the player. Other
/// lines have nothing of the sort.
pub open spec fn dup_key(row: ChatRowText) -> Option<Seq<char>> {
    match models::canonical(row.kind) {
        Some(kind) => if kind != models::RouteKind::Join && kind != models::RouteKind::Leave {
            None
        } else {
            match embeds::or_else(row.subject_name, row.sender_name) {
                Some(raw) => {
                    let name = text::lowered(text::trimmed(raw));
                    if name.len() == 0 {
                        None
                    } else {
                        Some(
                            models::route_name(kind) + ":"@ + text::text_or_empty(
                                row.server_host,
                            ) + ":"@ + name,
                        )
                    }
                },
                None => None,
            }
        },
        None => None,
    }
}

pub fn presence_dup_key(row: &ChatRow) -> (r: Option<String>)
    ensures
        text::opt_text(r) == dup_key(row@),
{
    proof {
        reveal_strlit("join");
        reveal_strlit("leave");
        reveal_strlit("chat");
        reveal_strlit("whisper");
        reveal_strlit("death");
        reveal_strlit("advancement");
        reveal_strlit("server");
        reveal_strlit("");
        assert(""@ =~= Seq::<char>::empty());
        assert("join"@.len() == 4 && "join"@[0] == 'j');
        assert("chat"@.len() == 4 && "chat"@[0] == 'c');
        assert("leave"@.len() == 5 && "leave"@[0] == 'l');
        assert("death"@.len() == 5 && "death"@[0] == 'd');
    }
    let kind = match models::canonical_route_kind(&row.kind) {
        Some(k) => k,
        None => {
            return None;
        },
    };
    if !text::same(kind, "join") && !text::same(kind, "leave") {
        return None;
    }
    let raw: &str = match &row.subject_name {
        Some(n) => n.as_str(),
        None => match &row.sender_name {
            Some(n) => n.as_str(),
            None => {
                return None;
            },
        },
    };
    let name = text::lower(&text::trim(raw));
    if name.as_str().is_empty() {
        return None;
    }
    let host: &str = match &row.server_host {
        Some(h) => h.as_str(),
        None => "",
    };
    Some(text::cat5(kind, ":", host, ":", &name))
}

/// Whether something posted at one time still counts at another.
pub open spec fn still_counts(at: int, now: int) -> bool {
    now - at <= PRESENCE_DEDUP_MS
}

/// What still counts.
pub open spec fn counting(recent: Recent, now: int) -> Recent
    decreases recent.len(),
{
    if recent.len() == 0 {
        Seq::empty()
    } else if still_counts(recent.last().1, now) {
        counting(recent.drop_last(), now).push(recent.last())
    } else {
        counting(recent.drop_last(), now)
    }
}

pub open spec fn has_recent(recent: Recent, key: Seq<char>) -> bool {
    exists|i: int| 0 <= i < recent.len() && #[trigger] recent[i].0 == key
}

/// Whether a line is posted, and what was posted then.
pub open spec fn uniqued(recent: Recent, row: ChatRowText, now: int) -> (Recent, bool) {
    match dup_key(row) {
        None => (recent, true),
        Some(key) => {
            let live = counting(recent, now);
            if has_recent(live, key) {
                (live, false)
            } else {
                (live.push((key, now)), true)
            }
        },
    }
}

fn keep_counting(recent: &Vec<(String, u64)>, now: u64) -> (r: Vec<(String, u64)>)
    ensures
        recent_text(r@) == counting(recent_text(recent@), now as int),
{
    let ghost all = recent_text(recent@);
    let mut r: Vec<(String, u64)> = Vec::new();
    assert(recent_text(r@) =~= counting(all.take(0), now as int));
    for i in 0..recent.len()
        invariant
            all == recent_text(recent@),
            recent_text(r@) == counting(all.take(i as int), now as int),
    {
        assert(all.take(i + 1).drop_last() =~= all.take(i as int));
        let at: u64 = recent[i].1;
        if now <= at || now - at <= PRESENCE_DEDUP_MS {
            let ghost before = r@;
            r.push((recent[i].0.clone(), at));
            assert(recent_text(r@) =~= recent_text(before).push(all[i as int]));
        }
    }
    assert(all.take(all.len() as int) =~= all);
    r
}

/// Says whether a line is posted. A second join or leave of one player within a
/// few seconds is not.
pub fn unique_presence(recent: &mut Vec<(String, u64)>, row: &ChatRow, now: u64) -> (keep: bool)
    ensures
        (recent_text(final(recent)@), keep) == uniqued(
            recent_text(old(recent)@),
            row@,
            now as int,
        ),
{
    let key = match presence_dup_key(row) {
        Some(k) => k,
        None => {
            return true;
        },
    };
    let live = keep_counting(recent, now);
    *recent = live;
    let ghost list = recent_text(recent@);
    let mut i: usize = 0;
    while i < recent.len()
        invariant
            i <= recent.len(),
            list == recent_text(recent@),
            list == counting(recent_text(old(recent)@), now as int),
            dup_key(row@) == Some(key@),
            forall|k: int| 0 <= k < i ==> #[trigger] list[k].0 != key@,
        decreases recent.len() - i,
    {
        assert(list[i as int].0 == recent[i as int].0@);
        if recent[i].0 == key {
            return false;
        }
        i = i + 1;
    }
    let ghost name = key@;
    recent.push((key, now));
    assert(recent_text(recent@) =~= list.push((name, now as int)));
    true
}

/// A join or leave that was posted is not posted again while it counts, whatever
/// came between.
pub proof fn lemma_no_double_news(recent: Recent, first: ChatRowText, second: ChatRowText, t: int, later: int)
    requires
        dup_key(first) is Some,
        dup_key(second) == dup_key(first),
        uniqued(recent, first, t).1,
        t <= later <= t + PRESENCE_DEDUP_MS,
    ensures
        !uniqued(uniqued(recent, first, t).0, second, later).1,
{
    let key = dup_key(first)->0;
    let after = uniqued(recent, first, t).0;
    assert(after.last() == (key, t));
    let live = counting(after, later);
    assert(live == counting(after.drop_last(), later).push((key, t)));
    assert(live[live.len() - 1].0 == key);
}

/// Lines that are neither joins nor leaves are always posted.
pub proof fn lemma_chat_is_always_posted(recent: Recent, row: ChatRowText, now: int)
    requires
        models::canonical(row.kind) != Some(models::RouteKind::Join),
        models::canonical(row.kind) != Some(models::RouteKind::Leave),
    ensures
        uniqued(recent, row, now) == (recent, true),
{
}

/// The lines that are posted of several.
pub open spec fn uniqued_all(recent: Recent, rows: Seq<ChatRowText>, now: int) -> (
    Recent,
    Seq<ChatRowText>,
)
    decreases rows.len(),
{
    if rows.len() == 0 {
        (recent, Seq::empty())
    } else {
        let (before, kept) = uniqued_all(recent, rows.drop_last(), now);
        let (after, keep) = uniqued(before, rows.last(), now);
        (
            after,
            if keep {
                kept.push(rows.last())
            } else {
                kept
            },
        )
    }
}

pub fn unique_rows(recent: &mut Vec<(String, u64)>, rows: &Vec<ChatRow>, now: u64) -> (r: Vec<ChatRow>)
    ensures
        (recent_text(final(recent)@), models::row_texts(r@)) == uniqued_all(
            recent_text(old(recent)@),
            models::row_texts(rows@),
            now as int,
        ),
{
    let ghost all = models::row_texts(rows@);
    let ghost start = recent_text(recent@);
    let mut r: Vec<ChatRow> = Vec::new();
    assert(models::row_texts(r@) =~= Seq::<ChatRowText>::empty());
    for i in 0..rows.len()
        invariant
            all == models::row_texts(rows@),
            (recent_text(recent@), models::row_texts(r@)) == uniqued_all(
                start,
                all.take(i as int),
                now as int,
            ),
    {
        assert(all.take(i + 1).drop_last() =~= all.take(i as int));
        if unique_presence(recent, &rows[i], now) {
            let ghost before = r@;
            r.push(rows[i].copy());
            assert(models::row_texts(r@) =~= models::row_texts(before).push(all[i as int]));
        }
    }
    assert(all.take(all.len() as int) =~= all);
    r
}

// ---------------------------------------------------------------------------
// Lines by channel
// ---------------------------------------------------------------------------

/// The lines for a channel.
pub struct ChannelRows {
    pub channel_id: String,
    pub rows: Vec<ChatRow>,
}

/// The contents of [`ChannelRows`].
#[verifier::ext_equal]
pub struct ChannelText {
    pub channel_id: Seq<char>,
    pub rows: Seq<ChatRowText>,
}

impl View for ChannelRows {
    type V = ChannelText;

    open spec fn view(&self) -> ChannelText {
        ChannelText { channel_id: self.channel_id@, rows: models::row_texts(self.rows@) }
    }
}

pub open spec fn channel_texts(v: Seq<ChannelRows>) -> Seq<ChannelText> {
    Seq::new(v.len(), |i: int| v[i]@)
}

/// Where a channel stands among others.
pub open spec fn channel_at(all: Seq<ChannelText>, id: Seq<char>) -> Option<int>
    decreases all.len(),
{
    if all.len() == 0 {
        None
    } else {
        match channel_at(all.drop_last(), id) {
            Some(i) => Some(i),
            None => if all.last().channel_id == id {
                Some(all.len() - 1)
            } else {
                None
            },
        }
    }
}

proof fn lemma_channel_at(all: Seq<ChannelText>, id: Seq<char>)
    ensures
        match channel_at(all, id) {
            Some(i) => 0 <= i < all.len() && all[i].channel_id == id && forall|j: int|
                0 <= j < i ==> #[trigger] all[j].channel_id != id,
            None => forall|j: int| 0 <= j < all.len() ==> #[trigger] all[j].channel_id != id,
        },
    decreases all.len(),
{
    if all.len() > 0 {
        lemma_channel_at(all.drop_last(), id);
        assert forall|j: int| 0 <= j < all.len() - 1 implies #[trigger] all[j]
            == all.drop_last()[j] by {}
    }
}

/// Puts a line with those of its channel.
pub open spec fn routed(all: Seq<ChannelText>, id: Seq<char>, row: ChatRowText) -> Seq<ChannelText> {
    match channel_at(all, id) {
        Some(i) => all.update(i, ChannelText { channel_id: id, rows: all[i].rows.push(row) }),
        None => all.push(ChannelText { channel_id: id, rows: seq![row] }),
    }
}

/// The lines by channel, channels in the order in which they come up.
pub open spec fn by_channel(
    rows: Seq<ChatRowText>,
    fallback: Seq<char>,
    routes: Seq<models::RouteText>,
    default_kinds: Seq<Seq<char>>,
) -> Seq<ChannelText>
    decreases rows.len(),
{
    if rows.len() == 0 {
        Seq::empty()
    } else {
        let before = by_channel(rows.drop_last(), fallback, routes, default_kinds);
        match channel_of(rows.last().kind, fallback, routes, default_kinds) {
            Some(id) => routed(before, id, rows.last()),
            None => before,
        }
    }
}

fn put_row(all: &mut Vec<ChannelRows>, id: String, row: ChatRow)
    ensures
        channel_texts(final(all)@) == routed(channel_texts(old(all)@), id@, row@),
{
    let ghost list = channel_texts(all@);
    let n: usize = all.len();
    let mut i: usize = 0;
    while i < n
        invariant
            i <= n,
            n == all.len(),
            list == channel_texts(all@),
            list == channel_texts(old(all)@),
            forall|k: int| 0 <= k < i ==> #[trigger] list[k].channel_id != id@,
        decreases n - i,
    {
        assert(list[i as int].channel_id == all[i as int].channel_id@);
        if all[i].channel_id == id {
            proof {
                lemma_channel_at(list, id@);
            }
            let ghost added = row@;
            let ghost had = models::row_texts(all[i as int].rows@);
            let mut entry = all.remove(i);
            entry.rows.push(row);
            assert(models::row_texts(entry.rows@) =~= had.push(added));
            let ghost filled = entry@;
            all.insert(i, entry);
            assert(channel_texts(all@) =~= list.update(i as int, filled));
            return;
        }
        i = i + 1;
    }
    proof {
        lemma_channel_at(list, id@);
    }
    let ghost name = id@;
    let ghost added = row@;
    let mut rows: Vec<ChatRow> = Vec::new();
    rows.push(row);
    assert(models::row_texts(rows@) =~= seq![added]);
    all.push(ChannelRows { channel_id: id, rows });
    assert(channel_texts(all@) =~= list.push(
        ChannelText { channel_id: name, rows: seq![added] },
    ));
}

/// Sorts lines by the channel they go to.
pub fn route_rows(
    rows: &Vec<ChatRow>,
    fallback: &str,
    routes: &Vec<EventRoute>,
    default_kinds: &Vec<String>,
) -> (r: Vec<ChannelRows>)
    ensures
        channel_texts(r@) == by_channel(
            models::row_texts(rows@),
            fallback@,
            models::route_texts(routes@),
            text::texts(default_kinds@),
        ),
{
    let ghost all = models::row_texts(rows@);
    let ghost table = models::route_texts(routes@);
    let ghost kinds = text::texts(default_kinds@);
    let mut r: Vec<ChannelRows> = Vec::new();
    assert(channel_texts(r@) =~= by_channel(all.take(0), fallback@, table, kinds));
    for i in 0..rows.len()
        invariant
            all == models::row_texts(rows@),
            table == models::route_texts(routes@),
            kinds == text::texts(default_kinds@),
            channel_texts(r@) == by_channel(all.take(i as int), fallback@, table, kinds),
    {
        assert(all.take(i + 1).drop_last() =~= all.take(i as int));
        assert(all.take(i + 1).last() == rows[i as int]@);
        if let Some(id) = route_channel(&rows[i], fallback, routes, default_kinds) {
            put_row(&mut r, id, rows[i].copy());
        }
    }
    assert(all.take(all.len() as int) =~= all);
    r
}

/// The lines for one channel, in their order.
pub open spec fn lines_for(
    rows: Seq<ChatRowText>,
    id: Seq<char>,
    fallback: Seq<char>,
    routes: Seq<models::RouteText>,
    default_kinds: Seq<Seq<char>>,
) -> Seq<ChatRowText>
    decreases rows.len(),
{
    if rows.len() == 0 {
        Seq::empty()
    } else {
        let before = lines_for(rows.drop_last(), id, fallback, routes, default_kinds);
        if channel_of(rows.last().kind, fallback, routes, default_kinds) == Some(id) {
            before.push(rows.last())
        } else {
            before
        }
    }
}

/// Every channel gets its own lines, all of them, once and in order, and no channel
/// is posted to twice.
pub proof fn lemma_channels_get_their_lines(
    rows: Seq<ChatRowText>,
    id: Seq<char>,
    fallback: Seq<char>,
    routes: Seq<models::RouteText>,
    default_kinds: Seq<Seq<char>>,
)
    ensures
        ({
            let all = by_channel(rows, fallback, routes, default_kinds);
            let own = lines_for(rows, id, fallback, routes, default_kinds);
            match channel_at(all, id) {
                Some(i) => all[i].rows == own && own.len() > 0,
                None => own.len() == 0,
            }
        }),
        forall|i: int, j: int|
            0 <= i < j < by_channel(rows, fallback, routes, default_kinds).len()
                ==> #[trigger] by_channel(rows, fallback, routes, default_kinds)[i].channel_id
                != #[trigger] by_channel(rows, fallback, routes, default_kinds)[j].channel_id,
    decreases rows.len(),
{
    if rows.len() > 0 {
        let rest = rows.drop_last();
        lemma_channels_get_their_lines(rest, id, fallback, routes, default_kinds);
        let before = by_channel(rest, fallback, routes, default_kinds);
        let after = by_channel(rows, fallback, routes, default_kinds);
        lemma_channel_at(before, id);
        lemma_channel_at(after, id);
        match channel_of(rows.last().kind, fallback, routes, default_kinds) {
            Some(to) => {
                lemma_channel_at(before, to);
                match channel_at(before, to) {
                    Some(k) => {
                        assert forall|i: int| 0 <= i < after.len() implies
                            #[trigger] after[i].channel_id == before[i].channel_id by {}
                        if let Some(i) = channel_at(after, id) {
                            assert(after[i].channel_id == before[i].channel_id);
                            if let Some(j) = channel_at(before, id) {
                                assert(after[j].channel_id == before[j].channel_id);
                                assert(i == j);
                            }
                        } else if let Some(j) = channel_at(before, id) {
                            assert(after[j].channel_id == before[j].channel_id);
                        }
                    },
                    None => {
                        assert forall|i: int| 0 <= i < before.len() implies #[trigger] after[i]
                            == before[i] by {}
                        if let Some(i) = channel_at(after, id) {
                            if let Some(j) = channel_at(before, id) {
                                assert(after[j] == before[j]);
                                if i < before.len() {
                                    assert(after[i] == before[i]);
                                }
                                assert(i == j);
                            } else if i < before.len() {
                                assert(after[i] == before[i]);
                            }
                        } else {
                            if id == to {
                                assert(after[after.len() - 1].channel_id == id);
                            }
                            if let Some(j) = channel_at(before, id) {
                                assert(after[j] == before[j]);
                            }
                        }
                    },
                }
            },
            None => {},
        }
    }
}

// ---------------------------------------------------------------------------
// Posts
// ---------------------------------------------------------------------------

pub open spec fn embed_texts(v: Seq<Embed>) -> Seq<EmbedText> {
    Seq::new(v.len(), |i: int| v[i]@)
}

pub open spec fn post_texts(v: Seq<Vec<Embed>>) -> Seq<Seq<EmbedText>> {
    Seq::new(v.len(), |i: int| embed_texts(v[i]@))
}

/// The head beside a line.
pub open spec fn head_of(row: ChatRowText, head_size: int) -> Option<Seq<char>> {
    match embeds::subject_of(row) {
        Some(name) if heads::username(name) => Some(config::head_url(name, head_size)),
        _ => None,
    }
}

/// The colour of a line where the channel wants a rainbow.
pub open spec fn colour_at(colours: Option<Seq<u32>>, i: int) -> Option<u32> {
    match colours {
        Some(c) if 0 <= i < c.len() => Some(c[i]),
        _ => None,
    }
}

/// The embeds of the lines from one position to another.
pub open spec fn event_embeds(
    rows: Seq<ChatRowText>,
    from: int,
    to: int,
    head_size: int,
    colours: Option<Seq<u32>>,
) -> Seq<EmbedText> {
    Seq::new(
        (to - from) as nat,
        |i: int|
            embeds::event_embed(
                rows[from + i],
                head_of(rows[from + i], head_size),
                colour_at(colours, from + i),
            ),
    )
}

/// Posts with so many embeds each, from a position on.
pub open spec fn rich_posts(
    rows: Seq<ChatRowText>,
    from: int,
    per_post: int,
    head_size: int,
    colours: Option<Seq<u32>>,
) -> Seq<Seq<EmbedText>>
    decreases rows.len() - from,
{
    if from >= rows.len() || per_post <= 0 {
        Seq::empty()
    } else {
        let to = if from + per_post < rows.len() {
            from + per_post
        } else {
            rows.len() as int
        };
        seq![event_embeds(rows, from, to, head_size, colours)] + rich_posts(
            rows,
            to,
            per_post,
            head_size,
            colours,
        )
    }
}

/// How many lines the first groups have.
pub open spec fn lines_in(groups: Seq<Seq<ChatRowText>>) -> int
    decreases groups.len(),
{
    if groups.len() == 0 {
        0
    } else {
        lines_in(groups.drop_last()) + groups.last().len()
    }
}

/// Posts with one embed for each group of lines. Its colour is that of its last
/// line.
pub open spec fn compact_posts(
    groups: Seq<Seq<ChatRowText>>,
    server_label: Seq<char>,
    colours: Option<Seq<u32>>,
    now_us: i64,
) -> Seq<Seq<EmbedText>> {
    Seq::new(
        groups.len(),
        |i: int|
            seq![
                embeds::batch_embed(
                    groups[i],
                    server_label,
                    colour_at(colours, lines_in(groups.take(i + 1)) - 1),
                    now_us,
                ),
            ],
    )
}

/// How lines are posted.
pub struct PostStyle<'a> {
    pub style: BridgeStyle,
    pub server_label: &'a str,
    /// The colour of each line, where the channel wants a rainbow.
    pub colours: Option<Vec<u32>>,
    pub now_us: i64,
}

pub open spec fn opt_colours(o: Option<Vec<u32>>) -> Option<Seq<u32>> {
    match o {
        Some(v) => Some(v@),
        None => None,
    }
}

/// The posts of some lines.
pub open spec fn posts(rows: Seq<ChatRowText>, p: PostStyle, config: config::ConfigText) -> Seq<
    Seq<EmbedText>,
> {
    match p.style {
        BridgeStyle::Rich => rich_posts(
            rows,
            0,
            config.embeds_per_message,
            config.head_size as int,
            opt_colours(p.colours),
        ),
        BridgeStyle::Compact => compact_posts(
            embeds::packed(rows, config.lines_per_message),
            p.server_label@,
            opt_colours(p.colours),
            p.now_us,
        ),
    }
}

fn pick_colour(colours: &Option<Vec<u32>>, i: usize) -> (c: Option<u32>)
    ensures
        c == colour_at(opt_colours(*colours), i as int),
{
    match colours {
        Some(v) => if i < v.len() {
            Some(v[i])
        } else {
            None
        },
        None => None,
    }
}

fn head_for(row: &ChatRow, config: &Config) -> (r: Option<String>)
    ensures
        text::opt_text(r) == head_of(row@, config.head_size as int),
{
    let name: &str = match &row.sender_name {
        Some(n) => n.as_str(),
        None => match &row.subject_name {
            Some(n) => n.as_str(),
            None => {
                return None;
            },
        },
    };
    heads::url_for(name, config)
}

fn render_rich(rows: &Vec<ChatRow>, config: &Config, colours: &Option<Vec<u32>>) -> (r: Vec<Vec<Embed>>)
    requires
        config.bridge.embeds_per_message > 0,
    ensures
        post_texts(r@) == rich_posts(
            models::row_texts(rows@),
            0,
            config@.embeds_per_message,
            config@.head_size as int,
            opt_colours(*colours),
        ),
{
    let ghost all = models::row_texts(rows@);
    let ghost size = config@.head_size as int;
    let ghost paint = opt_colours(*colours);
    let per: u64 = config.bridge.embeds_per_message;
    let n: usize = rows.len();
    let mut r: Vec<Vec<Embed>> = Vec::new();
    let mut from: usize = 0;
    let ghost goal = rich_posts(all, 0, per as int, size, paint);
    assert(post_texts(r@) + goal =~= goal);
    while from < n
        invariant
            from <= n,
            n == rows.len(),
            all == models::row_texts(rows@),
            size == config@.head_size as int,
            paint == opt_colours(*colours),
            per == config.bridge.embeds_per_message,
            per > 0,
            goal == rich_posts(all, 0, per as int, size, paint),
            post_texts(r@) + rich_posts(all, from as int, per as int, size, paint) == goal,
        decreases n - from,
    {
        let to: usize = if (n - from) as u64 > per {
            from + per as usize
        } else {
            n
        };
        let ghost part = event_embeds(all, from as int, to as int, size, paint);
        let mut post: Vec<Embed> = Vec::new();
        assert(embed_texts(post@) =~= part.take(0));
        for i in from..to
            invariant
                from <= to <= n,
                n == rows.len(),
                all == models::row_texts(rows@),
                size == config@.head_size as int,
                paint == opt_colours(*colours),
                part == event_embeds(all, from as int, to as int, size, paint),
                embed_texts(post@) == part.take(i - from),
        {
            let e = embeds::build_event_embed(
                &rows[i],
                head_for(&rows[i], config),
                pick_colour(colours, i),
            );
            let ghost before = post@;
            assert(part[i - from] == e@);
            post.push(e);
            assert(embed_texts(post@) =~= embed_texts(before).push(e@));
            assert(embed_texts(post@) =~= part.take(i + 1 - from));
        }
        assert(part.take(to - from) =~= part);
        let ghost before = post_texts(r@);
        let ghost done = r@;
        r.push(post);
        proof {
            let rest = rich_posts(all, to as int, per as int, size, paint);
            assert(post_texts(r@) =~= before.push(part));
            assert(rich_posts(all, from as int, per as int, size, paint) == seq![part] + rest);
            assert(before.push(part) + rest =~= before + (seq![part] + rest));
        }
        from = to;
    }
    assert(post_texts(r@) + rich_posts(all, n as int, per as int, size, paint) =~= post_texts(r@));
    r
}

fn render_compact(
    groups: &Vec<Vec<ChatRow>>,
    server_label: &str,
    colours: &Option<Vec<u32>>,
    now_us: i64,
    total: usize,
) -> (r: Vec<Vec<Embed>>)
    requires
        lines_in(embeds::group_texts(groups@)) == total,
        forall|i: int|
            0 <= i < groups.len() ==> #[trigger] embeds::group_texts(groups@)[i].len() > 0,
    ensures
        post_texts(r@) == compact_posts(
            embeds::group_texts(groups@),
            server_label@,
            opt_colours(*colours),
            now_us,
        ),
{
    let ghost all = embeds::group_texts(groups@);
    let ghost paint = opt_colours(*colours);
    let ghost goal = compact_posts(all, server_label@, paint, now_us);
    let mut r: Vec<Vec<Embed>> = Vec::new();
    let mut end: usize = 0;
    assert(post_texts(r@) =~= goal.take(0));
    assert(all.take(0) =~= Seq::<Seq<ChatRowText>>::empty());
    for i in 0..groups.len()
        invariant
            all == embeds::group_texts(groups@),
            paint == opt_colours(*colours),
            goal == compact_posts(all, server_label@, paint, now_us),
            lines_in(all) == total,
            forall|k: int| 0 <= k < groups.len() ==> #[trigger] all[k].len() > 0,
            end == lines_in(all.take(i as int)),
            post_texts(r@) == goal.take(i as int),
    {
        proof {
            assert(all.take(i + 1).drop_last() =~= all.take(i as int));
            assert(all.take(i + 1).last() == all[i as int]);
            lemma_lines_grow(all, i + 1);
            assert(all[i as int].len() == groups[i as int].len());
            assert(all[i as int].len() > 0);
        }
        end = end + groups[i].len();
        let e = embeds::build_feed_batch_embed(
            &groups[i],
            server_label,
            pick_colour(colours, end - 1),
            now_us,
        );
        let mut post: Vec<Embed> = Vec::new();
        post.push(e);
        assert(embed_texts(post@) =~= seq![e@]);
        assert(goal[i as int] == seq![e@]);
        let ghost before = r@;
        r.push(post);
        assert(post_texts(r@) =~= post_texts(before).push(seq![e@]));
        assert(post_texts(r@) =~= goal.take(i + 1));
    }
    assert(goal.take(goal.len() as int) =~= goal);
    r
}

proof fn lemma_lines_grow(groups: Seq<Seq<ChatRowText>>, k: int)
    requires
        0 <= k <= groups.len(),
    ensures
        lines_in(groups.take(k)) <= lines_in(groups),
    decreases groups.len() - k,
{
    if k < groups.len() {
        lemma_lines_grow(groups, k + 1);
        assert(groups.take(k + 1).drop_last() =~= groups.take(k));
    } else {
        assert(groups.take(k) =~= groups);
    }
}

proof fn lemma_lines_flatten(groups: Seq<Seq<ChatRowText>>)
    ensures
        lines_in(groups) == embeds::flattened(groups).len(),
    decreases groups.len(),
{
    if groups.len() > 0 {
        lemma_lines_flatten(groups.drop_last());
    }
}

/// Makes the posts of some lines.
pub fn render(rows: &Vec<ChatRow>, p: &PostStyle, config: &Config) -> (r: Vec<Vec<Embed>>)
    requires
        config.bridge.embeds_per_message > 0,
        config.bridge.lines_per_message <= usize::MAX,
    ensures
        post_texts(r@) == posts(models::row_texts(rows@), *p, config@),
{
    match p.style {
        BridgeStyle::Rich => render_rich(rows, config, &p.colours),
        BridgeStyle::Compact => {
            let max: usize = config.bridge.lines_per_message as usize;
            let groups = embeds::pack_feed(rows, max);
            proof {
                let all = models::row_texts(rows@);
                let packed = embeds::group_texts(groups@);
                embeds::lemma_packing_keeps_rows(all, max as int);
                lemma_lines_flatten(packed);
                assert forall|i: int| 0 <= i < groups.len() implies
                    #[trigger] embeds::group_texts(groups@)[i].len() > 0 by {
                    assert(embeds::postable(packed[i], max as int));
                }
            }
            render_compact(&groups, p.server_label, &p.colours, p.now_us, rows.len())
        },
    }
}

// ---------------------------------------------------------------------------
// Where lines are posted
// ---------------------------------------------------------------------------

/// The first route of a kind says where its lines go: to its channel, to the channel of
/// the feed where it has none, and nowhere where it is switched off. Without a route
/// the kinds that are shown from the start go to the channel of the feed.
pub proof fn lemma_lines_follow_their_route(
    kind: models::RouteKind,
    fallback: Seq<char>,
    before: Seq<models::RouteText>,
    route: models::RouteText,
    after: Seq<models::RouteText>,
    default_kinds: Seq<Seq<char>>,
)
    requires
        route.kind == models::route_name(kind),
        forall|i: int| 0 <= i < before.len() ==> #[trigger] before[i].kind != route.kind,
    ensures
        ({
            let to = channel_of(
                models::route_name(kind),
                fallback,
                before.push(route) + after,
                default_kinds,
            );
            &&& !route.enabled ==> to is None
            &&& route.enabled && route.channel_id is Some ==> to == route.channel_id
            &&& route.enabled && route.channel_id is None ==> to == Some(fallback)
        }),
        channel_of(models::route_name(kind), fallback, before, default_kinds) == (if models::configured(
            default_kinds,
            models::route_name(kind),
        ) {
            Some(fallback)
        } else {
            None
        }),
{
    models::lemma_kind_names_read_back(kind);
    lemma_no_route(before, route.kind);
    lemma_first_route(before, route, after);
}

proof fn lemma_no_route(routes: Seq<models::RouteText>, kind: Seq<char>)
    requires
        forall|i: int| 0 <= i < routes.len() ==> #[trigger] routes[i].kind != kind,
    ensures
        chatbridge::route_of(routes, kind) is None,
    decreases routes.len(),
{
    if routes.len() > 0 {
        assert(routes[routes.len() - 1].kind != kind);
        lemma_no_route(routes.drop_last(), kind);
    }
}

proof fn lemma_first_route(
    before: Seq<models::RouteText>,
    route: models::RouteText,
    after: Seq<models::RouteText>,
)
    requires
        forall|i: int| 0 <= i < before.len() ==> #[trigger] before[i].kind != route.kind,
    ensures
        chatbridge::route_of(before.push(route) + after, route.kind) == Some(route),
    decreases after.len(),
{
    let all = before.push(route) + after;
    if after.len() == 0 {
        assert(all.drop_last() =~= before);
        lemma_no_route(before, route.kind);
    } else {
        assert(all.drop_last() =~= before.push(route) + after.drop_last());
        lemma_first_route(before, route, after.drop_last());
    }
}

/// A join that comes again later than the time within which it is no news is posted
/// again, and so is one of another player, on another host, or a leave.
pub proof fn lemma_news_are_posted(recent: Recent, row: ChatRowText, now: int)
    requires
        dup_key(row) is Some,
        forall|i: int|
            0 <= i < recent.len() ==> (#[trigger] recent[i]).0 != dup_key(row)->0 || now - recent[i].1
                > 20_000,
    ensures
        uniqued(recent, row, now).1,
{
    lemma_old_news(recent, dup_key(row)->0, now);
}

proof fn lemma_old_news(recent: Recent, key: Seq<char>, now: int)
    requires
        forall|i: int|
            0 <= i < recent.len() ==> (#[trigger] recent[i]).0 != key || now - recent[i].1 > 20_000,
    ensures
        !has_recent(counting(recent, now), key),
    decreases recent.len(),
{
    if recent.len() > 0 {
        let rest = recent.drop_last();
        assert forall|i: int| 0 <= i < rest.len() implies (#[trigger] rest[i]).0 != key || now - rest[i].1
            > 20_000 by {
            assert(recent[i] == rest[i]);
        }
        lemma_old_news(rest, key, now);
        let last = recent[recent.len() - 1];
        let live = counting(recent, now);
        let before = counting(rest, now);
        if has_recent(live, key) {
            let i = choose|i: int| 0 <= i < live.len() && #[trigger] live[i].0 == key;
            if i < before.len() {
                assert(before[i].0 == key);
            } else {
                assert(live[i] == last);
            }
        }
    }
}

/// A join or leave is told from others by its kind, its host and its player; the name is
/// compared in either case.
pub proof fn lemma_joins_are_told_apart(row: ChatRowText, name: Seq<char>)
    requires
        row.subject_name == Some(name),
        text::trimmed(name).len() > 0,
    ensures
        models::canonical(row.kind) == Some(models::RouteKind::Join) ==> dup_key(row) == Some(
            "join"@ + ":"@ + text::text_or_empty(row.server_host) + ":"@ + text::lowered(
                text::trimmed(name),
            ),
        ),
        models::canonical(row.kind) == Some(models::RouteKind::Leave) ==> dup_key(row) == Some(
            "leave"@ + ":"@ + text::text_or_empty(row.server_host) + ":"@ + text::lowered(
                text::trimmed(name),
            ),
        ),
{
}

/// Of several lines each is posted or not as if it came alone behind the others.
pub proof fn lemma_lines_are_posted_in_turn(
    recent: Recent,
    rows: Seq<ChatRowText>,
    row: ChatRowText,
    now: int,
)
    ensures
        ({
            let (before, posted) = uniqued_all(recent, rows, now);
            let (after, all) = uniqued_all(recent, rows.push(row), now);
            let (kept, news) = uniqued(before, row, now);
            &&& after == kept
            &&& news ==> all == posted.push(row)
            &&& !news ==> all == posted
        }),
        uniqued_all(recent, Seq::empty(), now) == (recent, Seq::<ChatRowText>::empty()),
{
    assert(rows.push(row).drop_last() =~= rows);
}

/// The lines of a channel are those whose kind goes there, in their order.
pub proof fn lemma_channels_get_one_more(
    rows: Seq<ChatRowText>,
    row: ChatRowText,
    id: Seq<char>,
    fallback: Seq<char>,
    routes: Seq<models::RouteText>,
    default_kinds: Seq<Seq<char>>,
)
    ensures
        channel_of(row.kind, fallback, routes, default_kinds) == Some(id) ==> lines_for(
            rows.push(row),
            id,
            fallback,
            routes,
            default_kinds,
        ) == lines_for(rows, id, fallback, routes, default_kinds).push(row),
        channel_of(row.kind, fallback, routes, default_kinds) != Some(id) ==> lines_for(
            rows.push(row),
            id,
            fallback,
            routes,
            default_kinds,
        ) == lines_for(rows, id, fallback, routes, default_kinds),
        lines_for(Seq::empty(), id, fallback, routes, default_kinds).len() == 0,
{
    assert(rows.push(row).drop_last() =~= rows);
}

/// In the rich style each line is an embed of its own, in order, with the head of its
/// player and the colour of its turn, and no post has more than fit in one.
pub proof fn lemma_rich_posts_show_each_line(
    rows: Seq<ChatRowText>,
    from: int,
    per_post: int,
    head_size: int,
    colours: Option<Seq<u32>>,
    k: int,
    j: int,
)
    requires
        0 <= from <= rows.len(),
        per_post > 0,
        0 <= k,
        0 <= j < per_post,
        from + k * per_post + j < rows.len(),
    ensures
        ({
            let all = rich_posts(rows, from, per_post, head_size, colours);
            let i = from + k * per_post + j;
            &&& k < all.len()
            &&& j < all[k].len() <= per_post
            &&& all[k][j] == embeds::event_embed(
                rows[i],
                head_of(rows[i], head_size),
                colour_at(colours, i),
            )
        }),
    decreases k,
{
    let to = if from + per_post < rows.len() {
        from + per_post
    } else {
        rows.len() as int
    };
    let all = rich_posts(rows, from, per_post, head_size, colours);
    let more = rich_posts(rows, to, per_post, head_size, colours);
    if k == 0 {
        assert(0 * per_post == 0);
        assert(all[0] == event_embeds(rows, from, to, head_size, colours));
    } else {
        assert(k * per_post >= per_post) by (nonlinear_arith)
            requires
                k >= 1,
                per_post > 0,
        ;
        assert(k * per_post == (k - 1) * per_post + per_post) by (nonlinear_arith);
        assert(to == from + per_post);
        lemma_rich_posts_show_each_line(rows, to, per_post, head_size, colours, k - 1, j);
        assert(all[k] == more[k - 1]);
    }
}

/// In the compact style each group of lines is one post.
pub proof fn lemma_compact_posts_show_each_group(
    groups: Seq<Seq<ChatRowText>>,
    server_label: Seq<char>,
    now_us: i64,
    i: int,
)
    requires
        0 <= i < groups.len(),
    ensures
        compact_posts(groups, server_label, None, now_us).len() == groups.len(),
        compact_posts(groups, server_label, None, now_us)[i] == seq![
            embeds::batch_embed(groups[i], server_label, None, now_us),
        ],
{
}

/// A line shows the head of the player it is about, where that is a name to look up.
pub proof fn lemma_heads_are_of_the_player(row: ChatRowText, name: Seq<char>, head_size: int)
    requires
        embeds::subject_of(row) == Some(name),
    ensures
        heads::username(name) ==> head_of(row, head_size) == Some(config::head_url(name, head_size)),
        !heads::username(name) ==> head_of(row, head_size) is None,
{
}

} // verus!
