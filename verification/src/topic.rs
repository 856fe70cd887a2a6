//! The topic of the feed's channel.
use vstd::prelude::*;
use vstd::string::*;

use crate::formatting;
use crate::formatting::Limits;
use crate::models::TopicStats;
use crate::text;

verus! {

/// How long ago the last line was.
pub open spec fn since_text(last_us: Option<i64>, now_us: i64) -> Seq<char> {
    match last_us {
        None => "no chat logged yet"@,
        Some(at) => {
            let minutes = minutes_since(at as int, now_us as int);
            let hours = minutes / 60;
            if minutes < 1 {
                "last line just now"@
            } else if minutes < 60 {
                "last line "@ + text::decimal(minutes) + "m ago"@
            } else if hours < 24 {
                "last line "@ + text::decimal(hours) + "h ago"@
            } else {
                "last line "@ + text::decimal(hours / 24) + "d ago"@
            }
        },
    }
}

/// Whole minutes between two times; none where the first is later.
pub open spec fn minutes_since(at_us: int, now_us: int) -> int {
    if now_us <= at_us {
        0
    } else {
        (now_us - at_us) / 60_000_000
    }
}

fn since(last_us: Option<i64>, now_us: i64) -> (r: String)
    ensures
        r@ == since_text(last_us, now_us),
{
    let at: i64 = match last_us {
        Some(at) => at,
        None => {
            return text::copy("no chat logged yet");
        },
    };
    let minutes: u64 = if now_us <= at {
        0
    } else {
        ((now_us as i128 - at as i128) as u64) / 60_000_000
    };
    let hours: u64 = minutes / 60;
    if minutes < 1 {
        text::copy("last line just now")
    } else if minutes < 60 {
        text::cat3("last line ", &text::number(minutes), "m ago")
    } else if hours < 24 {
        text::cat3("last line ", &text::number(hours), "h ago")
    } else {
        text::cat3("last line ", &text::number(hours / 24), "d ago")
    }
}

/// A number below a hundred in two digits.
pub open spec fn two_digits(n: int) -> Seq<char> {
    if n < 10 {
        "0"@ + text::decimal(n)
    } else {
        text::decimal(n)
    }
}

fn pad_two(n: u64) -> (r: String)
    ensures
        r@ == two_digits(n as int),
{
    if n < 10 {
        text::cat2("0", &text::number(n))
    } else {
        text::number(n)
    }
}

/// The hour and minute of a time, in UTC.
pub open spec fn stamp_text(now_us: int) -> Seq<char> {
    let minute = now_us / 60_000_000;
    "updated "@ + two_digits((minute / 60) % 24) + ":"@ + two_digits(minute % 60) + " UTC"@
}

fn stamp(now_us: i64) -> (r: String)
    ensures
        r@ == stamp_text(now_us as int),
{
    let day: i64 = 86_400_000_000;
    let ghost t = now_us as int;
    // The time within its day, which is the same for times before the epoch.
    let in_day: i64 = if now_us >= 0 {
        now_us % day
    } else {
        day - 1 - ((-(now_us + 1)) % day)
    };
    assert(in_day == t % 86_400_000_000);
    let minute: u64 = in_day as u64 / 60_000_000;
    proof {
        let q = t / 86_400_000_000;
        assert(t == 86_400_000_000 * q + in_day);
        assert(t / 60_000_000 == 1440 * q + in_day as int / 60_000_000);
        let m = t / 60_000_000;
        assert(minute as int == m - 1440 * q);
        assert(m / 60 == 24 * q + (minute as int) / 60);
        assert((m / 60) % 24 == (minute as int) / 60);
        assert(m % 60 == (minute as int) % 60);
    }
    text::cat5("updated ", &pad_two(minute / 60), ":", &pad_two(minute % 60), " UTC")
}

pub open spec fn and_when(parts: Seq<Seq<char>>, n: int, words: Seq<char>) -> Seq<Seq<char>> {
    if n > 0 {
        parts.push(formatting::grouped(n) + words)
    } else {
        parts
    }
}

fn add_when(parts: &mut Vec<String>, n: i64, words: &str)
    ensures
        text::texts(final(parts)@) == and_when(text::texts(old(parts)@), n as int, words@),
{
    if n > 0 {
        let part = text::cat2(&formatting::fmt(n), words);
        proof {
            text::lemma_texts_push(parts@, part);
        }
        parts.push(part);
    }
}

fn push(parts: &mut Vec<String>, part: String)
    ensures
        text::texts(final(parts)@) == text::texts(old(parts)@).push(part@),
{
    proof {
        text::lemma_texts_push(parts@, part);
    }
    parts.push(part);
}

/// Who is online, or since when nothing was heard.
pub open spec fn state_parts(label: Seq<char>, stats: TopicStats, now_us: i64) -> Seq<Seq<char>> {
    let host = seq![
        match text::opt_text(stats.host) {
            Some(h) => h,
            None => label,
        },
    ];
    if stats.logger_live {
        let online = host.push(formatting::grouped(stats.online as int) + " online"@);
        if stats.peak_today > stats.online {
            online.push(
                "peak "@ + formatting::grouped(stats.peak_today as int) + " today"@,
            )
        } else {
            online
        }
    } else {
        host.push("logger offline"@).push(since_text(stats.last_message_at, now_us))
    }
}

/// The parts of a topic.
pub open spec fn topic_parts(label: Seq<char>, stats: TopicStats, now_us: i64) -> Seq<Seq<char>> {
    let state = state_parts(label, stats, now_us);
    let players = and_when(state, stats.players_24h as int, " players in 24h"@);
    let joins = and_when(players, stats.joins_1h as int, " joins/h"@);
    let chat = and_when(joins, stats.chat_1h as int, " chat/h"@);
    let deaths = and_when(chat, stats.deaths_24h as int, " deaths in 24h"@);
    deaths.push(stamp_text(now_us as int))
}

/// The topic of a server.
pub open spec fn topic_text(label: Seq<char>, stats: TopicStats, now_us: i64) -> Seq<char> {
    formatting::clamped(
        text::join_text(topic_parts(label, stats, now_us), " · "@),
        Limits::TOPIC as int,
    )
}

pub fn render_topic(label: &str, stats: &TopicStats, now_us: i64) -> (r: String)
    ensures
        r@ == topic_text(label@, *stats, now_us),
{
    let mut parts: Vec<String> = Vec::new();
    let host: &str = match &stats.host {
        Some(h) => h.as_str(),
        None => label,
    };
    push(&mut parts, text::copy(host));
    assert(text::texts(parts@) =~= seq![host@]);
    if stats.logger_live {
        push(&mut parts, text::cat2(&formatting::fmt(stats.online), " online"));
        if stats.peak_today > stats.online {
            push(
                &mut parts,
                text::cat3("peak ", &formatting::fmt(stats.peak_today), " today"),
            );
        }
    } else {
        push(&mut parts, text::copy("logger offline"));
        push(&mut parts, since(stats.last_message_at, now_us));
    }
    add_when(&mut parts, stats.players_24h, " players in 24h");
    add_when(&mut parts, stats.joins_1h, " joins/h");
    add_when(&mut parts, stats.chat_1h, " chat/h");
    add_when(&mut parts, stats.deaths_24h, " deaths in 24h");
    push(&mut parts, stamp(now_us));
    formatting::clamp(&text::join(&parts, " · "), Limits::TOPIC)
}

#[derive(Debug, Clone, Copy, PartialEq, Eq, Structural)]
pub enum TopicResult {
    Updated,
    Unchanged,
    NoChannel,
    Unsupported,
    Forbidden,
    Failed,
}

/// How long before the start the last update counts as done.
pub const HEAD_START_MS: i64 = 10_000_000;

/// What is known of the topic of a channel.
pub struct ChannelTopic {
    /// The topic that was set last.
    pub last_text: Option<String>,
    /// When an update was last tried, on a clock that never goes back.
    pub last_run_ms: i64,
    /// The channel that could not be edited and was complained about.
    pub complained_about: Option<String>,
}

/// Whether Discord says that something is not allowed.
pub open spec fn not_allowed(message: Seq<char>) -> bool {
    text::has_text(message, "Missing Access"@) || text::has_text(message, "Missing Permissions"@)
        || text::has_text(message, "50013"@) || text::has_text(message, "50001"@)
}

pub fn is_not_allowed(message: &str) -> (b: bool)
    ensures
        b == not_allowed(message@),
{
    text::has(message, "Missing Access") || text::has(message, "Missing Permissions")
        || text::has(message, "50013") || text::has(message, "50001")
}

impl ChannelTopic {
    /// A topic that was never set. The first update is due as if the last had been
    /// well before the start.
    pub fn new(now_ms: i64) -> (t: Self)
        requires
            now_ms >= 0,
        ensures
            t.last_text is None,
            t.last_run_ms == now_ms - HEAD_START_MS,
            t.complained_about is None,
    {
        ChannelTopic {
            last_text: None,
            last_run_ms: now_ms - HEAD_START_MS,
            complained_about: None,
        }
    }

    /// Whether it is time for an update.
    pub open spec fn is_due(self, enabled: bool, interval_ms: int, now_ms: int) -> bool {
        enabled && now_ms - self.last_run_ms >= interval_ms
    }

    pub fn due(&self, enabled: bool, interval_ms: u64, now_ms: i64) -> (b: bool)
        ensures
            b == self.is_due(enabled, interval_ms as int, now_ms as int),
    {
        enabled && now_ms as i128 - self.last_run_ms as i128 >= interval_ms as i128
    }

    /// The channel to set the topic of, if there is one.
    pub fn channel(&mut self, channel_id: &Option<String>, now_ms: i64) -> (r: Result<u64, TopicResult>)
        ensures
            final(self).last_run_ms == now_ms,
            text::opt_text(final(self).last_text) == text::opt_text(old(self).last_text),
            text::opt_text(final(self).complained_about) == text::opt_text(old(self).complained_about),
            r == channel_in(text::opt_text(*channel_id)),
    {
        self.last_run_ms = now_ms;
        match channel_id {
            None => Err(TopicResult::NoChannel),
            Some(raw) => match text::parse_u64(raw) {
                Some(id) => Ok(id),
                None => Err(TopicResult::Unsupported),
            },
        }
    }

    /// Whether a topic is another than the one that is set.
    pub fn differs(&self, topic: &str) -> (b: bool)
        ensures
            b == (text::opt_text(self.last_text) != Some(topic@)),
    {
        match &self.last_text {
            Some(t) => !text::same(t, topic),
            None => true,
        }
    }

    /// The topic was set.
    pub fn updated(&mut self, topic: String) -> (r: TopicResult)
        ensures
            r == TopicResult::Updated,
            text::opt_text(final(self).last_text) == Some(topic@),
            final(self).complained_about is None,
            final(self).last_run_ms == old(self).last_run_ms,
    {
        self.last_text = Some(topic);
        self.complained_about = None;
        TopicResult::Updated
    }

    /// The topic could not be set. Says what came of it, and whether to complain:
    /// about a channel that may not be edited that is done once.
    pub fn refused(&mut self, channel_id: u64, message: &str) -> (r: (TopicResult, bool))
        ensures
            r.0 == (if not_allowed(message@) {
                TopicResult::Forbidden
            } else {
                TopicResult::Failed
            }),
            r.1 == (!not_allowed(message@) || text::opt_text(old(self).complained_about) != Some(
                text::decimal(channel_id as int),
            )),
            text::opt_text(final(self).complained_about) == (if not_allowed(message@) {
                Some(text::decimal(channel_id as int))
            } else {
                text::opt_text(old(self).complained_about)
            }),
            text::opt_text(final(self).last_text) == text::opt_text(old(self).last_text),
            final(self).last_run_ms == old(self).last_run_ms,
    {
        if !is_not_allowed(message) {
            return (TopicResult::Failed, true);
        }
        let id = text::number(channel_id);
        let again = match &self.complained_about {
            Some(c) => text::same(c, &id),
            None => false,
        };
        self.complained_about = Some(id);
        (TopicResult::Forbidden, !again)
    }
}

/// A topic fits in what Discord accepts.
pub proof fn lemma_topics_fit(label: Seq<char>, stats: TopicStats, now_us: i64)
    ensures
        topic_text(label, stats, now_us).len() <= Limits::TOPIC,
{
    formatting::lemma_clamped_fits(
        text::join_text(topic_parts(label, stats, now_us), " · "@),
        Limits::TOPIC as int,
    );
}

/// How long the last line is ago is told in minutes, hours or days.
pub proof fn lemma_how_long_ago(at: i64, now: i64)
    ensures
        since_text(None, now) == "no chat logged yet"@,
        now - at < 60_000_000 ==> since_text(Some(at), now) == "last line just now"@,
        60_000_000 <= now - at < 3_600_000_000 ==> since_text(Some(at), now) == "last line "@
            + text::decimal((now - at) / 60_000_000) + "m ago"@,
        3_600_000_000 <= now - at < 86_400_000_000 ==> since_text(Some(at), now) == "last line "@
            + text::decimal((now - at) / 3_600_000_000) + "h ago"@,
        now - at >= 86_400_000_000 ==> since_text(Some(at), now) == "last line "@ + text::decimal(
            (now - at) / 86_400_000_000,
        ) + "d ago"@,
{
    let d = now - at;
    if d > 0 {
        assert((d / 60_000_000) / 60 == d / 3_600_000_000) by (nonlinear_arith)
            requires
                d > 0,
        ;
        assert((d / 3_600_000_000) / 24 == d / 86_400_000_000) by (nonlinear_arith)
            requires
                d > 0,
        ;
    }
}

/// The topic starts with the host. Of a server that is logged it tells how many are online
/// and, where more were, the most of the day; of one that is not it tells so. What is
/// nought is left out.
pub proof fn lemma_topics_tell(label: Seq<char>, stats: TopicStats, now_us: i64)
    ensures
        ({
            let parts = topic_parts(label, stats, now_us);
            &&& parts[0] == (if stats.host is Some {
                stats.host->0@
            } else {
                label
            })
            &&& stats.logger_live ==> parts[1] == formatting::grouped(stats.online as int) + " online"@
            &&& stats.logger_live && stats.peak_today > stats.online ==> parts[2] == "peak "@
                + formatting::grouped(stats.peak_today as int) + " today"@
            &&& !stats.logger_live ==> parts[1] == "logger offline"@ && parts[2] == since_text(
                stats.last_message_at,
                now_us,
            )
            &&& stats.players_24h > 0 ==> parts.contains(
                formatting::grouped(stats.players_24h as int) + " players in 24h"@,
            )
            &&& stats.joins_1h > 0 ==> parts.contains(
                formatting::grouped(stats.joins_1h as int) + " joins/h"@,
            )
            &&& stats.chat_1h > 0 ==> parts.contains(
                formatting::grouped(stats.chat_1h as int) + " chat/h"@,
            )
            &&& stats.deaths_24h > 0 ==> parts.contains(
                formatting::grouped(stats.deaths_24h as int) + " deaths in 24h"@,
            )
            &&& parts.last() == stamp_text(now_us as int)
        }),
{
    let state = state_parts(label, stats, now_us);
    let players = and_when(state, stats.players_24h as int, " players in 24h"@);
    let joins = and_when(players, stats.joins_1h as int, " joins/h"@);
    let chat = and_when(joins, stats.chat_1h as int, " chat/h"@);
    let deaths = and_when(chat, stats.deaths_24h as int, " deaths in 24h"@);
    let parts = topic_parts(label, stats, now_us);
    assert(state.len() >= 2);
    if stats.players_24h > 0 {
        assert(parts[state.len() as int] == players.last());
    }
    if stats.joins_1h > 0 {
        assert(parts[players.len() as int] == joins.last());
    }
    if stats.chat_1h > 0 {
        assert(parts[joins.len() as int] == chat.last());
    }
    if stats.deaths_24h > 0 {
        assert(parts[chat.len() as int] == deaths.last());
    }
}

/// The topic tells the time of day in hours and minutes.
pub proof fn lemma_stamps(day: int, h: int, m: int, rest: int)
    requires
        0 <= day,
        0 <= h < 24,
        0 <= m < 60,
        0 <= rest < 60_000_000,
    ensures
        stamp_text(((day * 24 + h) * 60 + m) * 60_000_000 + rest) == "updated "@ + two_digits(h) + ":"@
            + two_digits(m) + " UTC"@,
        m >= 10 ==> two_digits(m) == text::decimal(m),
        m < 10 ==> two_digits(m) == "0"@ + text::decimal(m),
{
    let t = ((day * 24 + h) * 60 + m) * 60_000_000 + rest;
    assert(t / 60_000_000 == (day * 24 + h) * 60 + m) by (nonlinear_arith)
        requires
            t == ((day * 24 + h) * 60 + m) * 60_000_000 + rest,
            0 <= rest < 60_000_000,
    ;
    let minute = (day * 24 + h) * 60 + m;
    assert(minute / 60 == day * 24 + h && minute % 60 == m);
    assert((day * 24 + h) % 24 == h);
}

/// A topic is due once its time has passed, where topics are switched on.
pub proof fn lemma_topics_are_due(c: ChannelTopic, interval_ms: int, now_ms: int)
    ensures
        !c.is_due(false, interval_ms, now_ms),
        now_ms - c.last_run_ms >= interval_ms ==> c.is_due(true, interval_ms, now_ms),
        now_ms - c.last_run_ms < interval_ms ==> !c.is_due(true, interval_ms, now_ms),
{
}

/// The channel whose topic is set.
pub open spec fn channel_in(raw: Option<Seq<char>>) -> Result<u64, TopicResult> {
    match raw {
        None => Err(TopicResult::NoChannel),
        Some(raw) => match text::parsed_u64(raw) {
            Some(id) => Ok(id as u64),
            None => Err(TopicResult::Unsupported),
        },
    }
}

/// Without a channel there is no topic to set, and a channel is a number.
pub proof fn lemma_channels_of_topics(raw: Seq<char>, n: u64)
    ensures
        channel_in(None) == Err::<u64, TopicResult>(TopicResult::NoChannel),
        text::parsed_u64(raw) is None ==> channel_in(Some(raw)) == Err::<u64, TopicResult>(
            TopicResult::Unsupported,
        ),
        text::parsed_u64(raw) == Some(n as int) ==> channel_in(Some(raw)) == Ok::<u64, TopicResult>(n),
{
}

/// What Discord says of a channel that the bot may not change.
pub proof fn lemma_topics_not_allowed(before: Seq<char>, after: Seq<char>)
    ensures
        not_allowed(before + "Missing Access"@ + after),
        not_allowed(before + "Missing Permissions"@ + after),
        not_allowed(before + "50013"@ + after),
        not_allowed(before + "50001"@ + after),
{
    text::lemma_has_inside(before, "Missing Access"@, after);
    text::lemma_has_inside(before, "Missing Permissions"@, after);
    text::lemma_has_inside(before, "50013"@, after);
    text::lemma_has_inside(before, "50001"@, after);
}

} // verus!
