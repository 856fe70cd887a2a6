//! The queue before a full server.
//!
//! A probe account sits in the queue, records its position and leaves again
//! before it gets in. The main logger pauses while it waits, so that the list of
//! players in the queue is not taken for the players online.
use vstd::prelude::*;
use vstd::string::*;

use crate::pattern;
use crate::pattern::Pattern;
use crate::text;

verus! {

/// `Position in queue: 328` and its lookalikes.
pub const QUEUE_POSITION: &'static str =
    r"(?i)(?:position\s+in\s+queue|queue\s*position|in\s+queue)\s*[:=]?\s*#?\s*(\d+)";

/// The pattern of a position in the queue, compiled once.
pub struct QueuePattern {
    position: Pattern,
}

impl QueuePattern {
    #[verifier::type_invariant]
    spec fn inv(self) -> bool {
        self.position.source() == QUEUE_POSITION@
    }

    pub fn new() -> (r: Option<QueuePattern>)
        ensures
            r is Some == pattern::regex_accepts(QUEUE_POSITION@),
    {
        let position = Pattern::new(QUEUE_POSITION)?;
        Some(QueuePattern { position })
    }
}

/// A number that fits in 32 bits with a sign.
pub open spec fn as_i32(n: Option<int>) -> Option<i32> {
    match n {
        Some(n) if i32::MIN <= n <= i32::MAX => Some(n as i32),
        _ => None,
    }
}

/// The number in the group that holds the position.
pub open spec fn position_in(groups: Seq<Option<Seq<char>>>) -> Option<i32> {
    match pattern::group_of(groups, 1) {
        Some(s) => as_i32(text::parsed_i64(s)),
        None => None,
    }
}

/// The position in the queue that a line gives.
pub open spec fn queue_position(line: Seq<char>) -> Option<i32> {
    match pattern::found_in(QUEUE_POSITION@, line) {
        Some(found) => position_in(found.groups),
        None => None,
    }
}

/// The number in the group that holds the position.
pub fn position_from_groups(groups: &Vec<Option<String>>) -> (r: Option<i32>)
    ensures
        r == position_in(pattern::group_texts(groups@)),
{
    match pattern::group(groups, 1) {
        Some(s) => match text::parse_i64(&s) {
            Some(n) => if n >= -2_147_483_648 && n <= 2_147_483_647 {
                Some(n as i32)
            } else {
                None
            },
            None => None,
        },
        None => None,
    }
}

/// The position in the queue that a line gives.
pub fn parse_queue_position(p: &QueuePattern, line: &str) -> (r: Option<i32>)
    ensures
        r == queue_position(line@),
{
    proof {
        use_type_invariant(p);
    }
    match p.position.find(line) {
        Some(found) => position_from_groups(&found.groups),
        None => None,
    }
}

/// Whether a line is one that only a player in the queue sees.
pub open spec fn queue_line(line: Seq<char>) -> bool {
    let lower = text::unicode_lower(line);
    ||| queue_position(line) is Some
    ||| text::has_text(lower, "position in queue"@)
    ||| text::has_text(lower, "2b2t is full"@)
    ||| text::has_text(lower, "queued for server"@)
}

pub fn looks_like_queue_limbo(p: &QueuePattern, line: &str) -> (b: bool)
    ensures
        b == queue_line(line@),
{
    let lower = text::to_lowercase(line);
    parse_queue_position(p, line).is_some() || text::has(&lower, "position in queue") || text::has(
        &lower,
        "2b2t is full",
    ) || text::has(&lower, "queued for server")
}

/// Whether a line says that the queue is over.
pub open spec fn connected_line(line: Seq<char>) -> bool {
    text::has_text(text::unicode_lower(line), "connected to the server"@)
}

pub fn says_connected(line: &str) -> (b: bool)
    ensures
        b == connected_line(line@),
{
    text::has(&text::to_lowercase(line), "connected to the server")
}

// ---------------------------------------------------------------------------
// The count of players that a server broadcasts
// ---------------------------------------------------------------------------

pub open spec fn count_char() -> spec_fn(char) -> bool {
    |c: char| text::is_digit(c) || c == ','
}

pub open spec fn before_count() -> spec_fn(char) -> bool {
    |c: char| !text::is_digit(c) && c != '\n'
}

/// The number that digits with commas between them stand for.
pub open spec fn count_value(s: Seq<char>) -> Option<int> {
    text::parsed_i64(text::kept(s, |c: char| c != ','))
}

/// The count behind "online players".
pub open spec fn count_behind(lower: Seq<char>) -> Option<int> {
    match text::split_once_text(lower, "online players"@) {
        Some((_, after)) => count_value(
            text::front_run(text::drop_front(after, before_count()), count_char()),
        ),
        None => None,
    }
}

/// The count before "players online".
pub open spec fn count_ahead(lower: Seq<char>) -> Option<int> {
    match text::split_once_text(lower, "players online"@) {
        Some((before, _)) => count_value(
            text::back_run(text::trimmed_end(before), count_char()),
        ),
        None => None,
    }
}

/// The count of players in the header or footer of a tab list.
pub open spec fn online_count(line: Seq<char>) -> Option<int> {
    let lower = text::unicode_lower(line);
    if count_behind(lower) is Some {
        count_behind(lower)
    } else {
        count_ahead(lower)
    }
}

fn is_count_char(c: char) -> (b: bool)
    ensures
        b == count_char()(c),
{
    text::digit(c) || c == ','
}

fn count_after_label(lower: &str) -> (r: Option<i64>)
    ensures
        text::opt_i64(r) == count_behind(lower@),
{
    let (_, after) = text::split_once(lower, "online players")?;
    let v = text::chars_of(&after);
    let mut i: usize = 0;
    while i < v.len() && !text::digit(v[i]) && v[i] != '\n'
        invariant
            i <= v.len(),
            forall|j: int| 0 <= j < i ==> before_count()(#[trigger] v@[j]),
        decreases v.len() - i,
    {
        i += 1;
    }
    let mut k: usize = i;
    while k < v.len() && is_count_char(v[k])
        invariant
            i <= k <= v.len(),
            forall|j: int| i <= j < k ==> count_char()(#[trigger] v@[j]),
        decreases v.len() - k,
    {
        k += 1;
    }
    let run = text::string_of(&v, i, k);
    proof {
        text::lemma_drop_front(v@, before_count(), i as int);
        let rest = v@.skip(i as int);
        assert forall|j: int| 0 <= j < k - i implies count_char()(#[trigger] rest[j]) by {
            assert(count_char()(v@[i + j]));
        }
        text::lemma_drop_front(rest, count_char(), k - i);
        assert(run@ =~= text::front_run(rest, count_char()));
    }
    text::parse_i64(&text::without(&run, ','))
}

fn count_before_label(lower: &str) -> (r: Option<i64>)
    ensures
        text::opt_i64(r) == count_ahead(lower@),
{
    let (before, _) = text::split_once(lower, "players online")?;
    let head = text::trim_end(&before);
    let v = text::chars_of(&head);
    let mut k: usize = v.len();
    while k > 0 && is_count_char(v[k - 1])
        invariant
            k <= v.len(),
            forall|j: int| k <= j < v.len() ==> count_char()(#[trigger] v@[j]),
        decreases k,
    {
        k -= 1;
    }
    let run = text::string_of(&v, k, v.len());
    proof {
        text::lemma_drop_back(v@, count_char(), k as int);
        assert(run@ =~= text::back_run(v@, count_char()));
    }
    text::parse_i64(&text::without(&run, ','))
}

/// Reads a live player count out of the header or footer of a tab list. Servers
/// put the number before or behind the words.
pub fn parse_online_count(line: &str) -> (r: Option<i64>)
    ensures
        text::opt_i64(r) == online_count(line@),
{
    let lower = text::to_lowercase(line);
    match count_after_label(&lower) {
        Some(n) => Some(n),
        None => count_before_label(&lower),
    }
}

/// How long a count may stand before it is written again although it did not
/// change.
pub const REPORT_AGAIN_MS: u64 = 20_000;

/// Whether a count is written: when it changed, or when the last write is old.
pub open spec fn writes_count(
    previous: int,
    count: int,
    since_write_ms: Option<int>,
) -> bool {
    previous != count || (match since_write_ms {
        Some(ms) => ms >= REPORT_AGAIN_MS,
        None => true,
    })
}

pub fn should_write_count(previous: i64, count: i64, since_write_ms: Option<u64>) -> (b: bool)
    ensures
        b == writes_count(previous as int, count as int, text::opt_int(since_write_ms)),
{
    previous != count || match since_write_ms {
        Some(ms) => ms >= REPORT_AGAIN_MS,
        None => true,
    }
}

// ---------------------------------------------------------------------------
// The probe in the queue
// ---------------------------------------------------------------------------

/// What the probe does about a line.
#[derive(Debug, Clone, Copy, PartialEq, Eq, Structural)]
pub enum ProbeStep {
    Nothing,
    /// The queue is over: record position zero as not queued, and leave.
    Reached,
    /// Record the position as queued, and leave where it is near enough.
    Position { position: i32, leave: bool },
}

/// What the probe does about a line, given whether it is leaving already.
pub open spec fn probe_step(line: Seq<char>, leave_at: int, leaving: bool) -> ProbeStep {
    if connected_line(line) && !leaving {
        ProbeStep::Reached
    } else {
        match queue_position(line) {
            Some(position) => ProbeStep::Position {
                position,
                leave: position <= leave_at && !leaving,
            },
            None => ProbeStep::Nothing,
        }
    }
}

/// Whether the probe is leaving after a step.
pub open spec fn leaves(step: ProbeStep, leaving: bool) -> bool {
    leaving || step == ProbeStep::Reached || (step matches ProbeStep::Position {
        leave: true,
        ..
    })
}

/// Takes in a line as the probe. It leaves once, when it got in or its position
/// is near enough.
pub fn apply_queue_probe(p: &QueuePattern, line: &str, leave_at: i32, leaving: &mut bool) -> (step:
    ProbeStep)
    ensures
        step == probe_step(line@, leave_at as int, *old(leaving)),
        *final(leaving) == leaves(step, *old(leaving)),
{
    if says_connected(line) && !*leaving {
        *leaving = true;
        return ProbeStep::Reached;
    }
    match parse_queue_position(p, line) {
        Some(position) => {
            let leave = position <= leave_at && !*leaving;
            if leave {
                *leaving = true;
            }
            ProbeStep::Position { position, leave }
        },
        None => ProbeStep::Nothing,
    }
}

/// The probe leaves at most once in a cycle: one that is leaving takes no step
/// that leaves again.
pub proof fn lemma_leaves_once(line: Seq<char>, leave_at: int)
    ensures
        probe_step(line, leave_at, true) != ProbeStep::Reached,
        probe_step(line, leave_at, true) matches ProbeStep::Position { leave, .. } ==> !leave,
{
}

// ---------------------------------------------------------------------------
// The main logger in the queue
// ---------------------------------------------------------------------------

/// What a line does to the session of the main logger.
#[derive(Debug, Clone, Copy, PartialEq, Eq, Structural)]
pub enum LimboStep {
    Nothing,
    /// Entered the queue: forget who is online and close the session.
    Enter,
    /// Left the queue: open a session.
    Leave,
    /// One line said both: close the session and open another.
    EnterAndLeave,
}

/// What a line does, given whether the logger is in the queue.
pub open spec fn limbo_step(line: Seq<char>, in_limbo: bool) -> LimboStep {
    let enters = queue_line(line) && !in_limbo;
    let exits = connected_line(line) && (in_limbo || enters);
    if enters && exits {
        LimboStep::EnterAndLeave
    } else if enters {
        LimboStep::Enter
    } else if exits {
        LimboStep::Leave
    } else {
        LimboStep::Nothing
    }
}

/// Whether the logger is in the queue after a step.
pub open spec fn in_limbo_after(step: LimboStep, in_limbo: bool) -> bool {
    match step {
        LimboStep::Nothing => in_limbo,
        LimboStep::Enter => true,
        LimboStep::Leave => false,
        LimboStep::EnterAndLeave => false,
    }
}

/// Takes in a line as the main logger.
pub fn note_queue_limbo(p: &QueuePattern, line: &str, in_limbo: &mut bool) -> (step: LimboStep)
    ensures
        step == limbo_step(line@, *old(in_limbo)),
        *final(in_limbo) == in_limbo_after(step, *old(in_limbo)),
{
    let enters = looks_like_queue_limbo(p, line) && !*in_limbo;
    if enters {
        *in_limbo = true;
    }
    let exits = says_connected(line) && *in_limbo;
    if exits {
        *in_limbo = false;
    }
    if enters && exits {
        LimboStep::EnterAndLeave
    } else if enters {
        LimboStep::Enter
    } else if exits {
        LimboStep::Leave
    } else {
        LimboStep::Nothing
    }
}

/// Sessions alternate: while the logger is in the queue no line closes the
/// session a second time, and outside it none opens one without closing one.
pub proof fn lemma_limbo_alternates(line: Seq<char>)
    ensures
        limbo_step(line, true) != LimboStep::Enter,
        limbo_step(line, true) != LimboStep::EnterAndLeave,
        limbo_step(line, false) != LimboStep::Leave,
{
}

/// Whether what the client sees is kept out of the public feed: as a probe, in
/// the queue, and in the lobby of a server whose world lies behind a portal.
pub open spec fn suppressed(
    queue_probe: bool,
    in_limbo: bool,
    enter_portal: bool,
    in_main_world: bool,
) -> bool {
    queue_probe || in_limbo || (enter_portal && !in_main_world)
}

pub fn suppress_public_feed(
    queue_probe: bool,
    in_limbo: bool,
    enter_portal: bool,
    in_main_world: bool,
) -> (b: bool)
    ensures
        b == suppressed(queue_probe, in_limbo, enter_portal, in_main_world),
{
    queue_probe || in_limbo || (enter_portal && !in_main_world)
}

/// A line with a place in the queue puts the client in limbo, a line that says it is
/// connected takes it out, and any other leaves it where it is.
pub proof fn lemma_limbo(line: Seq<char>, in_limbo: bool)
    ensures
        queue_line(line) && !connected_line(line) ==> in_limbo_after(
            limbo_step(line, in_limbo),
            in_limbo,
        ),
        connected_line(line) && (in_limbo || queue_line(line)) ==> !in_limbo_after(
            limbo_step(line, in_limbo),
            in_limbo,
        ),
        !queue_line(line) && !connected_line(line) ==> limbo_step(line, in_limbo) == LimboStep::Nothing,
        queue_line(line) && !connected_line(line) && !in_limbo ==> limbo_step(line, in_limbo)
            == LimboStep::Enter,
        connected_line(line) && in_limbo ==> limbo_step(line, in_limbo) == LimboStep::Leave,
        in_limbo_after(LimboStep::Nothing, in_limbo) == in_limbo,
{
}

/// A probe that reached the server leaves, and so does one that is far enough ahead; it
/// notes each place it sees.
pub proof fn lemma_probes(line: Seq<char>, leave_at: int, leaving: bool)
    ensures
        connected_line(line) && !leaving ==> probe_step(line, leave_at, leaving) == ProbeStep::Reached
            && leaves(probe_step(line, leave_at, leaving), leaving),
        (!connected_line(line) || leaving) && queue_position(line) is Some ==> (probe_step(
            line,
            leave_at,
            leaving,
        ) matches ProbeStep::Position { position, leave } && position == queue_position(line)->0
            && leave == (position <= leave_at && !leaving)),
        !connected_line(line) && queue_position(line) is None ==> probe_step(line, leave_at, leaving)
            == ProbeStep::Nothing && leaves(probe_step(line, leave_at, leaving), leaving) == leaving,
        !connected_line(line) && queue_position(line) is Some && queue_position(line)->0 <= leave_at
            ==> leaves(probe_step(line, leave_at, leaving), leaving),
        !connected_line(line) && queue_position(line) is Some && queue_position(line)->0 > leave_at
            && !leaving ==> !leaves(probe_step(line, leave_at, leaving), leaving),
{
}

/// The place in the queue is the number in the group of the pattern.
pub proof fn lemma_places(line: Seq<char>, digits: Seq<char>, n: int)
    requires
        pattern::found_in(QUEUE_POSITION@, line) matches Some(found) && pattern::group_of(
            found.groups,
            1,
        ) == Some(digits),
        text::parsed_i64(digits) == Some(n),
        0 <= n <= i32::MAX,
    ensures
        queue_position(line) matches Some(p) && p == n,
        queue_line(line),
{
}

/// A count is written where it changed, and again after a while.
pub proof fn lemma_counts_are_written(previous: int, count: int, ms: int)
    ensures
        previous != count ==> writes_count(previous, count, Some(ms)),
        writes_count(count, count, None),
        ms >= 20_000 ==> writes_count(count, count, Some(ms)),
        ms < 20_000 ==> !writes_count(count, count, Some(ms)),
{
}

/// What is kept out of the feed.
pub proof fn lemma_what_is_kept_out(in_main_world: bool, enter_portal: bool)
    ensures
        suppressed(true, false, enter_portal, in_main_world),
        suppressed(false, true, enter_portal, in_main_world),
        suppressed(false, false, true, false),
        !suppressed(false, false, true, true),
        !suppressed(false, false, false, in_main_world),
{
}

} // verus!
