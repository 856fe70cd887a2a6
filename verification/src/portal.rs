//! The walk from a lobby into the world.
//!
//! Heights are whole blocks: the block that the client stands in.
use vstd::prelude::*;

verus! {

/// Below this the client falls out of the lobby.
pub const SINK_HEIGHT: i64 = 40;

/// Below this the client fell while it searched.
pub const VOID_HEIGHT: i64 = 50;

/// From this on the client stands in the lobby.
pub const LOBBY_HEIGHT: i64 = 130;

/// How long to search where the client stands in the lobby or fell out of it.
pub const LONG_SEARCH_SECS: u32 = 180;

/// How long to search elsewhere.
pub const SHORT_SEARCH_SECS: u32 = 25;

/// How often the portal is walked into.
pub const MAX_ATTEMPTS: u32 = 12;

/// How many seconds a teleport may take.
pub const TELEPORT_SECS: u32 = 25;

/// Farther than this from the portal, in blocks, the client has left the lobby.
pub const LEFT_LOBBY_BLOCKS: u32 = 24;

/// Whether the client falls out of the lobby.
pub open spec fn sinks(height: Option<i64>) -> bool {
    height matches Some(y) && y < SINK_HEIGHT
}

pub fn is_sinking(height: Option<i64>) -> (b: bool)
    ensures
        b == sinks(height),
{
    match height {
        Some(y) => y < SINK_HEIGHT,
        None => false,
    }
}

/// Whether a portal stands where the lobby's does.
pub open spec fn lobby_height(y: int) -> bool {
    140 <= y <= 190
}

pub fn is_lobby_portal(y: i32) -> (b: bool)
    ensures
        b == lobby_height(y as int),
{
    y >= 140 && y <= 190
}

/// Whether a logger that stays in the lobby stands in the world: at the height of
/// ground, with no portal about.
pub open spec fn in_world(height: Option<i64>, portal_near: bool) -> bool {
    (height matches Some(y) && VOID_HEIGHT <= y < 135) && !portal_near
}

pub fn looks_like_main_world(height: Option<i64>, portal_near: bool) -> (b: bool)
    ensures
        b == in_world(height, portal_near),
{
    match height {
        Some(y) => VOID_HEIGHT <= y && y < 135 && !portal_near,
        None => false,
    }
}

/// How long to search for a portal. A server that is reserving a place says that
/// it takes a minute, so giving up early would leave the client in the void.
pub open spec fn search_secs(height: Option<i64>) -> u32 {
    match height {
        Some(y) if y >= LOBBY_HEIGHT || y < VOID_HEIGHT => LONG_SEARCH_SECS,
        _ => SHORT_SEARCH_SECS,
    }
}

pub fn portal_search_secs(height: Option<i64>) -> (n: u32)
    ensures
        n == search_secs(height),
{
    match height {
        Some(y) if y >= LOBBY_HEIGHT || y < VOID_HEIGHT => LONG_SEARCH_SECS,
        _ => SHORT_SEARCH_SECS,
    }
}

/// How far a walk has come.
#[derive(Debug, Clone, Copy, PartialEq, Eq, Structural)]
pub enum Walk {
    /// Before the search.
    Begin,
    /// Searching, for so many seconds.
    Searching { waited: u32 },
    /// About to walk into the portal for the n-th time.
    Approaching { attempt: u32 },
    /// Walked in, waiting for the teleport for so many seconds.
    Waiting { attempt: u32, waited: u32 },
    /// Over; whether the client has left the lobby for certain.
    Over { left: bool },
}

/// What the client sees.
#[derive(Debug, Clone, Copy, PartialEq, Eq, Structural)]
pub struct Sight {
    pub height: Option<i64>,
    pub portal_near: bool,
    /// Whether the client is far from the portal that it walks to.
    pub left: bool,
}

/// What the client does before it looks again.
#[derive(Debug, Clone, Copy, PartialEq, Eq, Structural)]
pub enum Move {
    /// Nothing more.
    Stop,
    /// Look again at once.
    Look,
    /// Wait for a second.
    Sleep,
    /// Walk into the portal.
    WalkIn,
    /// Step away from the portal.
    StepAway,
}

/// What a walk does about what the client sees.
pub struct WalkStep {
    pub walk: Walk,
    pub jump: bool,
    pub next: Move,
}

pub open spec fn in_void(sight: Sight) -> bool {
    sight.height matches Some(y) && y < VOID_HEIGHT
}

/// The next state of a walk, whether to jump, and what to do.
pub open spec fn walked(walk: Walk, sight: Sight) -> (Walk, bool, Move) {
    match walk {
        Walk::Begin => if (sight.height matches Some(y) && VOID_HEIGHT <= y < LOBBY_HEIGHT)
            && !sight.portal_near {
            (Walk::Over { left: true }, false, Move::Stop)
        } else {
            (Walk::Searching { waited: 0 }, false, Move::Look)
        },
        Walk::Searching { waited } => if sight.portal_near {
            (Walk::Approaching { attempt: 1 }, false, Move::Look)
        } else if waited + 1 >= search_secs(sight.height) {
            (Walk::Over { left: false }, in_void(sight), Move::Stop)
        } else {
            (Walk::Searching { waited: (waited + 1) as u32 }, in_void(sight), Move::Sleep)
        },
        Walk::Approaching { attempt } => if sight.left {
            (Walk::Over { left: true }, false, Move::Stop)
        } else {
            (Walk::Waiting { attempt, waited: 0 }, false, Move::WalkIn)
        },
        Walk::Waiting { attempt, waited } => if waited == 0 {
            (Walk::Waiting { attempt, waited: 1 }, false, Move::Sleep)
        } else if sight.left {
            (Walk::Over { left: true }, false, Move::Stop)
        } else if waited < TELEPORT_SECS {
            (
                Walk::Waiting { attempt, waited: (waited + 1) as u32 },
                in_void(sight),
                Move::Sleep,
            )
        } else if attempt < MAX_ATTEMPTS {
            (Walk::Approaching { attempt: (attempt + 1) as u32 }, in_void(sight), Move::StepAway)
        } else {
            (Walk::Over { left: false }, in_void(sight), Move::StepAway)
        },
        Walk::Over { left } => (walk, false, Move::Stop),
    }
}

/// Takes a walk one step further.
pub fn walk_step(walk: Walk, sight: Sight) -> (r: WalkStep)
    ensures
        (r.walk, r.jump, r.next) == walked(walk, sight),
{
    let sinking = match sight.height {
        Some(y) => y < VOID_HEIGHT,
        None => false,
    };
    match walk {
        Walk::Begin => {
            let grounded = match sight.height {
                Some(y) => VOID_HEIGHT <= y && y < LOBBY_HEIGHT,
                None => false,
            };
            if grounded && !sight.portal_near {
                WalkStep { walk: Walk::Over { left: true }, jump: false, next: Move::Stop }
            } else {
                WalkStep { walk: Walk::Searching { waited: 0 }, jump: false, next: Move::Look }
            }
        },
        Walk::Searching { waited } => {
            let budget: u32 = portal_search_secs(sight.height);
            if sight.portal_near {
                WalkStep { walk: Walk::Approaching { attempt: 1 }, jump: false, next: Move::Look }
            } else if waited >= budget - 1 {
                WalkStep { walk: Walk::Over { left: false }, jump: sinking, next: Move::Stop }
            } else {
                WalkStep {
                    walk: Walk::Searching { waited: waited + 1 },
                    jump: sinking,
                    next: Move::Sleep,
                }
            }
        },
        Walk::Approaching { attempt } => if sight.left {
            WalkStep { walk: Walk::Over { left: true }, jump: false, next: Move::Stop }
        } else {
            WalkStep {
                walk: Walk::Waiting { attempt, waited: 0 },
                jump: false,
                next: Move::WalkIn,
            }
        },
        Walk::Waiting { attempt, waited } => if waited == 0 {
            WalkStep {
                walk: Walk::Waiting { attempt, waited: 1 },
                jump: false,
                next: Move::Sleep,
            }
        } else if sight.left {
            WalkStep { walk: Walk::Over { left: true }, jump: false, next: Move::Stop }
        } else if waited < TELEPORT_SECS {
            WalkStep {
                walk: Walk::Waiting { attempt, waited: waited + 1 },
                jump: sinking,
                next: Move::Sleep,
            }
        } else if attempt < MAX_ATTEMPTS {
            WalkStep {
                walk: Walk::Approaching { attempt: attempt + 1 },
                jump: sinking,
                next: Move::StepAway,
            }
        } else {
            WalkStep { walk: Walk::Over { left: false }, jump: sinking, next: Move::StepAway }
        },
        Walk::Over { left } => WalkStep { walk, jump: false, next: Move::Stop },
    }
}

/// Whether the counters of a walk are within their bounds.
pub open spec fn bounded(walk: Walk) -> bool {
    match walk {
        Walk::Searching { waited } => waited < LONG_SEARCH_SECS,
        Walk::Approaching { attempt } => 1 <= attempt <= MAX_ATTEMPTS,
        Walk::Waiting { attempt, waited } => 1 <= attempt <= MAX_ATTEMPTS && waited
            <= TELEPORT_SECS,
        _ => true,
    }
}

/// How many steps a walk has left at most.
pub open spec fn steps_left(walk: Walk) -> int {
    match walk {
        Walk::Begin => 1000,
        Walk::Searching { waited } => 999 - waited,
        Walk::Approaching { attempt } => (MAX_ATTEMPTS - attempt) * 30 + 28,
        Walk::Waiting { attempt, waited } => (MAX_ATTEMPTS - attempt) * 30 + 27 - waited,
        Walk::Over { .. } => 0,
    }
}

/// Every walk ends, whatever the client sees.
pub proof fn lemma_walks_end(walk: Walk, sight: Sight)
    requires
        bounded(walk),
        walk !is Over,
    ensures
        bounded(walked(walk, sight).0),
        0 <= steps_left(walked(walk, sight).0) < steps_left(walk),
{
}

/// A walk counts as having left the lobby only where the client was seen away
/// from the portal, or on the ground of the world before it started.
pub proof fn lemma_left_for_certain(walk: Walk, sight: Sight)
    requires
        walk !is Over,
        walked(walk, sight).0 == (Walk::Over { left: true }),
    ensures
        walk is Begin ==> !sight.portal_near && sight.height is Some,
        walk !is Begin ==> sight.left,
{
}

/// Whoever is below the ground of the lobby sinks, and the world lies between the void
/// and the lobby, away from the portal.
pub proof fn lemma_heights(y: i64, near: bool)
    ensures
        !sinks(None),
        y < 40 ==> sinks(Some(y)),
        y >= 40 ==> !sinks(Some(y)),
        140 <= y <= 190 ==> lobby_height(y as int),
        y < 140 || y > 190 ==> !lobby_height(y as int),
        !in_world(None, near),
        !in_world(Some(y), true),
        50 <= y < 135 ==> in_world(Some(y), false),
        y < 50 || y >= 135 ==> !in_world(Some(y), false),
{
}

/// A walk starts with a search where there is a portal to look for, goes in where one is
/// near, and gives up after the last try.
pub proof fn lemma_walks(sight: Sight, waited: u32, attempt: u32)
    requires
        waited < 100_000,
        1 <= attempt <= 12,
    ensures
        sight.portal_near ==> walked(Walk::Begin, sight) == (
            Walk::Searching { waited: 0 },
            false,
            Move::Look,
        ),
        sight.portal_near ==> walked(Walk::Searching { waited }, sight) == (
            Walk::Approaching { attempt: 1 },
            false,
            Move::Look,
        ),
        !sight.portal_near && sight.height is None && waited + 1 < 25 ==> walked(
            Walk::Searching { waited },
            sight,
        ).0 == (Walk::Searching { waited: (waited + 1) as u32 }),
        !sight.portal_near && sight.height is None && waited + 1 >= 25 ==> walked(
            Walk::Searching { waited },
            sight,
        ).0 == (Walk::Over { left: false }),
        sight.left ==> walked(Walk::Approaching { attempt }, sight).0 == (Walk::Over { left: true }),
        !sight.left ==> walked(Walk::Approaching { attempt }, sight) == (
            Walk::Waiting { attempt, waited: 0 },
            false,
            Move::WalkIn,
        ),
        sight.left && waited > 0 ==> walked(Walk::Waiting { attempt, waited }, sight).0 == (Walk::Over {
            left: true,
        }),
        !sight.left && 0 < waited < 25 ==> walked(Walk::Waiting { attempt, waited }, sight).0
            == (Walk::Waiting { attempt, waited: (waited + 1) as u32 }),
        !sight.left && waited >= 25 && attempt < 12 ==> walked(Walk::Waiting { attempt, waited }, sight)
            .0 == (Walk::Approaching { attempt: (attempt + 1) as u32 }),
        !sight.left && waited >= 25 && attempt == 12 ==> walked(
            Walk::Waiting { attempt, waited },
            sight,
        ).0 == (Walk::Over { left: false }),
{
}

/// Whoever falls into the void jumps, and nobody else does.
pub proof fn lemma_jumps_are_for_the_void(walk: Walk, sight: Sight)
    ensures
        walked(walk, sight).1 ==> sight.height is Some && sight.height->0 < 50,
{
}

} // verus!
