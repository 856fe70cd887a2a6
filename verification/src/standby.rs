//! Hot-standby coordination between two loggers on the same server.
//!
//! A standby account sits in the game next to the primary and writes nothing
//! while the primary is healthy. When the primary's heartbeat goes stale the
//! standby starts to log, and it stands down again when the primary comes back.
use vstd::prelude::*;
use vstd::string::*;

use crate::text;

verus! {

#[derive(Debug, Clone, Copy, PartialEq, Eq, Structural)]
pub enum Role {
    Primary,
    Standby,
}

/// The role that a setting names: one of the words for a standby, or a primary.
pub open spec fn role_of(raw: Seq<char>) -> Role {
    let word = text::lowered(text::trimmed(raw));
    if word == "standby"@ || word == "backup"@ || word == "secondary"@ || word == "fallback"@ {
        Role::Standby
    } else {
        Role::Primary
    }
}

pub open spec fn role_name(role: Role) -> Seq<char> {
    match role {
        Role::Primary => "primary"@,
        Role::Standby => "standby"@,
    }
}

impl Role {
    pub fn from_env(raw: &str) -> (r: Self)
        ensures
            r == role_of(raw@),
    {
        let word = text::lower(&text::trim(raw));
        if text::same(&word, "standby") || text::same(&word, "backup") || text::same(
            &word,
            "secondary",
        ) || text::same(&word, "fallback") {
            Role::Standby
        } else {
            Role::Primary
        }
    }

    pub fn as_str(self) -> (s: &'static str)
        ensures
            s@ == role_name(self),
    {
        match self {
            Role::Primary => "primary",
            Role::Standby => "standby",
        }
    }

    pub fn is_standby(self) -> (b: bool)
        ensures
            b == (self == Role::Standby),
    {
        self == Role::Standby
    }
}

/// What a heartbeat needs to know about the live client.
pub struct Snapshot {
    pub connected: bool,
    pub session_id: i64,
    pub bot_username: Option<String>,
}

pub struct Config {
    /// The name of this logger process.
    pub instance: String,
    pub role: Role,
    pub host: String,
    /// How many seconds a primary's heartbeat may be stale before a standby
    /// takes over.
    pub takeover_after: u64,
    /// How many seconds lie between two heartbeats.
    pub interval: u64,
}

/// The answer to the question whether a primary is live.
pub enum PrimaryCheck {
    /// The name of the live primary, where there is one.
    Answer(Option<String>),
    /// The database did not answer.
    Failed,
}

/// What changed in who is logging.
pub enum Change {
    TakingOver,
    /// The primary that is logging again.
    StandingDown(String),
    Offline,
}

/// Whether a logger writes from here on. A primary always keeps what it has, and
/// so does a standby that got no answer; only a definite answer changes who is
/// logging.
pub open spec fn writes(
    role: Role,
    connected: bool,
    writing: bool,
    check: PrimaryCheck,
) -> bool {
    match check {
        PrimaryCheck::Answer(primary) if role == Role::Standby => connected && primary is None,
        _ => writing,
    }
}

/// What one round of the watch makes of the state.
pub struct Step {
    pub writing: bool,
    /// What is worth a line in the log, where the state changed.
    pub change: Option<Change>,
}

/// Whether the change says what happened, where a logger writes or not from here on.
pub open spec fn tells(change: Change, writing: bool, check: PrimaryCheck) -> bool {
    match change {
        Change::TakingOver => writing,
        Change::StandingDown(name) => !writing && check == PrimaryCheck::Answer(Some(name)),
        Change::Offline => !writing && check == PrimaryCheck::Answer(None),
    }
}

/// One round of the watch.
pub fn step(role: Role, connected: bool, writing: bool, check: PrimaryCheck) -> (s: Step)
    ensures
        s.writing == writes(role, connected, writing, check),
        s.change is Some == (s.writing != writing),
        s.change matches Some(c) ==> tells(c, s.writing, check),
{
    if !role.is_standby() {
        return Step { writing, change: None };
    }
    match check {
        PrimaryCheck::Failed => Step { writing, change: None },
        PrimaryCheck::Answer(primary) => {
            let should_write = connected && primary.is_none();
            if should_write == writing {
                return Step { writing, change: None };
            }
            let change = if should_write {
                Change::TakingOver
            } else {
                match primary {
                    Some(name) => Change::StandingDown(name),
                    None => Change::Offline,
                }
            };
            Step { writing: should_write, change: Some(change) }
        },
    }
}

/// The line for the log about a change.
pub open spec fn change_text(
    change: Change,
    takeover_secs: int,
    bot_username: Option<Seq<char>>,
) -> Seq<char> {
    match change {
        Change::TakingOver => "standby taking over: no primary heartbeat for "@ + text::decimal(
            takeover_secs,
        ) + "s — logging as "@ + (match bot_username {
            Some(name) => name,
            None => "the standby account"@,
        }),
        Change::StandingDown(name) => "standby standing down: primary \""@ + name@
            + "\" is logging again"@,
        Change::Offline => "standby offline — not logging"@,
    }
}

pub fn describe_change(change: &Change, takeover_secs: u64, bot_username: &Option<String>) -> (s:
    String)
    ensures
        s@ == change_text(*change, takeover_secs as int, text::opt_text(*bot_username)),
{
    match change {
        Change::TakingOver => {
            let who: &str = match bot_username {
                Some(name) => name.as_str(),
                None => "the standby account",
            };
            text::cat4(
                "standby taking over: no primary heartbeat for ",
                &text::number(takeover_secs),
                "s — logging as ",
                who,
            )
        },
        Change::StandingDown(name) => text::cat3(
            "standby standing down: primary \"",
            name,
            "\" is logging again",
        ),
        Change::Offline => text::copy("standby offline — not logging"),
    }
}

/// While a primary answers, a standby never writes; while it does not, a standby
/// in the game does. So of the two exactly one logs once the watch has an answer.
pub proof fn lemma_one_logger(connected: bool, writing: bool, primary: Option<String>)
    ensures
        primary is Some ==> !writes(
            Role::Standby,
            connected,
            writing,
            PrimaryCheck::Answer(primary),
        ),
        primary is None && connected ==> writes(
            Role::Standby,
            connected,
            writing,
            PrimaryCheck::Answer(primary),
        ),
{
}

/// A failed question changes nothing, whoever asks.
pub proof fn lemma_no_answer_no_change(role: Role, connected: bool, writing: bool)
    ensures
        writes(role, connected, writing, PrimaryCheck::Failed) == writing,
{
}

/// How long the watch waits: the seconds of silence before a takeover and the
/// seconds between two heartbeats, from the settings where they hold a number.
pub open spec fn takeover_secs(setting: Option<int>) -> int {
    let n = match setting {
        Some(n) => n,
        None => 45,
    };
    if n < 15 {
        15
    } else {
        n
    }
}

pub open spec fn heartbeat_secs(setting: Option<int>, takeover: int) -> int {
    let n = match setting {
        Some(n) => n,
        None => 15,
    };
    if n < 5 {
        5
    } else if n > takeover / 2 {
        takeover / 2
    } else {
        n
    }
}

/// The two waits. The heartbeat is at least twice as frequent as the takeover is
/// patient, so that a single lost beat takes nothing over.
pub fn waits(takeover: Option<u64>, heartbeat: Option<u64>) -> (r: (u64, u64))
    ensures
        r.0 == takeover_secs(text::opt_int(takeover)),
        r.1 == heartbeat_secs(text::opt_int(heartbeat), r.0 as int),
        5 <= r.1,
        2 * r.1 <= r.0,
{
    let wait: u64 = match takeover {
        Some(n) => if n < 15 {
            15
        } else {
            n
        },
        None => 45,
    };
    let n: u64 = match heartbeat {
        Some(n) => n,
        None => 15,
    };
    let beat: u64 = if n < 5 {
        5
    } else if n > wait / 2 {
        wait / 2
    } else {
        n
    };
    (wait, beat)
}

/// A standby that starts to write takes over, and one that stops stands down for the
/// primary that is back, or went offline itself.
pub proof fn lemma_changes_are_told(change: Change, writing: bool, check: PrimaryCheck)
    requires
        tells(change, writing, check),
    ensures
        writing <==> change is TakingOver,
        change matches Change::StandingDown(name) ==> check == PrimaryCheck::Answer(Some(name)),
        change is Offline ==> check == PrimaryCheck::Answer(None),
{
}

/// A primary keeps writing whatever the check says, and a standby that is not connected
/// never starts.
pub proof fn lemma_who_keeps_writing(writing: bool, check: PrimaryCheck)
    ensures
        forall|connected: bool| #[trigger] writes(Role::Primary, connected, writing, check) == writing,
        check is Answer ==> !writes(Role::Standby, false, writing, check),
{
}

/// The words for a standby, in either case, make one; anything else is a primary.
pub proof fn lemma_roles(raw: Seq<char>)
    ensures
        ({
            let word = text::lowered(text::trimmed(raw));
            role_of(raw) == Role::Standby <==> word == "standby"@ || word == "backup"@ || word
                == "secondary"@ || word == "fallback"@
        }),
        role_name(Role::Primary) == "primary"@,
        role_name(Role::Standby) == "standby"@,
{
}

/// The lines about changes.
pub proof fn lemma_changes_in_words(secs: int, name: String, bot: Seq<char>)
    ensures
        text::begins(
            change_text(Change::TakingOver, secs, Some(bot)),
            "standby taking over: no primary heartbeat for "@ + text::decimal(secs) + "s"@,
        ),
        text::ends(change_text(Change::TakingOver, secs, Some(bot)), bot),
        change_text(Change::StandingDown(name), secs, Some(bot)) == "standby standing down: primary \""@
            + name@ + "\" is logging again"@,
        change_text(Change::Offline, secs, Some(bot)) == "standby offline — not logging"@,
{
    reveal_strlit("s");
    reveal_strlit("s — logging as ");
    let a = change_text(Change::TakingOver, secs, Some(bot));
    let b = "standby taking over: no primary heartbeat for "@ + text::decimal(secs) + "s"@;
    assert(a.take(b.len() as int) =~= b);
    assert(a.skip(a.len() - bot.len()) =~= bot);
}

/// The times that the watch waits.
pub proof fn lemma_waits(n: int, takeover: int)
    ensures
        takeover_secs(None) == 45,
        n >= 15 ==> takeover_secs(Some(n)) == n,
        n < 15 ==> takeover_secs(Some(n)) == 15,
        5 <= n <= takeover / 2 ==> heartbeat_secs(Some(n), takeover) == n,
        n > takeover / 2 && n >= 5 ==> heartbeat_secs(Some(n), takeover) == takeover / 2,
        takeover >= 30 ==> heartbeat_secs(None, takeover) == 15,
{
}

} // verus!
