//! The settings of a logger.
use vstd::prelude::*;
use vstd::string::*;

use crate::game::LoggerSettings;
use crate::standby;
use crate::standby::Role;
use crate::table::Table;
use crate::text;
use crate::vars;

verus! {

/// The server key that the name of an env file gives: `6b6t` of `.env.6b6t`.
pub open spec fn file_key(name: Option<Seq<char>>) -> Option<Seq<char>> {
    match name {
        Some(n) => {
            let key = if text::begins(n, ".env."@) {
                text::after_prefix(n, ".env."@)
            } else {
                text::after_prefix(n, "env."@)
            };
            match key {
                Some(k) if k.len() > 0 => Some(k),
                _ => None,
            }
        },
        None => None,
    }
}

/// The server key that the name of the env file gives.
pub fn env_file_key(file_name: &Option<String>) -> (r: Option<String>)
    ensures
        text::opt_text(r) == file_key(text::opt_text(*file_name)),
{
    let name = match file_name {
        Some(n) => n,
        None => {
            return None;
        },
    };
    let key = match text::strip_prefix(name, ".env.") {
        Some(k) => k,
        None => match text::strip_prefix(name, "env.") {
            Some(k) => k,
            None => {
                return None;
            },
        },
    };
    if key.as_str().is_empty() {
        None
    } else {
        Some(key)
    }
}

/// The name of this process among the loggers. It is not the server key: a
/// standby shares that with the primary that it backs up.
pub open spec fn instance_name(
    logger_id: Option<Seq<char>>,
    file_name: Option<Seq<char>>,
    server_key: Option<Seq<char>>,
) -> Seq<char> {
    match vars::filled(logger_id) {
        Some(id) => id,
        None => match file_key(file_name) {
            Some(key) => key,
            None => match vars::filled(server_key) {
                Some(key) => key,
                None => "default"@,
            },
        },
    }
}

pub fn instance_key(env: &Table<String>, file_name: &Option<String>) -> (r: String)
    requires
        env.wf(),
    ensures
        r@ == instance_name(
            vars::var(*env, "LOGGER_ID"@),
            text::opt_text(*file_name),
            vars::var(*env, "SERVER_KEY"@),
        ),
{
    match vars::get_filled(env, "LOGGER_ID") {
        Some(id) => id,
        None => match env_file_key(file_name) {
            Some(key) => key,
            None => match vars::get_filled(env, "SERVER_KEY") {
                Some(key) => key,
                None => text::copy("default"),
            },
        },
    }
}

/// The key under which the logger publishes.
pub open spec fn stream_key(server_key: Option<Seq<char>>, file_name: Option<Seq<char>>) -> Seq<char> {
    match vars::filled(server_key) {
        Some(key) => key,
        None => match file_key(file_name) {
            Some(key) => key,
            None => "default"@,
        },
    }
}

/// Where the logger publishes, if anywhere, and under which key.
pub fn stream_target(env: &Table<String>, file_name: &Option<String>) -> (r: Option<(String, String)>)
    requires
        env.wf(),
    ensures
        r is Some == (vars::filled(vars::var(*env, "EVENT_STREAM_ADDR"@)) is Some),
        r matches Some((addr, key)) ==> {
            &&& Some(addr@) == vars::var(*env, "EVENT_STREAM_ADDR"@)
            &&& key@ == stream_key(
                vars::var(*env, "SERVER_KEY"@),
                text::opt_text(*file_name),
            )
        },
{
    let addr = match vars::get(env, "EVENT_STREAM_ADDR") {
        Some(a) => a,
        None => {
            return None;
        },
    };
    if text::trim(&addr).as_str().is_empty() {
        return None;
    }
    let key = match vars::get_filled(env, "SERVER_KEY") {
        Some(key) => key,
        None => match env_file_key(file_name) {
            Some(key) => key,
            None => text::copy("default"),
        },
    };
    Some((addr, key))
}

/// Whether the server announces joins and leaves in chat: as the variable says,
/// or else where the host is one that does.
pub open spec fn announces(raw: Option<Seq<char>>, host: Seq<char>) -> bool {
    vars::switch(raw, text::has_text(text::unicode_lower(host), "6b6t"@))
}

/// Whether joins and leaves come from the tab list: as the variable says, or else
/// where chat does not announce them.
pub open spec fn from_tab_list(raw: Option<Seq<char>>, announced: bool) -> bool {
    match raw {
        Some(v) => if vars::says_yes_loosely(text::trimmed(v)) {
            true
        } else if vars::says_no_loosely(text::trimmed(v)) {
            false
        } else {
            !announced
        },
        None => !announced,
    }
}

fn tablist_joins(env: &Table<String>, announced: bool) -> (b: bool)
    requires
        env.wf(),
    ensures
        b == from_tab_list(vars::var(*env, "TABLIST_JOINS"@), announced),
{
    match vars::get(env, "TABLIST_JOINS") {
        Some(v) => {
            let t = text::trim(&v);
            if vars::yes_loosely(&t) {
                true
            } else if vars::no_loosely(&t) {
                false
            } else {
                !announced
            }
        },
        None => !announced,
    }
}

/// How often an action keeps the client from going idle: at least and at most so
/// many seconds.
pub open spec fn afk_bounds(
    on: Option<Seq<char>>,
    min: Option<Seq<char>>,
    max: Option<Seq<char>>,
) -> Option<(int, int)> {
    if vars::exact_switch(on) {
        let least = vars::number_or(min, 45);
        let most = vars::number_or(max, 120);
        Some(
            (
                least,
                if most < least {
                    least
                } else {
                    most
                },
            ),
        )
    } else {
        None
    }
}

pub open spec fn int_pair(o: Option<(u64, u64)>) -> Option<(int, int)> {
    match o {
        Some((a, b)) => Some((a as int, b as int)),
        None => None,
    }
}

fn anti_afk(env: &Table<String>) -> (r: Option<(u64, u64)>)
    requires
        env.wf(),
    ensures
        int_pair(r) == afk_bounds(
            vars::var(*env, "ANTI_AFK"@),
            vars::var(*env, "ANTI_AFK_MIN_SECS"@),
            vars::var(*env, "ANTI_AFK_MAX_SECS"@),
        ),
{
    if vars::get_exact_switch(env, "ANTI_AFK") {
        let min: u64 = vars::get_number(env, "ANTI_AFK_MIN_SECS", 45);
        let max: u64 = vars::get_number(env, "ANTI_AFK_MAX_SECS", 120);
        Some(
            (
                min,
                if max < min {
                    min
                } else {
                    max
                },
            ),
        )
    } else {
        None
    }
}

/// The position at which the queue is left; never below the first.
pub open spec fn leave_at(raw: Option<Seq<char>>) -> i32 {
    let n = vars::signed_or(raw, 1);
    if n < 1 {
        1
    } else {
        n
    }
}

/// Whether lines from Discord are spoken: unless the variable says no.
pub open spec fn speaks(raw: Option<Seq<char>>) -> bool {
    match raw {
        Some(v) => !vars::says_no_loosely(text::trimmed(v)),
        None => true,
    }
}

/// A number with space around it.
pub open spec fn trimmed_number_or(raw: Option<Seq<char>>, default: int) -> int {
    match raw {
        Some(v) => vars::number_or(Some(text::trimmed(v)), default),
        None => default,
    }
}

/// Whether the settings are those that the environment gives for a host.
pub open spec fn describes(s: LoggerSettings, env: Table<String>, host: Seq<char>) -> bool {
    let announced = announces(vars::var(env, "CONNECTION_MSGS"@), host);
    &&& s.enter_portal == vars::exact_switch(vars::var(env, "ENTER_PORTAL"@))
    &&& int_pair(s.anti_afk) == afk_bounds(
        vars::var(env, "ANTI_AFK"@),
        vars::var(env, "ANTI_AFK_MIN_SECS"@),
        vars::var(env, "ANTI_AFK_MAX_SECS"@),
    )
    &&& s.queue_probe == (vars::var(env, "QUEUE_PROBE"@) matches Some(v)
        && vars::says_yes_loosely(v))
    &&& s.queue_leave_at == leave_at(vars::var(env, "QUEUE_LEAVE_AT"@))
    &&& s.connection_msgs == announced
    &&& s.tablist_joins == from_tab_list(vars::var(env, "TABLIST_JOINS"@), announced)
    &&& text::texts(s.startup_commands@) == vars::items(
        vars::value_or(vars::var(env, "STARTUP_COMMANDS"@), Seq::empty()),
    )
    &&& s.lobby_only == vars::switch(vars::var(env, "LOBBY_ONLY"@), false)
    &&& s.say_enabled == speaks(vars::var(env, "SAY_ENABLED"@))
    &&& s.say_allow_commands == vars::switch(vars::var(env, "SAY_ALLOW_COMMANDS"@), false)
    &&& s.say_prefix@ == vars::value_or(vars::var(env, "SAY_PREFIX"@), Seq::empty())
    &&& s.plugin_probe_chat == vars::exact_switch(vars::var(env, "PLUGIN_PROBE_CHAT"@))
    &&& s.restart_offline_secs == trimmed_number_or(
        vars::var(env, "RESTART_OFFLINE_SECS"@),
        1,
    )
}

/// Reads how a logger is set up.
pub fn logger_settings(env: &Table<String>, host: &str) -> (s: LoggerSettings)
    requires
        env.wf(),
    ensures
        describes(s, *env, host@),
{
    proof {
        reveal_strlit("");
        assert(""@ =~= Seq::<char>::empty());
    }
    let announced_by_default = text::has(&text::to_lowercase(host), "6b6t");
    let connection_msgs = vars::get_switch(env, "CONNECTION_MSGS", announced_by_default);
    let leave: i32 = vars::get_signed(env, "QUEUE_LEAVE_AT", 1);
    LoggerSettings {
        enter_portal: vars::get_exact_switch(env, "ENTER_PORTAL"),
        anti_afk: anti_afk(env),
        queue_probe: match vars::get(env, "QUEUE_PROBE") {
            Some(v) => vars::yes_loosely(&v),
            None => false,
        },
        queue_leave_at: if leave < 1 {
            1
        } else {
            leave
        },
        connection_msgs,
        tablist_joins: tablist_joins(env, connection_msgs),
        startup_commands: vars::list(&vars::get_or(env, "STARTUP_COMMANDS", "")),
        lobby_only: vars::get_switch(env, "LOBBY_ONLY", false),
        say_enabled: match vars::get(env, "SAY_ENABLED") {
            Some(v) => !vars::no_loosely(&text::trim(&v)),
            None => true,
        },
        say_allow_commands: vars::get_switch(env, "SAY_ALLOW_COMMANDS", false),
        say_prefix: vars::get_or(env, "SAY_PREFIX", ""),
        plugin_probe_chat: vars::get_exact_switch(env, "PLUGIN_PROBE_CHAT"),
        restart_offline_secs: match vars::get(env, "RESTART_OFFLINE_SECS") {
            Some(v) => match text::parse_u64(&text::trim(&v)) {
                Some(n) => n,
                None => 1,
            },
            None => 1,
        },
    }
}

/// How a logger process runs.
pub struct RunSettings {
    pub email: String,
    pub database_url: String,
    pub role: Role,
    pub instance: String,
    pub host: String,
    pub port: i32,
    pub target: String,
    /// Whether a proxy speaks the server's version for the client.
    pub use_via: bool,
    pub reset_db: bool,
    /// Where to publish, and under which key.
    pub stream: Option<(String, String)>,
    pub reconcile_secs: u64,
    pub takeover_secs: u64,
    pub heartbeat_secs: u64,
    pub reconnect_exit_secs: u64,
    pub say_min_gap_ms: u64,
}

/// A setting that has no default.
#[derive(Debug, Clone, Copy, PartialEq, Eq, Structural)]
pub enum MissingSetting {
    Email,
    DatabaseUrl,
}

impl MissingSetting {
    /// What to tell whoever set the process up.
    pub fn describe(self) -> (s: &'static str)
        ensures
            s@ == match self {
                MissingSetting::Email => "Set MC_EMAIL to the Microsoft account to sign in as."@,
                MissingSetting::DatabaseUrl => "Set DATABASE_URL to the Postgres connection string."@,
            },
    {
        match self {
            MissingSetting::Email => "Set MC_EMAIL to the Microsoft account to sign in as.",
            MissingSetting::DatabaseUrl => "Set DATABASE_URL to the Postgres connection string.",
        }
    }
}

/// Whether a target names no version to speak.
pub open spec fn direct(target: Seq<char>) -> bool {
    target == "native"@ || target == "none"@ || target == "direct"@
}

pub open spec fn at_least(n: int, least: int) -> int {
    if n < least {
        least
    } else {
        n
    }
}

/// How long a primary may be silent before a standby takes over.
pub open spec fn takeover(raw: Option<Seq<char>>) -> int {
    at_least(vars::number_or(raw, 45), 15)
}

/// How often a logger gives a sign of life: at least every five seconds apart,
/// and twice before a standby would take over.
pub open spec fn heartbeat(raw: Option<Seq<char>>, takeover_secs: int) -> int {
    let n = at_least(vars::number_or(raw, 15), 5);
    if n > takeover_secs / 2 {
        takeover_secs / 2
    } else {
        n
    }
}

/// Whether the settings are those that the environment gives.
pub open spec fn runs_as(r: RunSettings, env: Table<String>, file_name: Option<Seq<char>>) -> bool {
    &&& Some(r.email@) == vars::var(env, "MC_EMAIL"@)
    &&& Some(r.database_url@) == vars::var(env, "DATABASE_URL"@)
    &&& r.role == standby::role_of(
        vars::value_or(vars::var(env, "LOGGER_ROLE"@), Seq::empty()),
    )
    &&& r.instance@ == instance_name(
        vars::var(env, "LOGGER_ID"@),
        file_name,
        vars::var(env, "SERVER_KEY"@),
    )
    &&& r.host@ == vars::value_or(vars::var(env, "MC_HOST"@), "purityvanilla.com"@)
    &&& r.port == vars::signed_or(vars::var(env, "MC_PORT"@), 25565)
    &&& r.target@ == vars::value_or(vars::var(env, "MC_TARGET_VERSION"@), "1.21.10"@)
    &&& r.use_via == !direct(r.target@)
    &&& r.reset_db == vars::exact_switch(vars::var(env, "RESET_DB"@))
    &&& r.stream is Some == (vars::filled(vars::var(env, "EVENT_STREAM_ADDR"@)) is Some)
    &&& r.stream matches Some((addr, key)) ==> Some(addr@) == vars::var(
        env,
        "EVENT_STREAM_ADDR"@,
    ) && key@ == stream_key(vars::var(env, "SERVER_KEY"@), file_name)
    &&& r.reconcile_secs == at_least(
        vars::number_or(vars::var(env, "RECONCILE_SECS"@), 300),
        60,
    )
    &&& r.takeover_secs == takeover(vars::var(env, "STANDBY_TAKEOVER_SECS"@))
    &&& r.heartbeat_secs == heartbeat(
        vars::var(env, "HEARTBEAT_SECS"@),
        r.takeover_secs as int,
    )
    &&& r.reconnect_exit_secs == vars::number_or(vars::var(env, "RECONNECT_EXIT_SECS"@), 180)
    &&& r.say_min_gap_ms == vars::number_or(vars::var(env, "SAY_MIN_GAP_MS"@), 1500)
}

fn bounded_below(n: u64, least: u64) -> (r: u64)
    ensures
        r == at_least(n as int, least as int),
{
    if n < least {
        least
    } else {
        n
    }
}

/// Reads how a logger process runs.
pub fn run_settings(env: &Table<String>, file_name: &Option<String>) -> (r: Result<
    RunSettings,
    MissingSetting,
>)
    requires
        env.wf(),
    ensures
        match r {
            Ok(s) => runs_as(s, *env, text::opt_text(*file_name)) && vars::filled(
                vars::var(*env, "MC_EMAIL"@),
            ) is Some && vars::filled(vars::var(*env, "DATABASE_URL"@)) is Some,
            Err(MissingSetting::Email) => vars::filled(vars::var(*env, "MC_EMAIL"@)) is None,
            Err(MissingSetting::DatabaseUrl) => vars::filled(
                vars::var(*env, "MC_EMAIL"@),
            ) is Some && vars::filled(vars::var(*env, "DATABASE_URL"@)) is None,
        },
{
    proof {
        reveal_strlit("");
        assert(""@ =~= Seq::<char>::empty());
    }
    let email = match vars::get(env, "MC_EMAIL") {
        Some(v) => v,
        None => {
            return Err(MissingSetting::Email);
        },
    };
    if text::trim(&email).as_str().is_empty() {
        return Err(MissingSetting::Email);
    }
    let database_url = match vars::get(env, "DATABASE_URL") {
        Some(v) => v,
        None => {
            return Err(MissingSetting::DatabaseUrl);
        },
    };
    if text::trim(&database_url).as_str().is_empty() {
        return Err(MissingSetting::DatabaseUrl);
    }
    let target = vars::get_or(env, "MC_TARGET_VERSION", "1.21.10");
    let takeover_secs: u64 = bounded_below(
        vars::get_number(env, "STANDBY_TAKEOVER_SECS", 45),
        15,
    );
    let beat: u64 = bounded_below(vars::get_number(env, "HEARTBEAT_SECS", 15), 5);
    Ok(
        RunSettings {
            email,
            database_url,
            role: Role::from_env(&vars::get_or(env, "LOGGER_ROLE", "")),
            instance: instance_key(env, file_name),
            host: vars::get_or(env, "MC_HOST", "purityvanilla.com"),
            port: vars::get_signed(env, "MC_PORT", 25565),
            use_via: !(text::same(&target, "native") || text::same(&target, "none") || text::same(
                &target,
                "direct",
            )),
            target,
            reset_db: vars::get_exact_switch(env, "RESET_DB"),
            stream: stream_target(env, file_name),
            reconcile_secs: bounded_below(vars::get_number(env, "RECONCILE_SECS", 300), 60),
            takeover_secs,
            heartbeat_secs: if beat > takeover_secs / 2 {
                takeover_secs / 2
            } else {
                beat
            },
            reconnect_exit_secs: vars::get_number(env, "RECONNECT_EXIT_SECS", 180),
            say_min_gap_ms: vars::get_number(env, "SAY_MIN_GAP_MS", 1500),
        },
    )
}

/// A living primary is never taken over from: it gives a sign of life at least
/// twice in the time that a standby waits.
pub proof fn lemma_heartbeats_outpace_takeover(
    heartbeat_raw: Option<Seq<char>>,
    takeover_raw: Option<Seq<char>>,
)
    ensures
        2 * heartbeat(heartbeat_raw, takeover(takeover_raw)) <= takeover(takeover_raw),
        heartbeat(heartbeat_raw, takeover(takeover_raw)) >= 5,
{
}

/// Joins and leaves have one source unless somebody chose otherwise: the tab list
/// where chat does not announce them, chat where it does.
pub proof fn lemma_one_source_of_joins(announced: bool)
    ensures
        from_tab_list(None, announced) != announced,
{
}

/// A logger is named by its own variable, or else by the file of its settings, or else
/// by its server.
pub proof fn lemma_loggers_are_named(
    id: Option<Seq<char>>,
    file: Option<Seq<char>>,
    server: Option<Seq<char>>,
    key: Seq<char>,
)
    ensures
        vars::filled(id) matches Some(name) ==> instance_name(id, file, server) == name,
        vars::filled(id) is None && key.len() > 0 ==> instance_name(id, Some(".env."@ + key), server)
            == key,
        vars::filled(id) is None && file is None ==> (vars::filled(server) matches Some(name)
            ==> instance_name(id, file, server) == name),
        vars::filled(id) is None && file is None && vars::filled(server) is None ==> instance_name(
            id,
            file,
            server,
        ) == "default"@,
        vars::filled(server) matches Some(name) ==> stream_key(server, file) == name,
        vars::filled(server) is None && key.len() > 0 ==> stream_key(server, Some(".env."@ + key)) == key,
{
    let n = ".env."@ + key;
    assert(n.take(".env."@.len() as int) =~= ".env."@);
    assert(n.skip(".env."@.len() as int) =~= key);
}

/// Moving about is off unless it is switched on; its pauses are at least the least one.
pub proof fn lemma_moving_about(on: Option<Seq<char>>, min: Option<Seq<char>>, max: Option<Seq<char>>)
    ensures
        !vars::exact_switch(on) ==> afk_bounds(on, min, max) is None,
        vars::exact_switch(on) ==> (afk_bounds(on, min, max) matches Some((least, most)) && least
            <= most && least == vars::number_or(min, 45)),
        vars::exact_switch(on) && min is None && max is None ==> afk_bounds(on, min, max) == Some(
            (45int, 120int),
        ),
{
}

/// Speaking is on unless it is switched off, and a place in the queue to leave at is at
/// least the first.
pub proof fn lemma_speaking_and_leaving(raw: Option<Seq<char>>)
    ensures
        speaks(None),
        raw matches Some(v) ==> (vars::says_no_loosely(text::trimmed(v)) ==> !speaks(raw)),
        raw matches Some(v) ==> (!vars::says_no_loosely(text::trimmed(v)) ==> speaks(raw)),
        leave_at(raw) >= 1,
        leave_at(None) == 1,
        vars::signed_or(raw, 1) >= 1 ==> leave_at(raw) == vars::signed_or(raw, 1),
{
}

/// A switch for the list of players decides, whatever is announced.
pub proof fn lemma_the_list_is_chosen(v: Seq<char>, announced: bool)
    ensures
        vars::says_yes_loosely(text::trimmed(v)) ==> from_tab_list(Some(v), announced),
        !vars::says_yes_loosely(text::trimmed(v)) && vars::says_no_loosely(text::trimmed(v))
            ==> !from_tab_list(Some(v), announced),
{
}

/// A standby takes over after no less than fifteen seconds, and says that it is alive no
/// less often than the settings ask where that is often enough.
pub proof fn lemma_times_of_a_standby(raw: Option<Seq<char>>, takeover_secs: int)
    ensures
        takeover(None) == 45,
        takeover(raw) >= 15,
        vars::number_or(raw, 45) >= 15 ==> takeover(raw) == vars::number_or(raw, 45),
        takeover_secs >= 30 ==> heartbeat(None, takeover_secs) == 15,
        vars::number_or(raw, 15) >= 5 && 2 * vars::number_or(raw, 15) <= takeover_secs ==> heartbeat(
            raw,
            takeover_secs,
        ) == vars::number_or(raw, 15),
{
}

/// What a logger runs with is what the variables say, each of its own.
pub proof fn lemma_runs_are_read(r: RunSettings, env: Table<String>, file: Option<Seq<char>>)
    requires
        runs_as(r, env, file),
    ensures
        env@.contains_key("MC_EMAIL"@) && r.email@ == env@["MC_EMAIL"@]@,
        env@.contains_key("DATABASE_URL"@) && r.database_url@ == env@["DATABASE_URL"@]@,
        env@.contains_key("MC_HOST"@) ==> r.host@ == env@["MC_HOST"@]@,
        !env@.contains_key("MC_HOST"@) ==> r.host@ == "purityvanilla.com"@,
        !env@.contains_key("MC_PORT"@) ==> r.port == 25565,
        env@.contains_key("MC_TARGET_VERSION"@) ==> r.target@ == env@["MC_TARGET_VERSION"@]@,
        r.target@ == "native"@ || r.target@ == "none"@ || r.target@ == "direct"@ ==> !r.use_via,
        r.target@ != "native"@ && r.target@ != "none"@ && r.target@ != "direct"@ ==> r.use_via,
        !env@.contains_key("RESET_DB"@) ==> !r.reset_db,
        !env@.contains_key("EVENT_STREAM_ADDR"@) ==> r.stream is None,
        r.stream matches Some((addr, key)) ==> env@.contains_key("EVENT_STREAM_ADDR"@) && addr@
            == env@["EVENT_STREAM_ADDR"@]@,
        !env@.contains_key("RECONCILE_SECS"@) ==> r.reconcile_secs == 300,
        r.reconcile_secs >= 60,
        !env@.contains_key("STANDBY_TAKEOVER_SECS"@) ==> r.takeover_secs == 45,
        r.takeover_secs >= 15,
        !env@.contains_key("RECONNECT_EXIT_SECS"@) ==> r.reconnect_exit_secs == 180,
        !env@.contains_key("SAY_MIN_GAP_MS"@) ==> r.say_min_gap_ms == 1500,
{
}

/// What a logger does is what the variables say, each of its own; what is left out is
/// off, but for speaking.
pub proof fn lemma_logger_settings_are_read(s: LoggerSettings, env: Table<String>, host: Seq<char>)
    requires
        describes(s, env, host),
    ensures
        !env@.contains_key("ENTER_PORTAL"@) ==> !s.enter_portal,
        env@.contains_key("ENTER_PORTAL"@) && env@["ENTER_PORTAL"@]@ == "1"@ ==> s.enter_portal,
        !env@.contains_key("ANTI_AFK"@) ==> s.anti_afk is None,
        !env@.contains_key("QUEUE_PROBE"@) ==> !s.queue_probe,
        env@.contains_key("QUEUE_PROBE"@) && env@["QUEUE_PROBE"@]@ == "1"@ ==> s.queue_probe,
        !env@.contains_key("QUEUE_LEAVE_AT"@) ==> s.queue_leave_at == 1,
        !env@.contains_key("TABLIST_JOINS"@) ==> s.tablist_joins == !s.connection_msgs,
        !env@.contains_key("LOBBY_ONLY"@) ==> !s.lobby_only,
        !env@.contains_key("SAY_ENABLED"@) ==> s.say_enabled,
        !env@.contains_key("SAY_ALLOW_COMMANDS"@) ==> !s.say_allow_commands,
        env@.contains_key("SAY_PREFIX"@) ==> s.say_prefix@ == env@["SAY_PREFIX"@]@,
        !env@.contains_key("SAY_PREFIX"@) ==> s.say_prefix@.len() == 0,
        !env@.contains_key("PLUGIN_PROBE_CHAT"@) ==> !s.plugin_probe_chat,
        !env@.contains_key("RESTART_OFFLINE_SECS"@) ==> s.restart_offline_secs == 1,
{
    reveal_strlit("1");
}

} // verus!
