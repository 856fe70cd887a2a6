//! The settings of the Discord side.
use vstd::prelude::*;
use vstd::string::*;

use crate::table::Table;
use crate::text;
use crate::vars;

verus! {

/// A server whose log is shown.
pub struct ServerConfig {
    pub key: String,
    pub label: String,
    pub database_url: String,
    /// Where its live events come from, if anywhere.
    pub stream_addr: Option<String>,
}

/// The contents of a [`ServerConfig`].
#[verifier::ext_equal]
pub struct ServerText {
    pub key: Seq<char>,
    pub label: Seq<char>,
    pub database_url: Seq<char>,
    pub stream_addr: Option<Seq<char>>,
}

impl View for ServerConfig {
    type V = ServerText;

    open spec fn view(&self) -> ServerText {
        ServerText {
            key: self.key@,
            label: self.label@,
            database_url: self.database_url@,
            stream_addr: text::opt_text(self.stream_addr),
        }
    }
}

pub open spec fn server_texts(v: Seq<ServerConfig>) -> Seq<ServerText> {
    Seq::new(v.len(), |i: int| v[i]@)
}

pub struct DiscordConfig {
    pub token: String,
    pub client_id: u64,
    pub guild_id: Option<u64>,
    pub bridge_channel_id: Option<String>,
}

#[derive(Debug, Clone, Copy, PartialEq, Eq, Structural)]
pub enum BridgeStyle {
    Rich,
    Compact,
}

pub open spec fn style_of(s: Seq<char>) -> BridgeStyle {
    if text::lowered(s) == text::lowered("compact"@) {
        BridgeStyle::Compact
    } else {
        BridgeStyle::Rich
    }
}

impl BridgeStyle {
    pub fn parse(s: &str) -> (b: Self)
        ensures
            b == style_of(s@),
    {
        if text::same_ignoring_case(s, "compact") {
            BridgeStyle::Compact
        } else {
            BridgeStyle::Rich
        }
    }

    pub fn as_str(self) -> (s: &'static str)
        ensures
            s@ == match self {
                BridgeStyle::Rich => "rich"@,
                BridgeStyle::Compact => "compact"@,
            },
    {
        match self {
            BridgeStyle::Rich => "rich",
            BridgeStyle::Compact => "compact",
        }
    }
}

pub struct BridgeConfig {
    pub kinds: Vec<String>,
    pub poll_ms: u64,
    pub embeds_per_message: u64,
    pub lines_per_message: u64,
    pub max_rows_per_poll: u64,
    pub start_from_latest: bool,
    /// Say in the channel when the live link comes up or goes down.
    pub status_notices: bool,
}

pub struct TopicConfig {
    pub enabled: bool,
    pub interval_ms: u64,
}

pub struct Config {
    pub servers: Vec<ServerConfig>,
    pub discord: DiscordConfig,
    pub bridge: BridgeConfig,
    pub topic: TopicConfig,
    pub head_size: u32,
}

/// The contents of a [`Config`].
#[verifier::ext_equal]
pub struct ConfigText {
    pub servers: Seq<ServerText>,
    pub token: Seq<char>,
    pub client_id: u64,
    pub guild_id: Option<u64>,
    pub bridge_channel_id: Option<Seq<char>>,
    pub kinds: Seq<Seq<char>>,
    pub poll_ms: int,
    pub embeds_per_message: int,
    pub lines_per_message: int,
    pub max_rows_per_poll: int,
    pub start_from_latest: bool,
    pub status_notices: bool,
    pub topic_enabled: bool,
    pub topic_interval_ms: int,
    pub head_size: u32,
}

impl View for Config {
    type V = ConfigText;

    open spec fn view(&self) -> ConfigText {
        ConfigText {
            servers: server_texts(self.servers@),
            token: self.discord.token@,
            client_id: self.discord.client_id,
            guild_id: self.discord.guild_id,
            bridge_channel_id: text::opt_text(self.discord.bridge_channel_id),
            kinds: text::texts(self.bridge.kinds@),
            poll_ms: self.bridge.poll_ms as int,
            embeds_per_message: self.bridge.embeds_per_message as int,
            lines_per_message: self.bridge.lines_per_message as int,
            max_rows_per_poll: self.bridge.max_rows_per_poll as int,
            start_from_latest: self.bridge.start_from_latest,
            status_notices: self.bridge.status_notices,
            topic_enabled: self.topic.enabled,
            topic_interval_ms: self.topic.interval_ms as int,
            head_size: self.head_size,
        }
    }
}

/// Why there are no settings.
pub enum ConfigError {
    /// A variable that has no default is not set.
    Missing { name: String },
    /// A server is listed without its database.
    NoDatabase { key: String, name: String },
    /// A variable is no identifier of Discord.
    NotAnId { name: String },
    /// A variable is no number.
    NotANumber { name: String, raw: String },
}

/// The contents of a [`ConfigError`].
#[verifier::ext_equal]
pub enum ConfigErrorText {
    Missing { name: Seq<char> },
    NoDatabase { key: Seq<char>, name: Seq<char> },
    NotAnId { name: Seq<char> },
    NotANumber { name: Seq<char>, raw: Seq<char> },
}

impl View for ConfigError {
    type V = ConfigErrorText;

    open spec fn view(&self) -> ConfigErrorText {
        match *self {
            ConfigError::Missing { name } => ConfigErrorText::Missing { name: name@ },
            ConfigError::NoDatabase { key, name } => ConfigErrorText::NoDatabase {
                key: key@,
                name: name@,
            },
            ConfigError::NotAnId { name } => ConfigErrorText::NotAnId { name: name@ },
            ConfigError::NotANumber { name, raw } => ConfigErrorText::NotANumber {
                name: name@,
                raw: raw@,
            },
        }
    }
}

pub open spec fn config_error_text(e: ConfigErrorText) -> Seq<char> {
    match e {
        ConfigErrorText::Missing { name } => "Missing required environment variable "@ + name
            + ". Copy .env.example to .env and fill it in."@,
        ConfigErrorText::NoDatabase { key, name } => "SERVERS lists \""@ + key + "\" but "@ + name
            + " is not set."@,
        ConfigErrorText::NotAnId { name } => "Environment variable "@ + name
            + " must be a numeric ID."@,
        ConfigErrorText::NotANumber { name, raw } => "Environment variable "@ + name
            + " must be a number, got \""@ + raw + "\""@,
    }
}

impl ConfigError {
    pub fn describe(&self) -> (s: String)
        ensures
            s@ == config_error_text(self@),
    {
        match self {
            ConfigError::Missing { name } => text::cat3(
                "Missing required environment variable ",
                name,
                ". Copy .env.example to .env and fill it in.",
            ),
            ConfigError::NoDatabase { key, name } => text::cat5(
                "SERVERS lists \"",
                key,
                "\" but ",
                name,
                " is not set.",
            ),
            ConfigError::NotAnId { name } => text::cat3(
                "Environment variable ",
                name,
                " must be a numeric ID.",
            ),
            ConfigError::NotANumber { name, raw } => text::cat5(
                "Environment variable ",
                name,
                " must be a number, got \"",
                raw,
                "\"",
            ),
        }
    }
}

/// A variable, or what stands for one that holds nothing.
pub open spec fn setting(env: Table<String>, name: Seq<char>, fallback: Seq<char>) -> Seq<char> {
    match vars::filled(vars::var(env, name)) {
        Some(v) => v,
        None => fallback,
    }
}

fn optional(env: &Table<String>, name: &str, fallback: &str) -> (r: String)
    requires
        env.wf(),
    ensures
        r@ == setting(*env, name@, fallback@),
{
    match vars::get_filled(env, name) {
        Some(v) => v,
        None => text::copy(fallback),
    }
}

/// A variable that has no default.
pub open spec fn needed(env: Table<String>, name: Seq<char>) -> Result<Seq<char>, ConfigErrorText> {
    match vars::filled(vars::var(env, name)) {
        Some(v) => Ok(v),
        None => Err(ConfigErrorText::Missing { name }),
    }
}

pub open spec fn text_result(r: Result<String, ConfigError>) -> Result<Seq<char>, ConfigErrorText> {
    match r {
        Ok(s) => Ok(s@),
        Err(e) => Err(e@),
    }
}

fn required(env: &Table<String>, name: &str) -> (r: Result<String, ConfigError>)
    requires
        env.wf(),
    ensures
        text_result(r) == needed(*env, name@),
{
    match vars::get_filled(env, name) {
        Some(v) => Ok(v),
        None => Err(ConfigError::Missing { name: text::copy(name) }),
    }
}

/// A number between two bounds that a variable gives; one outside is moved to the
/// nearer bound.
pub open spec fn number_between(
    env: Table<String>,
    name: Seq<char>,
    fallback: int,
    min: int,
    max: int,
) -> Result<int, ConfigErrorText> {
    let n = match vars::filled(vars::var(env, name)) {
        Some(v) => match text::parsed_u64(v) {
            Some(n) => Ok(n),
            None => Err(
                ConfigErrorText::NotANumber { name, raw: vars::var(env, name)->0 },
            ),
        },
        None => Ok(fallback),
    };
    match n {
        Ok(n) => Ok(
            if n < min {
                min
            } else if n > max {
                max
            } else {
                n
            },
        ),
        Err(e) => Err(e),
    }
}

pub open spec fn int_result(r: Result<u64, ConfigError>) -> Result<int, ConfigErrorText> {
    match r {
        Ok(n) => Ok(n as int),
        Err(e) => Err(e@),
    }
}

fn bounded(env: &Table<String>, name: &str, fallback: u64, min: u64, max: u64) -> (r: Result<
    u64,
    ConfigError,
>)
    requires
        env.wf(),
        min <= max,
    ensures
        int_result(r) == number_between(
            *env,
            name@,
            fallback as int,
            min as int,
            max as int,
        ),
        r matches Ok(n) ==> min <= n <= max,
{
    let n: u64 = match vars::get_filled(env, name) {
        Some(v) => match text::parse_u64(&v) {
            Some(n) => n,
            None => {
                return Err(
                    ConfigError::NotANumber {
                        name: text::copy(name),
                        raw: vars::get_or(env, name, ""),
                    },
                );
            },
        },
        None => fallback,
    };
    Ok(
        if n < min {
            min
        } else if n > max {
            max
        } else {
            n
        },
    )
}

/// The items of a list in lower case, without those that are empty.
pub open spec fn lower_items(all: Seq<Seq<char>>) -> Seq<Seq<char>>
    decreases all.len(),
{
    if all.len() == 0 {
        Seq::empty()
    } else {
        let before = lower_items(all.drop_last());
        let last = text::unicode_lower(text::trimmed(all.last()));
        if last.len() > 0 {
            before.push(last)
        } else {
            before
        }
    }
}

/// The items that a variable lists.
pub open spec fn listed(env: Table<String>, name: Seq<char>, fallback: Seq<char>) -> Seq<Seq<char>> {
    lower_items(text::pieces(setting(env, name, fallback), text::is_char(',')))
}

fn list(env: &Table<String>, name: &str, fallback: &str) -> (r: Vec<String>)
    requires
        env.wf(),
    ensures
        text::texts(r@) == listed(*env, name@, fallback@),
{
    let all = text::split(&optional(env, name, fallback), ',');
    let ghost pieces = text::texts(all@);
    let mut r: Vec<String> = Vec::new();
    assert(text::texts(r@) =~= lower_items(pieces.take(0)));
    for i in 0..all.len()
        invariant
            pieces == text::texts(all@),
            text::texts(r@) == lower_items(pieces.take(i as int)),
    {
        assert(pieces.take(i + 1).drop_last() =~= pieces.take(i as int));
        let t = text::to_lowercase(&text::trim(&all[i]));
        if !t.as_str().is_empty() {
            proof {
                text::lemma_texts_push(r@, t);
            }
            r.push(t);
        }
    }
    assert(pieces.take(pieces.len() as int) =~= pieces);
    r
}

/// Where live events come from: a stream of the server's own, or the shared one.
pub open spec fn stream_of(env: Table<String>, per_server: Seq<char>) -> Option<Seq<char>> {
    match vars::filled(vars::var(env, per_server)) {
        Some(addr) => Some(addr),
        None => vars::filled(vars::var(env, "EVENT_STREAM_ADDR"@)),
    }
}

fn load_stream_addr(env: &Table<String>, per_server: &str) -> (r: Option<String>)
    requires
        env.wf(),
    ensures
        text::opt_text(r) == stream_of(*env, per_server@),
{
    match vars::get_filled(env, per_server) {
        Some(addr) => Some(addr),
        None => vars::get_filled(env, "EVENT_STREAM_ADDR"),
    }
}

/// The middle of the names of a server's variables: its key in capitals, with
/// underscores for what is neither a letter nor a digit.
pub open spec fn variable_part(key: Seq<char>) -> Seq<char> {
    let upper = text::unicode_upper(key);
    Seq::new(
        upper.len(),
        |i: int|
            if text::is_digit(upper[i]) || text::is_ascii_letter(upper[i]) {
                upper[i]
            } else {
                '_'
            },
    )
}

fn variable_name(key: &str) -> (r: String)
    ensures
        r@ == variable_part(key@),
{
    let upper = text::to_uppercase(key);
    let v = text::chars_of(&upper);
    let ghost goal = variable_part(key@);
    let mut r = String::new();
    assert(r@ =~= goal.take(0));
    for i in 0..v.len()
        invariant
            v@ == text::unicode_upper(key@),
            goal == variable_part(key@),
            r@ == goal.take(i as int),
    {
        let c = if text::digit(v[i]) || text::ascii_letter(v[i]) {
            v[i]
        } else {
            '_'
        };
        assert(goal[i as int] == c);
        r.push(c);
        assert(r@ =~= goal.take(i + 1));
    }
    assert(goal.take(goal.len() as int) =~= goal);
    r
}

/// The settings of one server.
pub open spec fn server_of(env: Table<String>, key: Seq<char>) -> Result<ServerText, ConfigErrorText> {
    let part = variable_part(key);
    let url_name = "SERVER_"@ + part + "_URL"@;
    match vars::filled(vars::var(env, url_name)) {
        Some(url) => Ok(
            ServerText {
                key,
                label: setting(env, "SERVER_"@ + part + "_LABEL"@, key),
                database_url: url,
                stream_addr: stream_of(env, "SERVER_"@ + part + "_STREAM"@),
            },
        ),
        None => Err(ConfigErrorText::NoDatabase { key, name: url_name }),
    }
}

pub open spec fn server_result(r: Result<ServerConfig, ConfigError>) -> Result<
    ServerText,
    ConfigErrorText,
> {
    match r {
        Ok(s) => Ok(s@),
        Err(e) => Err(e@),
    }
}

fn load_server(env: &Table<String>, key: &String) -> (r: Result<ServerConfig, ConfigError>)
    requires
        env.wf(),
    ensures
        server_result(r) == server_of(*env, key@),
{
    let part = variable_name(key);
    let url_name = text::cat3("SERVER_", &part, "_URL");
    match vars::get_filled(env, &url_name) {
        Some(url) => Ok(
            ServerConfig {
                key: key.clone(),
                label: optional(env, &text::cat3("SERVER_", &part, "_LABEL"), key),
                database_url: url,
                stream_addr: load_stream_addr(env, &text::cat3("SERVER_", &part, "_STREAM")),
            },
        ),
        None => Err(ConfigError::NoDatabase { key: key.clone(), name: url_name }),
    }
}

/// The settings of the listed servers, up to the first that has none.
pub open spec fn servers_of(env: Table<String>, keys: Seq<Seq<char>>) -> Result<
    Seq<ServerText>,
    ConfigErrorText,
>
    decreases keys.len(),
{
    if keys.len() == 0 {
        Ok(Seq::empty())
    } else {
        match servers_of(env, keys.drop_last()) {
            Ok(before) => match server_of(env, keys.last()) {
                Ok(s) => Ok(before.push(s)),
                Err(e) => Err(e),
            },
            Err(e) => Err(e),
        }
    }
}

/// The servers: those that are listed, or else the only one.
pub open spec fn all_servers(env: Table<String>) -> Result<Seq<ServerText>, ConfigErrorText> {
    let keys = listed(env, "SERVERS"@, Seq::empty());
    if keys.len() > 0 {
        servers_of(env, keys)
    } else {
        match needed(env, "DATABASE_URL"@) {
            Ok(database_url) => Ok(
                seq![
                    ServerText {
                        key: "default"@,
                        label: setting(env, "SERVER_LABEL"@, "Minecraft"@),
                        database_url,
                        stream_addr: stream_of(env, "EVENT_STREAM_ADDR"@),
                    },
                ],
            ),
            Err(e) => Err(e),
        }
    }
}

pub open spec fn servers_result(r: Result<Vec<ServerConfig>, ConfigError>) -> Result<
    Seq<ServerText>,
    ConfigErrorText,
> {
    match r {
        Ok(v) => Ok(server_texts(v@)),
        Err(e) => Err(e@),
    }
}

proof fn lemma_first_failure(env: Table<String>, keys: Seq<Seq<char>>, k: int)
    requires
        0 <= k <= keys.len(),
        servers_of(env, keys.take(k)) is Err,
    ensures
        servers_of(env, keys) == servers_of(env, keys.take(k)),
    decreases keys.len() - k,
{
    if k < keys.len() {
        assert(keys.take(k + 1).drop_last() =~= keys.take(k));
        lemma_first_failure(env, keys, k + 1);
    } else {
        assert(keys.take(k) =~= keys);
    }
}

fn load_servers(env: &Table<String>) -> (r: Result<Vec<ServerConfig>, ConfigError>)
    requires
        env.wf(),
    ensures
        servers_result(r) == all_servers(*env),
{
    proof {
        reveal_strlit("");
        assert(""@ =~= Seq::<char>::empty());
    }
    let keys = list(env, "SERVERS", "");
    if keys.len() == 0 {
        let database_url = match required(env, "DATABASE_URL") {
            Ok(url) => url,
            Err(e) => {
                return Err(e);
            },
        };
        let only = ServerConfig {
            key: text::copy("default"),
            label: optional(env, "SERVER_LABEL", "Minecraft"),
            database_url,
            stream_addr: load_stream_addr(env, "EVENT_STREAM_ADDR"),
        };
        let ghost one = only@;
        let mut v: Vec<ServerConfig> = Vec::new();
        v.push(only);
        assert(server_texts(v@) =~= seq![one]);
        return Ok(v);
    }
    let ghost all = text::texts(keys@);
    let mut v: Vec<ServerConfig> = Vec::new();
    assert(server_texts(v@) =~= Seq::<ServerText>::empty());
    for i in 0..keys.len()
        invariant
            env.wf(),
            all == text::texts(keys@),
            all == listed(*env, "SERVERS"@, Seq::empty()),
            keys.len() > 0,
            servers_of(*env, all.take(i as int)) == Ok::<Seq<ServerText>, ConfigErrorText>(
                server_texts(v@),
            ),
    {
        assert(all.take(i + 1).drop_last() =~= all.take(i as int));
        match load_server(env, &keys[i]) {
            Ok(s) => {
                let ghost before = v@;
                v.push(s);
                assert(server_texts(v@) =~= server_texts(before).push(s@));
            },
            Err(e) => {
                proof {
                    lemma_first_failure(*env, all, i + 1);
                }
                return Err(e);
            },
        }
    }
    assert(all.take(all.len() as int) =~= all);
    Ok(v)
}

/// An identifier of Discord.
pub open spec fn id_of(name: Seq<char>, raw: Seq<char>) -> Result<u64, ConfigErrorText> {
    match text::parsed_u64(raw) {
        Some(n) => Ok(n as u64),
        None => Err(ConfigErrorText::NotAnId { name }),
    }
}

pub open spec fn id_result(r: Result<u64, ConfigError>) -> Result<u64, ConfigErrorText> {
    match r {
        Ok(n) => Ok(n),
        Err(e) => Err(e@),
    }
}

fn parse_id(name: &str, raw: &str) -> (r: Result<u64, ConfigError>)
    ensures
        id_result(r) == id_of(name@, raw@),
{
    match text::parse_u64(raw) {
        Some(n) => Ok(n),
        None => Err(ConfigError::NotAnId { name: text::copy(name) }),
    }
}

/// The server of Discord that commands are registered in, if one is named.
pub open spec fn guild(env: Table<String>) -> Result<Option<u64>, ConfigErrorText> {
    match vars::filled(vars::var(env, "DISCORD_GUILD_ID"@)) {
        Some(raw) => match id_of("DISCORD_GUILD_ID"@, raw) {
            Ok(id) => Ok(Some(id)),
            Err(e) => Err(e),
        },
        None => Ok(None),
    }
}

/// A setting that is on unless it says `false`.
pub open spec fn unless_false(env: Table<String>, name: Seq<char>) -> bool {
    setting(env, name, "true"@) != "false"@
}

fn on_unless_false(env: &Table<String>, name: &str) -> (b: bool)
    requires
        env.wf(),
    ensures
        b == unless_false(*env, name@),
{
    !text::same(&optional(env, name, "true"), "false")
}

/// The numbers of the settings: how often to poll, the embeds and lines of a
/// message, the rows of a poll, the interval of topics and the size of heads.
pub open spec fn numbers(env: Table<String>) -> Result<(int, int, int, int, int, int), ConfigErrorText> {
    match number_between(env, "BRIDGE_POLL_MS"@, 3_000, 1_000, 300_000) {
        Err(e) => Err(e),
        Ok(poll) => match number_between(env, "BRIDGE_EMBEDS_PER_MESSAGE"@, 10, 1, 10) {
            Err(e) => Err(e),
            Ok(embeds) => match number_between(env, "BRIDGE_LINES_PER_MESSAGE"@, 20, 1, 60) {
                Err(e) => Err(e),
                Ok(lines) => match number_between(env, "BRIDGE_MAX_ROWS_PER_POLL"@, 40, 1, 500) {
                    Err(e) => Err(e),
                    Ok(rows) => match number_between(
                        env,
                        "TOPIC_INTERVAL_MS"@,
                        300_000,
                        300_000,
                        86_400_000,
                    ) {
                        Err(e) => Err(e),
                        Ok(topic) => match number_between(
                            env,
                            "HEAD_SIZE"@,
                            64,
                            0,
                            u64::MAX as int,
                        ) {
                            Err(e) => Err(e),
                            Ok(head) => Ok((poll, embeds, lines, rows, topic, head)),
                        },
                    },
                },
            },
        },
    }
}

/// The settings that the environment gives, or the first thing that is wrong.
pub open spec fn loaded(env: Table<String>) -> Result<ConfigText, ConfigErrorText> {
    match all_servers(env) {
        Err(e) => Err(e),
        Ok(servers) => match guild(env) {
            Err(e) => Err(e),
            Ok(guild_id) => match needed(env, "DISCORD_TOKEN"@) {
                Err(e) => Err(e),
                Ok(token) => match needed(env, "DISCORD_CLIENT_ID"@) {
                    Err(e) => Err(e),
                    Ok(client) => match id_of("DISCORD_CLIENT_ID"@, client) {
                        Err(e) => Err(e),
                        Ok(client_id) => match numbers(env) {
                            Err(e) => Err(e),
                            Ok((poll, embeds, lines, rows, topic, head)) => Ok(
                                ConfigText {
                                    servers,
                                    token,
                                    client_id,
                                    guild_id,
                                    bridge_channel_id: vars::filled(
                                        vars::var(env, "BRIDGE_CHANNEL_ID"@),
                                    ),
                                    kinds: listed(
                                        env,
                                        "BRIDGE_KINDS"@,
                                        "chat,join,leave,death,advancement,server"@,
                                    ),
                                    poll_ms: poll,
                                    embeds_per_message: embeds,
                                    lines_per_message: lines,
                                    max_rows_per_poll: rows,
                                    start_from_latest: unless_false(
                                        env,
                                        "BRIDGE_START_FROM_LATEST"@,
                                    ),
                                    status_notices: unless_false(env, "BRIDGE_STATUS_NOTICES"@),
                                    topic_enabled: unless_false(env, "TOPIC_UPDATES"@),
                                    topic_interval_ms: topic,
                                    head_size: (head as u64) as u32,
                                },
                            ),
                        },
                    },
                },
            },
        },
    }
}

pub open spec fn config_result(r: Result<Config, ConfigError>) -> Result<ConfigText, ConfigErrorText> {
    match r {
        Ok(c) => Ok(c@),
        Err(e) => Err(e@),
    }
}

/// Where a head of a player is rendered.
pub open spec fn head_url(name: Seq<char>, size: int) -> Seq<char> {
    "https://crafthead.net/helm/"@ + name + "/"@ + text::decimal(size)
}

/// Where a whole player is rendered.
pub open spec fn body_url(name: Seq<char>) -> Seq<char> {
    "https://mc-heads.net/body/"@ + name
}

pub fn head_url_for_name(name: &str, size: u32) -> (s: String)
    ensures
        s@ == head_url(name@, size as int),
{
    text::cat4("https://crafthead.net/helm/", name, "/", &text::number(size as u64))
}

/// A whole player, for a larger picture.
pub fn body_url_for_name(name: &str) -> (s: String)
    ensures
        s@ == body_url(name@),
{
    text::cat2("https://mc-heads.net/body/", name)
}

/// Where a key stands among the servers.
pub open spec fn key_at(servers: Seq<ServerText>, key: Seq<char>) -> Option<int>
    decreases servers.len(),
{
    if servers.len() == 0 {
        None
    } else {
        match key_at(servers.drop_last(), key) {
            Some(i) => Some(i),
            None => if servers.last().key == key {
                Some(servers.len() - 1)
            } else {
                None
            },
        }
    }
}

pub proof fn lemma_key_at(servers: Seq<ServerText>, key: Seq<char>)
    ensures
        match key_at(servers, key) {
            Some(i) => 0 <= i < servers.len() && servers[i].key == key && forall|j: int|
                0 <= j < i ==> #[trigger] servers[j].key != key,
            None => forall|j: int| 0 <= j < servers.len() ==> #[trigger] servers[j].key != key,
        },
    decreases servers.len(),
{
    if servers.len() > 0 {
        lemma_key_at(servers.drop_last(), key);
        assert forall|j: int| 0 <= j < servers.len() - 1 implies #[trigger] servers[j]
            == servers.drop_last()[j] by {}
    }
}

impl Config {
    /// Reads the settings out of the environment.
    #[verifier::rlimit(30)]
    pub fn load(env: &Table<String>) -> (r: Result<Self, ConfigError>)
        requires
            env.wf(),
        ensures
            config_result(r) == loaded(*env),
    {
        let servers = match load_servers(env) {
            Ok(v) => v,
            Err(e) => {
                return Err(e);
            },
        };
        let guild_id = match vars::get_filled(env, "DISCORD_GUILD_ID") {
            Some(raw) => match parse_id("DISCORD_GUILD_ID", &raw) {
                Ok(id) => Some(id),
                Err(e) => {
                    return Err(e);
                },
            },
            None => None,
        };
        let token = match required(env, "DISCORD_TOKEN") {
            Ok(t) => t,
            Err(e) => {
                return Err(e);
            },
        };
        let client = match required(env, "DISCORD_CLIENT_ID") {
            Ok(c) => c,
            Err(e) => {
                return Err(e);
            },
        };
        let client_id: u64 = match parse_id("DISCORD_CLIENT_ID", &client) {
            Ok(id) => id,
            Err(e) => {
                return Err(e);
            },
        };
        let poll_ms: u64 = match bounded(env, "BRIDGE_POLL_MS", 3_000, 1_000, 300_000) {
            Ok(n) => n,
            Err(e) => {
                return Err(e);
            },
        };
        let embeds_per_message: u64 = match bounded(
            env,
            "BRIDGE_EMBEDS_PER_MESSAGE",
            10,
            1,
            10,
        ) {
            Ok(n) => n,
            Err(e) => {
                return Err(e);
            },
        };
        let lines_per_message: u64 = match bounded(env, "BRIDGE_LINES_PER_MESSAGE", 20, 1, 60) {
            Ok(n) => n,
            Err(e) => {
                return Err(e);
            },
        };
        let max_rows_per_poll: u64 = match bounded(env, "BRIDGE_MAX_ROWS_PER_POLL", 40, 1, 500) {
            Ok(n) => n,
            Err(e) => {
                return Err(e);
            },
        };
        let interval_ms: u64 = match bounded(
            env,
            "TOPIC_INTERVAL_MS",
            300_000,
            300_000,
            86_400_000,
        ) {
            Ok(n) => n,
            Err(e) => {
                return Err(e);
            },
        };
        let head: u64 = match bounded(env, "HEAD_SIZE", 64, 0, u64::MAX) {
            Ok(n) => n,
            Err(e) => {
                return Err(e);
            },
        };
        let c = Config {
            servers,
            discord: DiscordConfig {
                token,
                client_id,
                guild_id,
                bridge_channel_id: vars::get_filled(env, "BRIDGE_CHANNEL_ID"),
            },
            bridge: BridgeConfig {
                kinds: list(env, "BRIDGE_KINDS", "chat,join,leave,death,advancement,server"),
                poll_ms,
                embeds_per_message,
                lines_per_message,
                max_rows_per_poll,
                start_from_latest: on_unless_false(env, "BRIDGE_START_FROM_LATEST"),
                status_notices: on_unless_false(env, "BRIDGE_STATUS_NOTICES"),
            },
            topic: TopicConfig { enabled: on_unless_false(env, "TOPIC_UPDATES"), interval_ms },
            head_size: head as u32,
        };
        assert(config_result(Ok(c)) == loaded(*env));
        Ok(c)
    }

    pub fn head_url_name(&self, name: &str) -> (s: String)
        ensures
            s@ == head_url(name@, self.head_size as int),
    {
        head_url_for_name(name, self.head_size)
    }

    pub fn body_url_name(&self, name: &str) -> (s: String)
        ensures
            s@ == body_url(name@),
    {
        body_url_for_name(name)
    }

    /// The first server with a key.
    pub fn server_by_key(&self, key: &str) -> (r: Option<&ServerConfig>)
        ensures
            match r {
                Some(s) => key_at(self@.servers, key@) is Some && s@ == self@.servers[key_at(
                    self@.servers,
                    key@,
                )->0],
                None => key_at(self@.servers, key@) is None,
            },
    {
        let ghost all = self@.servers;
        let mut i: usize = 0;
        while i < self.servers.len()
            invariant
                i <= self.servers.len(),
                all == server_texts(self.servers@),
                forall|j: int| 0 <= j < i ==> #[trigger] all[j].key != key@,
            decreases self.servers.len() - i,
        {
            assert(all[i as int].key == self.servers[i as int].key@);
            if text::same(&self.servers[i].key, key) {
                proof {
                    lemma_key_at(all, key@);
                }
                return Some(&self.servers[i]);
            }
            i = i + 1;
        }
        proof {
            lemma_key_at(all, key@);
        }
        None
    }

    pub fn multi_server(&self) -> (b: bool)
        ensures
            b == (self@.servers.len() > 1),
    {
        self.servers.len() > 1
    }
}

/// Settings that load always have a server, and their numbers lie within bounds
/// that Discord accepts.
pub proof fn lemma_loaded_bounds(env: Table<String>)
    ensures
        loaded(env) matches Ok(c) ==> {
            &&& c.servers.len() > 0
            &&& 1_000 <= c.poll_ms <= 300_000
            &&& 1 <= c.embeds_per_message <= 10
            &&& 1 <= c.lines_per_message <= 60
            &&& 1 <= c.max_rows_per_poll <= 500
            &&& 300_000 <= c.topic_interval_ms <= 86_400_000
        },
{
    lemma_as_many(env, listed(env, "SERVERS"@, Seq::empty()));
}

proof fn lemma_as_many(env: Table<String>, keys: Seq<Seq<char>>)
    ensures
        servers_of(env, keys) matches Ok(v) ==> v.len() == keys.len(),
    decreases keys.len(),
{
    if keys.len() > 0 {
        lemma_as_many(env, keys.drop_last());
    }
}

// ---------------------------------------------------------------------------
// Which variable sets what
// ---------------------------------------------------------------------------

/// That the variable is not there.
pub open spec fn unset(env: Table<String>, name: Seq<char>) -> bool {
    !env@.contains_key(name)
}

/// That the variable is there with that text, which has no space around it.
pub open spec fn holds(env: Table<String>, name: Seq<char>, value: Seq<char>) -> bool {
    env@.contains_key(name) && env@[name]@ == value && value.len() > 0 && text::trimmed(value) == value
}

/// That the variable is there with that number.
pub open spec fn holds_number(env: Table<String>, name: Seq<char>, n: int) -> bool {
    exists|v: Seq<char>| #[trigger] holds(env, name, v) && text::parsed_u64(v) == Some(n)
}

/// What was configured is what the variables say, each of its own; a number that is left
/// out has its own default, and so has a switch, which is on unless it says otherwise.
pub proof fn lemma_settings_are_read(env: Table<String>, n: int, v: Seq<char>)
    ensures
        loaded(env) matches Ok(c) ==> {
            &&& holds(env, "DISCORD_TOKEN"@, v) ==> c.token == v
            &&& holds_number(env, "DISCORD_CLIENT_ID"@, n) ==> c.client_id == n
            &&& holds_number(env, "DISCORD_GUILD_ID"@, n) ==> c.guild_id is Some && c.guild_id->0 == n
            &&& unset(env, "DISCORD_GUILD_ID"@) ==> c.guild_id is None
            &&& holds(env, "BRIDGE_CHANNEL_ID"@, v) ==> c.bridge_channel_id == Some(v)
            &&& unset(env, "BRIDGE_CHANNEL_ID"@) ==> c.bridge_channel_id is None
            &&& holds_number(env, "BRIDGE_POLL_MS"@, n) && 1000 <= n <= 300000 ==> c.poll_ms == n
            &&& unset(env, "BRIDGE_POLL_MS"@) ==> c.poll_ms == 3000
            &&& holds_number(env, "BRIDGE_EMBEDS_PER_MESSAGE"@, n) && 1 <= n <= 10 ==> c.embeds_per_message == n
            &&& unset(env, "BRIDGE_EMBEDS_PER_MESSAGE"@) ==> c.embeds_per_message == 10
            &&& holds_number(env, "BRIDGE_LINES_PER_MESSAGE"@, n) && 1 <= n <= 60 ==> c.lines_per_message == n
            &&& unset(env, "BRIDGE_LINES_PER_MESSAGE"@) ==> c.lines_per_message == 20
            &&& holds_number(env, "BRIDGE_MAX_ROWS_PER_POLL"@, n) && 1 <= n <= 500 ==> c.max_rows_per_poll == n
            &&& unset(env, "BRIDGE_MAX_ROWS_PER_POLL"@) ==> c.max_rows_per_poll == 40
            &&& holds_number(env, "TOPIC_INTERVAL_MS"@, n) && 300000 <= n <= 86400000 ==> c.topic_interval_ms == n
            &&& unset(env, "TOPIC_INTERVAL_MS"@) ==> c.topic_interval_ms == 300000
            &&& unset(env, "HEAD_SIZE"@) ==> c.head_size == 64
            &&& unset(env, "BRIDGE_START_FROM_LATEST"@) ==> c.start_from_latest
            &&& holds(env, "BRIDGE_START_FROM_LATEST"@, "false"@) ==> !c.start_from_latest
            &&& unset(env, "BRIDGE_STATUS_NOTICES"@) ==> c.status_notices
            &&& holds(env, "BRIDGE_STATUS_NOTICES"@, "false"@) ==> !c.status_notices
            &&& unset(env, "TOPIC_UPDATES"@) ==> c.topic_enabled
            &&& holds(env, "TOPIC_UPDATES"@, "false"@) ==> !c.topic_enabled
        },
        unset(env, "DISCORD_TOKEN"@) || unset(env, "DISCORD_CLIENT_ID"@) ==> loaded(env) is Err,
{
    reveal_strlit("true");
    reveal_strlit("false");
    assert("true"@.len() == 4 && "false"@.len() == 5);
    lemma_number_held(env, "DISCORD_CLIENT_ID"@, n);
    lemma_number_held(env, "DISCORD_GUILD_ID"@, n);
    lemma_number_held(env, "BRIDGE_POLL_MS"@, n);
    lemma_number_held(env, "BRIDGE_EMBEDS_PER_MESSAGE"@, n);
    lemma_number_held(env, "BRIDGE_LINES_PER_MESSAGE"@, n);
    lemma_number_held(env, "BRIDGE_MAX_ROWS_PER_POLL"@, n);
    lemma_number_held(env, "TOPIC_INTERVAL_MS"@, n);
}

proof fn lemma_number_held(env: Table<String>, name: Seq<char>, n: int)
    ensures
        holds_number(env, name, n) ==> (vars::filled(vars::var(env, name)) matches Some(v)
            && text::parsed_u64(v) == Some(n) && n as u64 == n),
{
    if holds_number(env, name, n) {
        let v = choose|v: Seq<char>| #[trigger] holds(env, name, v) && text::parsed_u64(v) == Some(n);
        assert(holds(env, name, v));
        text::lemma_parsed_nonnegative(v);
    }
}

/// A server that is listed has its own variables, named after its key.
pub proof fn lemma_servers_have_their_variables(
    env: Table<String>,
    key: Seq<char>,
    url: Seq<char>,
    label: Seq<char>,
    addr: Seq<char>,
)
    requires
        holds(env, "SERVER_"@ + variable_part(key) + "_URL"@, url),
    ensures
        server_of(env, key) matches Ok(s) && {
            &&& s.key == key
            &&& s.database_url == url
            &&& holds(env, "SERVER_"@ + variable_part(key) + "_LABEL"@, label) ==> s.label == label
            &&& unset(env, "SERVER_"@ + variable_part(key) + "_LABEL"@) ==> s.label == key
            &&& holds(env, "SERVER_"@ + variable_part(key) + "_STREAM"@, addr) ==> s.stream_addr == Some(
                addr,
            )
            &&& unset(env, "SERVER_"@ + variable_part(key) + "_STREAM"@) && holds(
                env,
                "EVENT_STREAM_ADDR"@,
                addr,
            ) ==> s.stream_addr == Some(addr)
            &&& unset(env, "SERVER_"@ + variable_part(key) + "_STREAM"@) && unset(
                env,
                "EVENT_STREAM_ADDR"@,
            ) ==> s.stream_addr is None
        },
{
}

/// A server without a database is an error that names the server and the variable.
pub proof fn lemma_servers_need_a_database(env: Table<String>, key: Seq<char>)
    requires
        unset(env, "SERVER_"@ + variable_part(key) + "_URL"@),
    ensures
        server_of(env, key) == Err::<ServerText, ConfigErrorText>(
            ConfigErrorText::NoDatabase { key, name: "SERVER_"@ + variable_part(key) + "_URL"@ },
        ),
{
}

/// The servers that are listed are read one by one, in their order.
pub proof fn lemma_servers_in_order(env: Table<String>, keys: Seq<Seq<char>>, key: Seq<char>)
    ensures
        servers_of(env, keys) matches Ok(before) ==> (server_of(env, key) matches Ok(s) ==> servers_of(
            env,
            keys.push(key),
        ) == Ok::<Seq<ServerText>, ConfigErrorText>(before.push(s))),
        servers_of(env, keys) is Err ==> servers_of(env, keys.push(key)) is Err,
        server_of(env, key) is Err ==> servers_of(env, keys.push(key)) is Err,
{
    assert(keys.push(key).drop_last() =~= keys);
}

/// A list is read in lower case, in its order, without the items that are blank.
pub proof fn lemma_lists_are_read(all: Seq<Seq<char>>, item: Seq<char>)
    ensures
        text::unicode_lower(text::trimmed(item)).len() > 0 ==> lower_items(all.push(item)) == lower_items(
            all,
        ).push(text::unicode_lower(text::trimmed(item))),
        text::unicode_lower(text::trimmed(item)).len() == 0 ==> lower_items(all.push(item))
            == lower_items(all),
{
    assert(all.push(item).drop_last() =~= all);
}

/// The variables of a server are named in upper case, with an underscore for whatever
/// is neither a letter nor a digit.
pub proof fn lemma_variable_names(key: Seq<char>, i: int)
    requires
        0 <= i < text::unicode_upper(key).len(),
    ensures
        variable_part(key).len() == text::unicode_upper(key).len(),
        text::is_name_char(variable_part(key)[i]),
        text::is_digit(text::unicode_upper(key)[i]) || text::is_ascii_letter(text::unicode_upper(key)[i])
            ==> variable_part(key)[i] == text::unicode_upper(key)[i],
{
}

/// The style is compact where it says so, in either case, and rich otherwise.
pub proof fn lemma_styles(s: Seq<char>)
    ensures
        style_of("compact"@) == BridgeStyle::Compact,
        style_of("rich"@) == BridgeStyle::Rich,
        style_of(text::lowered(s)) == style_of(s),
{
    reveal_strlit("rich");
    reveal_strlit("compact");
    assert(text::lowered("rich"@).len() == 4);
    assert(text::lowered("compact"@).len() == 7);
    text::lemma_case_is_lost(s);
    assert(text::lowered(text::lowered(s)) =~= text::lowered(s));
}

/// The picture of a player is asked for by name and size.
pub proof fn lemma_pictures(name: Seq<char>, size: int)
    ensures
        head_url(name, size) == "https://crafthead.net/helm/"@ + name + "/"@ + text::decimal(size),
        text::has_text(head_url(name, size), name),
        text::has_text(body_url(name), name),
{
    text::lemma_has_inside("https://crafthead.net/helm/"@, name, "/"@ + text::decimal(size));
    assert("https://crafthead.net/helm/"@ + name + ("/"@ + text::decimal(size)) =~= head_url(name, size));
    text::lemma_has_inside("https://mc-heads.net/body/"@, name, Seq::empty());
    assert("https://mc-heads.net/body/"@ + name + Seq::empty() =~= body_url(name));
}

/// What is missing or wrong is named.
pub proof fn lemma_errors_name_the_variable(name: Seq<char>, key: Seq<char>, raw: Seq<char>)
    ensures
        text::has_text(config_error_text(ConfigErrorText::Missing { name }), name),
        text::has_text(config_error_text(ConfigErrorText::NoDatabase { key, name }), key),
        text::has_text(config_error_text(ConfigErrorText::NoDatabase { key, name }), name),
        text::has_text(config_error_text(ConfigErrorText::NotAnId { name }), name),
        text::has_text(config_error_text(ConfigErrorText::NotANumber { name, raw }), name),
        text::has_text(config_error_text(ConfigErrorText::NotANumber { name, raw }), raw),
{
    text::lemma_has_inside(
        "Missing required environment variable "@,
        name,
        ". Copy .env.example to .env and fill it in."@,
    );
    let but = "\" but "@ + name + " is not set."@;
    text::lemma_has_inside("SERVERS lists \""@, key, but);
    assert("SERVERS lists \""@ + key + but =~= config_error_text(ConfigErrorText::NoDatabase { key, name }));
    text::lemma_has_inside("SERVERS lists \""@ + key + "\" but "@, name, " is not set."@);
    text::lemma_has_inside("Environment variable "@, name, " must be a numeric ID."@);
    let got = " must be a number, got \""@ + raw + "\""@;
    text::lemma_has_inside("Environment variable "@, name, got);
    assert("Environment variable "@ + name + got =~= config_error_text(
        ConfigErrorText::NotANumber { name, raw },
    ));
    text::lemma_has_inside(
        "Environment variable "@ + name + " must be a number, got \""@,
        raw,
        "\""@,
    );
}

/// The settings are read field by field.
pub proof fn lemma_settings_are_read_by_field(c: Config, s: ServerConfig)
    ensures
        c@.token == c.discord.token@ && c@.client_id == c.discord.client_id,
        c@.guild_id == c.discord.guild_id && c@.head_size == c.head_size,
        c@.poll_ms == c.bridge.poll_ms && c@.embeds_per_message == c.bridge.embeds_per_message,
        c@.lines_per_message == c.bridge.lines_per_message,
        c@.max_rows_per_poll == c.bridge.max_rows_per_poll,
        c@.start_from_latest == c.bridge.start_from_latest,
        c@.status_notices == c.bridge.status_notices,
        c@.topic_enabled == c.topic.enabled && c@.topic_interval_ms == c.topic.interval_ms,
        c@.servers.len() == c.servers@.len(),
        s@.key == s.key@ && s@.label == s.label@ && s@.database_url == s.database_url@,
        s.stream_addr is Some ==> s@.stream_addr == Some(s.stream_addr->0@),
        s.stream_addr is None ==> s@.stream_addr is None,
{
}

} // verus!
