//! Exporting a channel over the Discord HTTP interface.
use vstd::prelude::*;
use vstd::string::*;

use crate::text;

verus! {

// ---------------------------------------------------------------------------
// Arguments
// ---------------------------------------------------------------------------

#[derive(Clone, Copy, Debug, PartialEq, Eq, Structural)]
pub enum Format {
    Jsonl,
    Text,
}

/// What to export, and where to.
pub struct Args {
    pub channel_id: u64,
    pub token: String,
    /// The file to write; the standard output where there is none.
    pub out: Option<String>,
    pub limit: Option<u64>,
    pub after: Option<u64>,
    pub before: Option<u64>,
    pub format: Format,
}

/// What the arguments ask for.
pub enum Asked {
    Help,
    Export(Args),
}

/// What is wrong with the arguments.
#[allow(inconsistent_fields)]
pub enum ArgError {
    NeedsValue { flag: String },
    NotSnowflake { flag: &'static str, got: String },
    ZeroSnowflake { flag: &'static str },
    NotPositive { flag: &'static str, got: String },
    Zero { flag: &'static str },
    BadFormat { got: String },
    UnknownFlag { flag: String },
    Unexpected { arg: String },
    NoChannel,
    NoToken,
    AfterNotBelowBefore,
}

/// The contents of an [`ArgError`].
#[verifier::ext_equal]
pub enum ArgErrorText {
    NeedsValue { flag: Seq<char> },
    NotSnowflake { flag: Seq<char>, got: Seq<char> },
    ZeroSnowflake { flag: Seq<char> },
    NotPositive { flag: Seq<char>, got: Seq<char> },
    Zero { flag: Seq<char> },
    BadFormat { got: Seq<char> },
    UnknownFlag { flag: Seq<char> },
    Unexpected { arg: Seq<char> },
    NoChannel,
    NoToken,
    AfterNotBelowBefore,
}

impl View for ArgError {
    type V = ArgErrorText;

    open spec fn view(&self) -> ArgErrorText {
        match *self {
            ArgError::NeedsValue { flag } => ArgErrorText::NeedsValue { flag: flag@ },
            ArgError::NotSnowflake { flag, got } => ArgErrorText::NotSnowflake {
                flag: flag@,
                got: got@,
            },
            ArgError::ZeroSnowflake { flag } => ArgErrorText::ZeroSnowflake { flag: flag@ },
            ArgError::NotPositive { flag, got } => ArgErrorText::NotPositive {
                flag: flag@,
                got: got@,
            },
            ArgError::Zero { flag } => ArgErrorText::Zero { flag: flag@ },
            ArgError::BadFormat { got } => ArgErrorText::BadFormat { got: got@ },
            ArgError::UnknownFlag { flag } => ArgErrorText::UnknownFlag { flag: flag@ },
            ArgError::Unexpected { arg } => ArgErrorText::Unexpected { arg: arg@ },
            ArgError::NoChannel => ArgErrorText::NoChannel,
            ArgError::NoToken => ArgErrorText::NoToken,
            ArgError::AfterNotBelowBefore => ArgErrorText::AfterNotBelowBefore,
        }
    }
}

/// What is said about an error.
pub open spec fn error_text(e: ArgErrorText) -> Seq<char> {
    match e {
        ArgErrorText::NeedsValue { flag } => flag + " needs a value"@,
        ArgErrorText::NotSnowflake { flag, got } => flag
            + " must be a Discord snowflake (numeric ID), got "@ + text::str_debug(got),
        ArgErrorText::ZeroSnowflake { flag } => flag + " must be a non-zero snowflake"@,
        ArgErrorText::NotPositive { flag, got } => flag + " must be a positive integer, got "@
            + text::str_debug(got),
        ArgErrorText::Zero { flag } => flag + " must be greater than 0"@,
        ArgErrorText::BadFormat { got } => "--format must be jsonl or text, got "@
            + text::str_debug(got),
        ArgErrorText::UnknownFlag { flag } => "unknown flag "@ + flag + ". Use --help."@,
        ArgErrorText::Unexpected { arg } => "unexpected argument "@ + text::str_debug(arg)
            + ". Use --help."@,
        ArgErrorText::NoChannel => "missing --channel CHANNEL_ID (or env CHANNEL_ID). Use --help."@,
        ArgErrorText::NoToken => "missing bot token. Set DISCORD_TOKEN in mc-discord-bot/.env or pass --token."@,
        ArgErrorText::AfterNotBelowBefore => "--after must be less than --before"@,
    }
}

impl ArgError {
    pub fn describe(&self) -> (s: String)
        ensures
            s@ == error_text(self@),
    {
        match self {
            ArgError::NeedsValue { flag } => text::cat2(flag, " needs a value"),
            ArgError::NotSnowflake { flag, got } => text::cat3(
                flag,
                " must be a Discord snowflake (numeric ID), got ",
                &text::quoted(got),
            ),
            ArgError::ZeroSnowflake { flag } => text::cat2(flag, " must be a non-zero snowflake"),
            ArgError::NotPositive { flag, got } => text::cat3(
                flag,
                " must be a positive integer, got ",
                &text::quoted(got),
            ),
            ArgError::Zero { flag } => text::cat2(flag, " must be greater than 0"),
            ArgError::BadFormat { got } => text::cat2(
                "--format must be jsonl or text, got ",
                &text::quoted(got),
            ),
            ArgError::UnknownFlag { flag } => text::cat3("unknown flag ", flag, ". Use --help."),
            ArgError::Unexpected { arg } => text::cat3(
                "unexpected argument ",
                &text::quoted(arg),
                ". Use --help.",
            ),
            ArgError::NoChannel => text::copy(
                "missing --channel CHANNEL_ID (or env CHANNEL_ID). Use --help.",
            ),
            ArgError::NoToken => text::copy(
                "missing bot token. Set DISCORD_TOKEN in mc-discord-bot/.env or pass --token.",
            ),
            ArgError::AfterNotBelowBefore => text::copy("--after must be less than --before"),
        }
    }
}

/// The flags that take a value.
#[derive(Clone, Copy, Debug, PartialEq, Eq, Structural)]
pub enum Flag {
    Channel,
    Token,
    Out,
    Limit,
    After,
    Before,
    Format,
}

pub open spec fn flag_of(key: Seq<char>) -> Option<Flag> {
    if key == "--channel"@ || key == "-c"@ {
        Some(Flag::Channel)
    } else if key == "--token"@ {
        Some(Flag::Token)
    } else if key == "--out"@ || key == "-o"@ {
        Some(Flag::Out)
    } else if key == "--limit"@ {
        Some(Flag::Limit)
    } else if key == "--after"@ {
        Some(Flag::After)
    } else if key == "--before"@ {
        Some(Flag::Before)
    } else if key == "--format"@ {
        Some(Flag::Format)
    } else {
        None
    }
}

fn read_flag(key: &str) -> (r: Option<Flag>)
    ensures
        r == flag_of(key@),
{
    if text::same(key, "--channel") || text::same(key, "-c") {
        Some(Flag::Channel)
    } else if text::same(key, "--token") {
        Some(Flag::Token)
    } else if text::same(key, "--out") || text::same(key, "-o") {
        Some(Flag::Out)
    } else if text::same(key, "--limit") {
        Some(Flag::Limit)
    } else if text::same(key, "--after") {
        Some(Flag::After)
    } else if text::same(key, "--before") {
        Some(Flag::Before)
    } else if text::same(key, "--format") {
        Some(Flag::Format)
    } else {
        None
    }
}

/// A flag and the value behind its first equals sign.
pub open spec fn flag_parts(arg: Seq<char>) -> (Seq<char>, Option<Seq<char>>) {
    match text::split_once_text(arg, "="@) {
        Some((key, value)) => (key, Some(value)),
        None => (arg, None),
    }
}

pub fn split_flag(arg: &str) -> (r: (String, Option<String>))
    ensures
        (r.0@, text::opt_text(r.1)) == flag_parts(arg@),
{
    match text::split_once(arg, "=") {
        Some((key, value)) => (key, Some(value)),
        None => (text::copy(arg), None),
    }
}

/// Whether an argument is a flag rather than a value. A lone hyphen is a value.
pub open spec fn is_flag(arg: Seq<char>) -> bool {
    text::begins(arg, "-"@) && arg != "-"@
}

/// The value of a flag at position `i`, and whether it is the next argument.
pub open spec fn flag_value(inline: Option<Seq<char>>, raw: Seq<Seq<char>>, i: int) -> Option<
    (Seq<char>, bool),
> {
    match inline {
        Some(v) => if v.len() == 0 {
            None
        } else {
            Some((v, false))
        },
        None => if i + 1 < raw.len() && !is_flag(raw[i + 1]) {
            Some((raw[i + 1], true))
        } else {
            None
        },
    }
}

pub open spec fn opt_value(o: Option<(String, bool)>) -> Option<(Seq<char>, bool)> {
    match o {
        Some((v, next)) => Some((v@, next)),
        None => None,
    }
}

pub fn need_value(inline: &Option<String>, raw: &Vec<String>, i: usize) -> (r: Option<(String, bool)>)
    requires
        i < raw.len(),
    ensures
        opt_value(r) == flag_value(text::opt_text(*inline), text::texts(raw@), i as int),
        r matches Some((_, true)) ==> i + 1 < raw.len(),
{
    match inline {
        Some(v) => if v.as_str().is_empty() {
            None
        } else {
            Some((v.clone(), false))
        },
        None => if i + 1 < raw.len() && !(text::starts_with(&raw[i + 1], "-") && !text::same(
            &raw[i + 1],
            "-",
        )) {
            Some((raw[i + 1].clone(), true))
        } else {
            None
        },
    }
}

/// Reads an identifier of Discord.
pub open spec fn snowflake(raw: Seq<char>, flag: Seq<char>) -> Result<u64, ArgErrorText> {
    match text::parsed_u64(text::trimmed(raw)) {
        Some(n) => if n == 0 {
            Err(ArgErrorText::ZeroSnowflake { flag })
        } else {
            Ok(n as u64)
        },
        None => Err(ArgErrorText::NotSnowflake { flag, got: raw }),
    }
}

pub open spec fn number_result(r: Result<u64, ArgError>) -> Result<u64, ArgErrorText> {
    match r {
        Ok(n) => Ok(n),
        Err(e) => Err(e@),
    }
}

pub fn parse_snowflake(raw: &str, flag: &'static str) -> (r: Result<u64, ArgError>)
    ensures
        number_result(r) == snowflake(raw@, flag@),
{
    match text::parse_u64(&text::trim(raw)) {
        Some(n) => if n == 0 {
            Err(ArgError::ZeroSnowflake { flag })
        } else {
            Ok(n)
        },
        None => Err(ArgError::NotSnowflake { flag, got: text::copy(raw) }),
    }
}

/// Reads a number above zero.
pub open spec fn positive(raw: Seq<char>, flag: Seq<char>) -> Result<u64, ArgErrorText> {
    match text::parsed_u64(text::trimmed(raw)) {
        Some(n) => if n == 0 {
            Err(ArgErrorText::Zero { flag })
        } else {
            Ok(n as u64)
        },
        None => Err(ArgErrorText::NotPositive { flag, got: raw }),
    }
}

pub fn parse_positive(raw: &str, flag: &'static str) -> (r: Result<u64, ArgError>)
    ensures
        number_result(r) == positive(raw@, flag@),
{
    match text::parse_u64(&text::trim(raw)) {
        Some(n) => if n == 0 {
            Err(ArgError::Zero { flag })
        } else {
            Ok(n)
        },
        None => Err(ArgError::NotPositive { flag, got: text::copy(raw) }),
    }
}

pub open spec fn format_of(v: Seq<char>) -> Option<Format> {
    if v == "jsonl"@ || v == "json"@ {
        Some(Format::Jsonl)
    } else if v == "text"@ || v == "txt"@ {
        Some(Format::Text)
    } else {
        None
    }
}

fn read_format(v: &str) -> (r: Option<Format>)
    ensures
        r == format_of(v@),
{
    if text::same(v, "jsonl") || text::same(v, "json") {
        Some(Format::Jsonl)
    } else if text::same(v, "text") || text::same(v, "txt") {
        Some(Format::Text)
    } else {
        None
    }
}

/// What was read of the arguments so far.
pub struct Draft {
    pub channel: Option<String>,
    pub token: Option<String>,
    pub out: Option<String>,
    pub limit: Option<u64>,
    pub after: Option<u64>,
    pub before: Option<u64>,
    pub format: Format,
}

/// The contents of a [`Draft`].
#[verifier::ext_equal]
pub struct DraftText {
    pub channel: Option<Seq<char>>,
    pub token: Option<Seq<char>>,
    pub out: Option<Seq<char>>,
    pub limit: Option<u64>,
    pub after: Option<u64>,
    pub before: Option<u64>,
    pub format: Format,
}

impl View for Draft {
    type V = DraftText;

    open spec fn view(&self) -> DraftText {
        DraftText {
            channel: text::opt_text(self.channel),
            token: text::opt_text(self.token),
            out: text::opt_text(self.out),
            limit: self.limit,
            after: self.after,
            before: self.before,
            format: self.format,
        }
    }
}

/// A flag with its value.
pub open spec fn with_flag(d: DraftText, flag: Flag, v: Seq<char>) -> Result<DraftText, ArgErrorText> {
    match flag {
        Flag::Channel => Ok(DraftText { channel: Some(v), ..d }),
        Flag::Token => Ok(DraftText { token: Some(v), ..d }),
        Flag::Out => Ok(DraftText { out: Some(v), ..d }),
        Flag::Limit => match positive(v, "--limit"@) {
            Ok(n) => Ok(DraftText { limit: Some(n), ..d }),
            Err(e) => Err(e),
        },
        Flag::After => match snowflake(v, "--after"@) {
            Ok(n) => Ok(DraftText { after: Some(n), ..d }),
            Err(e) => Err(e),
        },
        Flag::Before => match snowflake(v, "--before"@) {
            Ok(n) => Ok(DraftText { before: Some(n), ..d }),
            Err(e) => Err(e),
        },
        Flag::Format => match format_of(v) {
            Some(format) => Ok(DraftText { format, ..d }),
            None => Err(ArgErrorText::BadFormat { got: v }),
        },
    }
}

pub open spec fn draft_result(r: Result<Draft, ArgError>) -> Result<DraftText, ArgErrorText> {
    match r {
        Ok(d) => Ok(d@),
        Err(e) => Err(e@),
    }
}

fn set_flag(d: Draft, flag: Flag, v: String) -> (r: Result<Draft, ArgError>)
    ensures
        draft_result(r) == with_flag(d@, flag, v@),
{
    let mut d = d;
    match flag {
        Flag::Channel => {
            d.channel = Some(v);
        },
        Flag::Token => {
            d.token = Some(v);
        },
        Flag::Out => {
            d.out = Some(v);
        },
        Flag::Limit => match parse_positive(&v, "--limit") {
            Ok(n) => {
                d.limit = Some(n);
            },
            Err(e) => {
                return Err(e);
            },
        },
        Flag::After => match parse_snowflake(&v, "--after") {
            Ok(n) => {
                d.after = Some(n);
            },
            Err(e) => {
                return Err(e);
            },
        },
        Flag::Before => match parse_snowflake(&v, "--before") {
            Ok(n) => {
                d.before = Some(n);
            },
            Err(e) => {
                return Err(e);
            },
        },
        Flag::Format => match read_format(&v) {
            Some(format) => {
                d.format = format;
            },
            None => {
                return Err(ArgError::BadFormat { got: v });
            },
        },
    }
    Ok(d)
}

/// What the argument at position `i` makes of the draft, and whether it took the
/// next argument with it.
pub open spec fn arg_step(d: DraftText, raw: Seq<Seq<char>>, i: int) -> Result<
    (DraftText, bool),
    ArgErrorText,
> {
    let (key, inline) = flag_parts(raw[i]);
    match flag_of(key) {
        Some(flag) => match flag_value(inline, raw, i) {
            Some((v, next)) => match with_flag(d, flag, v) {
                Ok(after) => Ok((after, next)),
                Err(e) => Err(e),
            },
            None => Err(ArgErrorText::NeedsValue { flag: key }),
        },
        None => if text::begins(key, "-"@) {
            Err(ArgErrorText::UnknownFlag { flag: key })
        } else if d.channel is None {
            Ok((DraftText { channel: Some(key), ..d }, false))
        } else {
            Err(ArgErrorText::Unexpected { arg: key })
        },
    }
}

/// What the arguments from position `i` on make of the draft.
pub open spec fn args_from(d: DraftText, raw: Seq<Seq<char>>, i: int) -> Result<
    DraftText,
    ArgErrorText,
>
    decreases raw.len() - i,
{
    if i >= raw.len() {
        Ok(d)
    } else {
        match arg_step(d, raw, i) {
            Ok((after, next)) => args_from(
                after,
                raw,
                i + (if next {
                    2int
                } else {
                    1int
                }),
            ),
            Err(e) => Err(e),
        }
    }
}

/// Before any argument is read.
pub open spec fn first_draft(env_channel: Option<Seq<char>>) -> DraftText {
    DraftText {
        channel: match env_channel {
            Some(c) if c.len() > 0 => Some(c),
            _ => None,
        },
        token: None,
        out: None,
        limit: None,
        after: None,
        before: None,
        format: Format::Jsonl,
    }
}

/// The contents of an [`Args`].
#[verifier::ext_equal]
pub struct ArgsText {
    pub channel_id: u64,
    pub token: Seq<char>,
    pub out: Option<Seq<char>>,
    pub limit: Option<u64>,
    pub after: Option<u64>,
    pub before: Option<u64>,
    pub format: Format,
}

impl View for Args {
    type V = ArgsText;

    open spec fn view(&self) -> ArgsText {
        ArgsText {
            channel_id: self.channel_id,
            token: self.token@,
            out: text::opt_text(self.out),
            limit: self.limit,
            after: self.after,
            before: self.before,
            format: self.format,
        }
    }
}

/// The file that is written where none is named, whatever the format.
pub open spec fn default_file(channel_id: u64) -> Seq<char> {
    "channel-"@ + text::decimal(channel_id as int) + ".jsonl"@
}

/// What a draft with everything in it asks for.
pub open spec fn finished(d: DraftText, env_token: Option<Seq<char>>) -> Result<
    ArgsText,
    ArgErrorText,
> {
    let token = match d.token {
        Some(t) => Some(t),
        None => match env_token {
            Some(t) if t.len() > 0 => Some(t),
            _ => None,
        },
    };
    match d.channel {
        None => Err(ArgErrorText::NoChannel),
        Some(c) => match snowflake(c, "--channel"@) {
            Err(e) => Err(e),
            Ok(channel_id) => match token {
                None => Err(ArgErrorText::NoToken),
                Some(token) => if d.after is Some && d.before is Some && d.after->0
                    >= d.before->0 {
                    Err(ArgErrorText::AfterNotBelowBefore)
                } else {
                    Ok(
                        ArgsText {
                            channel_id,
                            token,
                            out: match d.out {
                                Some(path) => if path == "-"@ {
                                    None
                                } else {
                                    Some(path)
                                },
                                None => Some(default_file(channel_id)),
                            },
                            limit: d.limit,
                            after: d.after,
                            before: d.before,
                            format: d.format,
                        },
                    )
                },
            },
        },
    }
}

fn finish(d: Draft, env_token: Option<String>) -> (r: Result<Args, ArgError>)
    ensures
        (match r {
            Ok(a) => Ok(a@),
            Err(e) => Err(e@),
        }) == finished(d@, text::opt_text(env_token)),
{
    let channel_id: u64 = match &d.channel {
        Some(c) => match parse_snowflake(c, "--channel") {
            Ok(n) => n,
            Err(e) => {
                return Err(e);
            },
        },
        None => {
            return Err(ArgError::NoChannel);
        },
    };
    let token = match d.token {
        Some(t) => t,
        None => match env_token {
            Some(t) => if t.as_str().is_empty() {
                return Err(ArgError::NoToken);
            } else {
                t
            },
            None => {
                return Err(ArgError::NoToken);
            },
        },
    };
    if let (Some(a), Some(b)) = (d.after, d.before) {
        if a >= b {
            return Err(ArgError::AfterNotBelowBefore);
        }
    }
    let out = match d.out {
        Some(path) => if text::same(&path, "-") {
            None
        } else {
            Some(path)
        },
        None => Some(text::cat3("channel-", &text::number(channel_id), ".jsonl")),
    };
    Ok(
        Args {
            channel_id,
            token,
            out,
            limit: d.limit,
            after: d.after,
            before: d.before,
            format: d.format,
        },
    )
}

/// Whether the arguments ask for help anywhere.
pub open spec fn asks_help(raw: Seq<Seq<char>>) -> bool {
    raw.contains("-h"@) || raw.contains("--help"@)
}

/// What the arguments ask for, where they do not ask for help.
pub open spec fn parsed(
    raw: Seq<Seq<char>>,
    env_channel: Option<Seq<char>>,
    env_token: Option<Seq<char>>,
) -> Result<ArgsText, ArgErrorText> {
    match args_from(first_draft(env_channel), raw, 0) {
        Ok(d) => finished(d, env_token),
        Err(e) => Err(e),
    }
}

/// Reads the arguments. What the environment gives for the channel and the token
/// counts where no argument does.
pub fn parse_args(raw: &Vec<String>, env_channel: Option<String>, env_token: Option<String>) -> (r:
    Result<Asked, ArgError>)
    ensures
        match r {
            Ok(Asked::Help) => asks_help(text::texts(raw@)),
            Ok(Asked::Export(args)) => !asks_help(text::texts(raw@)) && parsed(
                text::texts(raw@),
                text::opt_text(env_channel),
                text::opt_text(env_token),
            ) == Ok::<ArgsText, ArgErrorText>(args@),
            Err(e) => !asks_help(text::texts(raw@)) && parsed(
                text::texts(raw@),
                text::opt_text(env_channel),
                text::opt_text(env_token),
            ) == Err::<ArgsText, ArgErrorText>(e@),
        },
{
    let ghost all = text::texts(raw@);
    if text::listed(raw, "-h") || text::listed(raw, "--help") {
        return Ok(Asked::Help);
    }
    let ghost start = first_draft(text::opt_text(env_channel));
    let channel = match env_channel {
        Some(c) => if c.as_str().is_empty() {
            None
        } else {
            Some(c)
        },
        None => None,
    };
    let mut draft = Draft {
        channel,
        token: None,
        out: None,
        limit: None,
        after: None,
        before: None,
        format: Format::Jsonl,
    };
    assert(draft@ =~= start);
    let mut i: usize = 0;
    while i < raw.len()
        invariant
            i <= raw.len(),
            all == text::texts(raw@),
            !asks_help(all),
            start == first_draft(text::opt_text(env_channel)),
            args_from(start, all, 0) == args_from(draft@, all, i as int),
        decreases raw.len() - i,
    {
        let (key, inline) = split_flag(&raw[i]);
        assert(all[i as int] == raw[i as int]@);
        let mut next = false;
        match read_flag(&key) {
            Some(flag) => match need_value(&inline, raw, i) {
                Some((v, took)) => match set_flag(draft, flag, v) {
                    Ok(d) => {
                        draft = d;
                        next = took;
                    },
                    Err(e) => {
                        return Err(e);
                    },
                },
                None => {
                    return Err(ArgError::NeedsValue { flag: key });
                },
            },
            None => {
                if text::starts_with(&key, "-") {
                    return Err(ArgError::UnknownFlag { flag: key });
                }
                if draft.channel.is_some() {
                    return Err(ArgError::Unexpected { arg: key });
                }
                draft.channel = Some(key);
            },
        }
        if next {
            i = i + 2;
        } else {
            i = i + 1;
        }
    }
    match finish(draft, env_token) {
        Ok(args) => Ok(Asked::Export(args)),
        Err(e) => Err(e),
    }
}

/// An export never has bounds that leave nothing between them.
pub proof fn lemma_bounds_are_open(
    raw: Seq<Seq<char>>,
    env_channel: Option<Seq<char>>,
    env_token: Option<Seq<char>>,
)
    ensures
        parsed(raw, env_channel, env_token) matches Ok(args) ==> {
            &&& args.channel_id > 0
            &&& args.after is Some && args.before is Some ==> args.after->0 < args.before->0
        },
{
    if let Ok(d) = args_from(first_draft(env_channel), raw, 0) {
        if let Some(c) = d.channel {
            text::lemma_parsed_nonnegative(text::trimmed(c));
        }
    }
}

/// Why a token is not accepted.
pub open spec fn user_token(token: Seq<char>) -> bool {
    text::begins(text::trimmed(token), "Bearer "@)
}

/// Whether a token is one of a user, which is never accepted.
pub fn is_user_token(token: &str) -> (b: bool)
    ensures
        b == user_token(token@),
{
    text::starts_with(&text::trim(token), "Bearer ")
}

// ---------------------------------------------------------------------------
// Fetching
// ---------------------------------------------------------------------------

pub struct ExportedAuthor {
    pub id: u64,
    pub name: String,
    pub bot: bool,
}

pub struct ExportedAttachment {
    pub url: String,
    pub filename: String,
}

pub struct ExportedMessage {
    pub id: u64,
    pub timestamp: String,
    pub author: ExportedAuthor,
    pub content: String,
    pub attachments: Vec<ExportedAttachment>,
}

/// The most messages of one page.
pub const PAGE_CAP: u64 = 100;

/// A page to ask for.
#[derive(Clone, Copy, Debug, PartialEq, Eq, Structural)]
pub struct PageRequest {
    pub take: u64,
    pub after: Option<u64>,
    pub before: Option<u64>,
}

/// An export as far as it has come. Forward from a lower bound where there is
/// one, and otherwise backward from the newest message or the upper bound.
pub struct Fetch {
    pub limit: Option<u64>,
    pub after: Option<u64>,
    pub before: Option<u64>,
    pub cursor: Option<u64>,
    pub out: Vec<ExportedMessage>,
    pub done: bool,
}

/// Whether a message lies between the bounds.
pub open spec fn between(id: u64, after: Option<u64>, before: Option<u64>) -> bool {
    &&& after matches Some(a) ==> id > a
    &&& before matches Some(b) ==> id < b
}

/// The messages of a page between the bounds, the oldest first. A page has its
/// newest first.
pub open spec fn oldest_first(
    page: Seq<ExportedMessage>,
    after: Option<u64>,
    before: Option<u64>,
) -> Seq<ExportedMessage>
    decreases page.len(),
{
    if page.len() == 0 {
        Seq::empty()
    } else {
        let rest = oldest_first(page.skip(1), after, before);
        if between(page[0].id, after, before) {
            rest.push(page[0])
        } else {
            rest
        }
    }
}

/// The messages up to a limit.
pub open spec fn within(all: Seq<ExportedMessage>, limit: Option<u64>) -> Seq<ExportedMessage> {
    match limit {
        Some(n) if all.len() > n => all.take(n as int),
        _ => all,
    }
}

impl Fetch {
    pub open spec fn wf(self) -> bool {
        &&& self.limit matches Some(n) ==> self.out.len() <= n
        &&& self.after is Some ==> self.cursor is Some
    }

    /// Before the first page.
    pub fn new(limit: Option<u64>, after: Option<u64>, before: Option<u64>) -> (f: Self)
        ensures
            f.wf(),
            f.limit == limit && f.after == after && f.before == before,
            f.cursor == (if after is Some {
                after
            } else {
                before
            }),
            f.out@ == Seq::<ExportedMessage>::empty(),
            !f.done,
    {
        Fetch {
            limit,
            after,
            before,
            cursor: if after.is_some() {
                after
            } else {
                before
            },
            out: Vec::new(),
            done: false,
        }
    }

    /// Whether another page is asked for.
    pub open spec fn goes_on(self) -> bool {
        !self.done && (self.limit matches Some(n) ==> self.out.len() < n)
    }

    /// How many messages the next page may have.
    pub open spec fn next_take(self) -> int {
        match self.limit {
            Some(n) if n - self.out.len() < PAGE_CAP => n - self.out.len(),
            _ => PAGE_CAP as int,
        }
    }

    /// The next page to ask for.
    pub fn next_request(&self) -> (r: Option<PageRequest>)
        requires
            self.wf(),
        ensures
            r is Some == self.goes_on(),
            r matches Some(p) ==> p == page_request(*self) && 1 <= p.take <= PAGE_CAP,
    {
        if self.done {
            return None;
        }
        let have: u64 = self.out.len() as u64;
        let take: u64 = match self.limit {
            Some(n) => {
                if have >= n {
                    return None;
                }
                if n - have < PAGE_CAP {
                    n - have
                } else {
                    PAGE_CAP
                }
            },
            None => PAGE_CAP,
        };
        if self.after.is_some() {
            Some(PageRequest { take, after: self.cursor, before: None })
        } else {
            Some(PageRequest { take, after: None, before: self.cursor })
        }
    }

    /// Takes in the page that came back.
    pub fn take_page(&mut self, page: Vec<ExportedMessage>)
        requires
            old(self).wf(),
            old(self).goes_on(),
        ensures
            final(self).wf(),
            final(self).limit == old(self).limit,
            final(self).after == old(self).after,
            final(self).before == old(self).before,
            final(self).out@ == taken(*old(self), page@),
            final(self).cursor == cursor_after(*old(self), page@),
            final(self).done == ends_with(*old(self), page@),
    {
        let ghost start = self.out@;
        let have: u64 = self.out.len() as u64;
        let want: u64 = match self.limit {
            Some(n) => if n - have < PAGE_CAP {
                n - have
            } else {
                PAGE_CAP
            },
            None => PAGE_CAP,
        };
        let size: u64 = page.len() as u64;
        if page.len() == 0 {
            self.done = true;
            assert(start =~= start + oldest_first(page@, self.after, self.before));
            assert(start =~= start + page@);
            assert(within(start, self.limit) == start);
            return;
        }
        let newest: u64 = page[0].id;
        let oldest: u64 = page[page.len() - 1].id;
        if self.after.is_some() {
            self.add_forward(page);
            if let Some(b) = self.before {
                if newest >= b {
                    self.done = true;
                    return;
                }
            }
            self.cursor = Some(newest);
        } else {
            self.add_backward(page);
            self.cursor = Some(oldest);
        }
        if size < want {
            self.done = true;
        }
    }

    fn is_full(&self) -> (b: bool)
        ensures
            b == (self.limit matches Some(n) && self.out.len() >= n),
    {
        match self.limit {
            Some(n) => self.out.len() as u64 >= n,
            None => false,
        }
    }

    fn add_forward(&mut self, page: Vec<ExportedMessage>)
        requires
            old(self).wf(),
        ensures
            final(self).out@ == within(
                old(self).out@ + oldest_first(page@, old(self).after, old(self).before),
                old(self).limit,
            ),
            final(self).limit == old(self).limit,
            final(self).after == old(self).after,
            final(self).before == old(self).before,
            final(self).cursor == old(self).cursor,
            final(self).done == old(self).done,
            final(self).wf(),
    {
        let ghost whole = page@;
        let ghost start = self.out@;
        let ghost before_call = *self;
        let mut page = page;
        assert(whole.skip(whole.len() as int) =~= Seq::<ExportedMessage>::empty());
        assert(start + oldest_first(
            whole.skip(whole.len() as int),
            self.after,
            self.before,
        ) =~= start);
        assert(page@ =~= whole.take(whole.len() as int));
        while page.len() > 0 && !self.is_full()
            invariant
                self.limit == before_call.limit,
                self.after == before_call.after,
                self.before == before_call.before,
                self.cursor == before_call.cursor,
                self.done == before_call.done,
                before_call.wf(),
                self.wf(),
                page.len() <= whole.len(),
                page@ == whole.take(page.len() as int),
                self.out@ == within(
                    start + oldest_first(
                        whole.skip(page.len() as int),
                        self.after,
                        self.before,
                    ),
                    self.limit,
                ),
                self.out@ == start + oldest_first(
                    whole.skip(page.len() as int),
                    self.after,
                    self.before,
                ),
            decreases page.len(),
        {
            let ghost n = page.len() as int;
            let ghost after = self.after;
            let ghost before = self.before;
            let ghost so_far = self.out@;
            proof {
                let tail = whole.skip(n - 1);
                assert(tail.skip(1) =~= whole.skip(n));
                assert(tail[0] == page@[n - 1]);
                assert(page@[n - 1] == page@.last());
            }
            if let Some(message) = page.pop() {
                assert(message == whole.skip(n - 1)[0]);
                let above = match self.after {
                    Some(a) => message.id > a,
                    None => true,
                };
                let below = match self.before {
                    Some(b) => message.id < b,
                    None => true,
                };
                if above && below {
                    self.out.push(message);
                }
                assert(page@ =~= whole.take(n - 1));
                assert(self.out@ =~= start + oldest_first(whole.skip(n - 1), after, before));
            }
        }
        proof {
            let rest = whole.take(page.len() as int);
            lemma_oldest_first_parts(whole, page.len() as int, self.after, self.before);
            let all = start + oldest_first(whole, self.after, self.before);
            let part = start + oldest_first(
                whole.skip(page.len() as int),
                self.after,
                self.before,
            );
            assert(all =~= part + oldest_first(rest, self.after, self.before));
            if page.len() == 0 {
                assert(whole.skip(0) =~= whole);
                assert(self.out@ =~= within(all, self.limit));
            } else {
                let limit = self.limit->0;
                assert(self.out.len() == limit);
                if all.len() > limit {
                    assert(all.take(limit as int) =~= part);
                } else {
                    assert(all =~= part);
                }
                assert(self.out@ =~= within(all, self.limit));
            }
        }
    }

    fn add_backward(&mut self, page: Vec<ExportedMessage>)
        requires
            old(self).wf(),
        ensures
            final(self).out@ == within(old(self).out@ + page@, old(self).limit),
            final(self).limit == old(self).limit,
            final(self).after == old(self).after,
            final(self).before == old(self).before,
            final(self).cursor == old(self).cursor,
            final(self).done == old(self).done,
            final(self).wf(),
    {
        let ghost whole = page@;
        let ghost start = self.out@;
        let ghost before_call = *self;
        let mut page = page;
        let ghost mut k: int = 0;
        assert(whole.take(0) =~= Seq::<ExportedMessage>::empty());
        assert(start + whole.take(0) =~= start);
        assert(whole.skip(0) =~= whole);
        while page.len() > 0 && !self.is_full()
            invariant
                0 <= k <= whole.len(),
                page@ == whole.skip(k),
                self.out@ == start + whole.take(k),
                self.limit == before_call.limit,
                self.after == before_call.after,
                self.before == before_call.before,
                self.cursor == before_call.cursor,
                self.done == before_call.done,
                before_call.wf(),
                self.wf(),
            decreases page.len(),
        {
            let message = page.remove(0);
            assert(message == whole[k]);
            self.out.push(message);
            proof {
                assert(page@ =~= whole.skip(k + 1));
                assert(self.out@ =~= start + whole.take(k + 1));
                k = k + 1;
            }
        }
        proof {
            let all = start + whole;
            if k == whole.len() {
                assert(whole.take(k) =~= whole);
            } else {
                assert(page.len() > 0);
                assert(all.take(self.limit->0 as int) =~= start + whole.take(k));
            }
            assert(self.out@ =~= within(all, self.limit));
        }
    }

    /// The messages in the order in which they were written.
    pub fn finish(self) -> (r: Vec<ExportedMessage>)
        requires
            self.wf(),
        ensures
            self.after is Some ==> r@ == self.out@,
            self.after is None ==> r@ == self.out@.reverse(),
            self.limit matches Some(n) ==> r.len() <= n,
    {
        if self.after.is_some() {
            return self.out;
        }
        let ghost all = self.out@;
        let mut rest = self.out;
        let mut r: Vec<ExportedMessage> = Vec::new();
        assert(r@ =~= all.skip(all.len() as int).reverse());
        while rest.len() > 0
            invariant
                rest.len() <= all.len(),
                rest@ == all.take(rest.len() as int),
                r@ == all.skip(rest.len() as int).reverse(),
            decreases rest.len(),
        {
            let ghost n = rest.len() as int;
            assert(rest@.last() == all[n - 1]);
            if let Some(message) = rest.pop() {
                r.push(message);
                assert(rest@ =~= all.take(n - 1));
                assert(r@ =~= all.skip(n - 1).reverse());
            }
        }
        assert(all.skip(0) =~= all);
        r
    }
}

proof fn lemma_oldest_first_parts(
    page: Seq<ExportedMessage>,
    k: int,
    after: Option<u64>,
    before: Option<u64>,
)
    requires
        0 <= k <= page.len(),
    ensures
        oldest_first(page, after, before) == oldest_first(page.skip(k), after, before)
            + oldest_first(page.take(k), after, before),
    decreases k,
{
    let whole = oldest_first(page, after, before);
    if k == 0 {
        assert(page.skip(0) =~= page);
        assert(page.take(0) =~= Seq::<ExportedMessage>::empty());
        assert(whole =~= whole + Seq::<ExportedMessage>::empty());
    } else {
        let rest = page.skip(1);
        lemma_oldest_first_parts(rest, k - 1, after, before);
        assert(rest.skip(k - 1) =~= page.skip(k));
        assert(rest.take(k - 1) =~= page.take(k).skip(1));
        assert(page.take(k)[0] == page[0]);
        assert(whole =~= oldest_first(page.skip(k), after, before) + oldest_first(
            page.take(k),
            after,
            before,
        ));
    }
}

/// Whether the messages come in the order in which they were written. Identifiers
/// grow with time.
pub open spec fn ascending(all: Seq<ExportedMessage>) -> bool {
    forall|i: int, j: int| 0 <= i < j < all.len() ==> #[trigger] all[i].id < #[trigger] all[j].id
}

/// A page as the server gives it: the newest first, and all of it newer than the
/// cursor.
pub open spec fn page_after(page: Seq<ExportedMessage>, cursor: u64) -> bool {
    &&& forall|i: int, j: int| 0 <= i < j < page.len() ==> #[trigger] page[i].id
        > #[trigger] page[j].id
    &&& forall|i: int| 0 <= i < page.len() ==> #[trigger] page[i].id > cursor
}

proof fn lemma_oldest_first_ascends(
    page: Seq<ExportedMessage>,
    cursor: u64,
    after: Option<u64>,
    before: Option<u64>,
)
    requires
        page_after(page, cursor),
    ensures
        ascending(oldest_first(page, after, before)),
        forall|i: int|
            0 <= i < oldest_first(page, after, before).len() ==> {
                let id = #[trigger] oldest_first(page, after, before)[i].id;
                cursor < id <= page[0].id && between(id, after, before)
            },
    decreases page.len(),
{
    if page.len() > 0 {
        let rest = page.skip(1);
        assert(page_after(rest, cursor)) by {
            assert forall|i: int, j: int| 0 <= i < j < rest.len() implies #[trigger] rest[i].id
                > #[trigger] rest[j].id by {
                assert(page[i + 1].id > page[j + 1].id);
            }
            assert forall|i: int| 0 <= i < rest.len() implies #[trigger] rest[i].id > cursor by {
                assert(page[i + 1].id > cursor);
            }
        }
        lemma_oldest_first_ascends(rest, cursor, after, before);
        let older = oldest_first(rest, after, before);
        let all = oldest_first(page, after, before);
        assert(page[0].id > cursor);
        if rest.len() > 0 {
            assert(page[0].id > page[1].id);
            assert(rest[0].id == page[1].id);
        }
        assert forall|i: int| 0 <= i < older.len() implies #[trigger] older[i].id < page[0].id by {
            let id = older[i].id;
            assert(cursor < id <= rest[0].id);
        }
        assert forall|i: int, j: int| 0 <= i < j < all.len() implies #[trigger] all[i].id
            < #[trigger] all[j].id by {
            if j < older.len() {
                assert(older[i].id < older[j].id);
            } else {
                assert(all[i] == older[i]);
            }
        }
        assert forall|i: int| 0 <= i < all.len() implies ({
            let id = #[trigger] all[i].id;
            cursor < id <= page[0].id && between(id, after, before)
        }) by {
            if i < older.len() {
                let id = older[i].id;
                assert(all[i] == older[i]);
                assert(cursor < id <= rest[0].id && between(id, after, before));
            }
        }
    }
}

/// An export from a lower bound stays in the order in which the messages were
/// written, and between its bounds, page after page.
pub proof fn lemma_forward_export_is_chronological(
    out: Seq<ExportedMessage>,
    page: Seq<ExportedMessage>,
    cursor: u64,
    after: Option<u64>,
    before: Option<u64>,
    limit: Option<u64>,
)
    requires
        ascending(out),
        forall|i: int| 0 <= i < out.len() ==> #[trigger] out[i].id <= cursor,
        page.len() > 0,
        page_after(page, cursor),
    ensures
        ({
            let all = within(out + oldest_first(page, after, before), limit);
            &&& ascending(all)
            &&& forall|i: int| 0 <= i < all.len() ==> #[trigger] all[i].id <= page[0].id
            &&& forall|i: int|
                out.len() <= i < all.len() ==> between(#[trigger] all[i].id, after, before)
        }),
{
    lemma_oldest_first_ascends(page, cursor, after, before);
    let fresh = oldest_first(page, after, before);
    let whole = out + fresh;
    let all = within(whole, limit);
    assert(page[0].id > cursor);
    assert forall|i: int| 0 <= i < all.len() implies #[trigger] all[i].id <= page[0].id by {
        assert(all[i] == whole[i]);
        if i >= out.len() {
            let id = fresh[i - out.len()].id;
            assert(cursor < id <= page[0].id);
        }
    }
    assert forall|i: int| out.len() <= i < all.len() implies between(
        #[trigger] all[i].id,
        after,
        before,
    ) by {
        assert(all[i] == whole[i]);
        let id = fresh[i - out.len()].id;
        assert(between(id, after, before));
    }
    assert forall|i: int, j: int| 0 <= i < j < all.len() implies #[trigger] all[i].id
        < #[trigger] all[j].id by {
        assert(all[i] == whole[i] && all[j] == whole[j]);
        if j >= out.len() {
            let later = fresh[j - out.len()].id;
            assert(cursor < later);
            if i >= out.len() {
                assert(fresh[i - out.len()].id < fresh[j - out.len()].id);
            } else {
                assert(out[i].id <= cursor);
            }
        } else {
            assert(out[i].id < out[j].id);
        }
    }
}

// ---------------------------------------------------------------------------
// Trouble
// ---------------------------------------------------------------------------

/// The wait after a rate limit, the first time.
pub const FIRST_BACKOFF_SECS: u64 = 2;

/// The wait after the next rate limit: twice as long, up to a minute.
pub open spec fn longer(secs: int) -> int {
    if 2 * secs < 60 {
        2 * secs
    } else {
        60
    }
}

pub fn next_backoff(secs: u64) -> (r: u64)
    requires
        2 * secs <= u64::MAX,
    ensures
        r == longer(secs as int),
{
    if 2 * secs < 60 {
        2 * secs
    } else {
        60
    }
}

/// What is said about a request that Discord turned down.
pub open spec fn http_error_text(status: int, code: int, message: Seq<char>) -> Seq<char> {
    let s = text::decimal(status);
    let c = text::signed_decimal(code);
    let msg = text::trimmed(message);
    if status == 401 {
        "unauthorized (401): invalid or missing bot token. Check DISCORD_TOKEN."@
    } else if status == 403 || code == 50_001 || code == 50_013 {
        "missing permission (HTTP "@ + s + ", Discord "@ + c
            + "): the bot needs View Channel and Read Message History on this channel. "@ + msg
    } else if status == 404 || code == 10_003 {
        "unknown channel (HTTP "@ + s + ", Discord "@ + c
            + "): wrong ID, or the bot is not in that server. "@ + msg
    } else if status == 429 {
        "rate limited (429): "@ + msg + ". Wait and retry."@
    } else {
        "Discord HTTP "@ + s + " (code "@ + c + "): "@ + msg
    }
}

pub fn describe_http_error(status: u16, code: i64, message: &str) -> (r: String)
    ensures
        r@ == http_error_text(status as int, code as int, message@),
{
    let s = text::number(status as u64);
    let c = text::signed_number(code);
    let msg = text::trim(message);
    if status == 401 {
        text::copy("unauthorized (401): invalid or missing bot token. Check DISCORD_TOKEN.")
    } else if status == 403 || code == 50_001 || code == 50_013 {
        text::cat6(
            "missing permission (HTTP ",
            &s,
            ", Discord ",
            &c,
            "): the bot needs View Channel and Read Message History on this channel. ",
            &msg,
        )
    } else if status == 404 || code == 10_003 {
        text::cat6(
            "unknown channel (HTTP ",
            &s,
            ", Discord ",
            &c,
            "): wrong ID, or the bot is not in that server. ",
            &msg,
        )
    } else if status == 429 {
        text::cat3("rate limited (429): ", &msg, ". Wait and retry.")
    } else {
        text::cat6("Discord HTTP ", &s, " (code ", &c, "): ", &msg)
    }
}

/// A channel as far as the export cares.
pub enum ChannelKind {
    Private,
    /// A channel of a server; `direct` where it is a conversation all the same.
    Guild { direct: bool, name: String, id: u64, kind_name: String },
    Other,
}

/// The name of a channel that may be exported.
pub open spec fn channel_label(channel: ChannelKind) -> Result<Seq<char>, Seq<char>> {
    match channel {
        ChannelKind::Private => Err("refusing to export a DM channel"@),
        ChannelKind::Guild { direct, name, id, kind_name } => if direct {
            Err("refusing to export a DM / group-DM channel"@)
        } else {
            Ok("#"@ + name@ + " ("@ + text::decimal(id as int) + ") ["@ + kind_name@ + "]"@)
        },
        ChannelKind::Other => Err("unknown channel type — not exporting"@),
    }
}

pub fn describe_channel(channel: &ChannelKind) -> (r: Result<String, &'static str>)
    ensures
        (match r {
            Ok(s) => Ok(s@),
            Err(e) => Err(e@),
        }) == channel_label(*channel),
{
    match channel {
        ChannelKind::Private => Err("refusing to export a DM channel"),
        ChannelKind::Guild { direct, name, id, kind_name } => if *direct {
            Err("refusing to export a DM / group-DM channel")
        } else {
            let mut s = text::cat6("#", name, " (", &text::number(*id), ") [", kind_name);
            s.append("]");
            Ok(s)
        },
        ChannelKind::Other => Err("unknown channel type — not exporting"),
    }
}

// ---------------------------------------------------------------------------
// Writing
// ---------------------------------------------------------------------------

pub open spec fn attachment_lines(all: Seq<ExportedAttachment>) -> Seq<char>
    decreases all.len(),
{
    if all.len() == 0 {
        Seq::empty()
    } else {
        attachment_lines(all.drop_last()) + ("  attachment: "@ + all.last().url@ + " ("@
            + all.last().filename@ + ")\n"@)
    }
}

/// A message as text: a line for it, and one for each attachment.
pub open spec fn message_lines(m: ExportedMessage) -> Seq<char> {
    "["@ + m.timestamp@ + "] "@ + m.author.name@ + ": "@ + m.content@ + "\n"@
        + attachment_lines(m.attachments@)
}

/// The messages as text.
pub open spec fn export_text(all: Seq<ExportedMessage>) -> Seq<char>
    decreases all.len(),
{
    if all.len() == 0 {
        Seq::empty()
    } else {
        export_text(all.drop_last()) + message_lines(all.last())
    }
}

fn attachments_text(all: &Vec<ExportedAttachment>) -> (s: String)
    ensures
        s@ == attachment_lines(all@),
{
    let mut s = String::new();
    for i in 0..all.len()
        invariant
            s@ == attachment_lines(all@.take(i as int)),
    {
        assert(all@.take(i + 1).drop_last() =~= all@.take(i as int));
        let line = text::cat5("  attachment: ", &all[i].url, " (", &all[i].filename, ")\n");
        s.append(&line);
    }
    assert(all@.take(all.len() as int) =~= all@);
    s
}

/// Writes messages as text.
pub fn write_messages(all: &Vec<ExportedMessage>) -> (s: String)
    ensures
        s@ == export_text(all@),
{
    let mut s = String::new();
    for i in 0..all.len()
        invariant
            s@ == export_text(all@.take(i as int)),
    {
        assert(all@.take(i + 1).drop_last() =~= all@.take(i as int));
        let m = &all[i];
        let mut line = text::cat6("[", &m.timestamp, "] ", &m.author.name, ": ", &m.content);
        line.append("\n");
        line.append(&attachments_text(&m.attachments));
        s.append(&line);
    }
    assert(all@.take(all.len() as int) =~= all@);
    s
}

// ---------------------------------------------------------------------------
// What each argument does
// ---------------------------------------------------------------------------

/// Each flag sets what it is named after, and nothing else.
pub proof fn lemma_flags_set_their_own(d: DraftText, v: Seq<char>, n: u64)
    requires
        text::parsed_u64(text::trimmed(v)) == Some(n as int),
        n > 0,
    ensures
        flag_of("--channel"@) == Some(Flag::Channel) && flag_of("-c"@) == Some(Flag::Channel),
        flag_of("--token"@) == Some(Flag::Token),
        flag_of("--out"@) == Some(Flag::Out) && flag_of("-o"@) == Some(Flag::Out),
        flag_of("--limit"@) == Some(Flag::Limit),
        flag_of("--after"@) == Some(Flag::After),
        flag_of("--before"@) == Some(Flag::Before),
        flag_of("--format"@) == Some(Flag::Format),
        with_flag(d, Flag::Channel, v) == Ok::<DraftText, ArgErrorText>(DraftText {
            channel: Some(v),
            ..d
        }),
        with_flag(d, Flag::Token, v) == Ok::<DraftText, ArgErrorText>(DraftText { token: Some(v), ..d }),
        with_flag(d, Flag::Out, v) == Ok::<DraftText, ArgErrorText>(DraftText { out: Some(v), ..d }),
        with_flag(d, Flag::Limit, v) == Ok::<DraftText, ArgErrorText>(DraftText { limit: Some(n), ..d }),
        with_flag(d, Flag::After, v) == Ok::<DraftText, ArgErrorText>(DraftText { after: Some(n), ..d }),
        with_flag(d, Flag::Before, v) == Ok::<DraftText, ArgErrorText>(DraftText {
            before: Some(n),
            ..d
        }),
        with_flag(d, Flag::Format, "text"@) == Ok::<DraftText, ArgErrorText>(DraftText {
            format: Format::Text,
            ..d
        }),
        with_flag(d, Flag::Format, "jsonl"@) == Ok::<DraftText, ArgErrorText>(DraftText {
            format: Format::Jsonl,
            ..d
        }),
{
    reveal_strlit("--channel");
    reveal_strlit("-c");
    reveal_strlit("--token");
    reveal_strlit("--out");
    reveal_strlit("-o");
    reveal_strlit("--limit");
    reveal_strlit("--after");
    reveal_strlit("--before");
    reveal_strlit("--format");
    reveal_strlit("text");
    reveal_strlit("json");
    reveal_strlit("jsonl");
    assert("--channel"@.len() == 9 && "--token"@.len() == 7 && "--out"@.len() == 5 && "--limit"@.len() == 7
        && "--after"@.len() == 7 && "--before"@.len() == 8 && "--format"@.len() == 8 && "-c"@.len() == 2
        && "-o"@.len() == 2);
    assert("--token"@[2] == 't' && "--limit"@[2] == 'l' && "--after"@[2] == 'a');
    assert("--before"@[2] == 'b' && "--format"@[2] == 'f' && "-c"@[1] == 'c' && "-o"@[1] == 'o');
    assert("text"@[0] == 't' && "json"@[0] == 'j' && "jsonl"@.len() == 5);
}

/// What was asked for is what is exported: the channel, at most so many messages, from
/// behind one and before another; a token of its own goes before that of the
/// surroundings, and without a file there is one named after the channel.
pub proof fn lemma_arguments_are_kept(d: DraftText, env_token: Option<Seq<char>>)
    ensures
        finished(d, env_token) matches Ok(a) ==> {
            &&& a.limit == d.limit && a.after == d.after && a.before == d.before
            &&& a.format == d.format
            &&& d.token is Some ==> a.token == d.token->0
            &&& d.token is None ==> Some(a.token) == env_token
            &&& d.out is None ==> a.out == Some(
                "channel-"@ + text::decimal(a.channel_id as int) + ".jsonl"@,
            )
            &&& d.out == Some("-"@) ==> a.out is None
            &&& d.out is Some && d.out->0 != "-"@ ==> a.out == d.out
            &&& d.channel is Some && text::parsed_u64(text::trimmed(d.channel->0)) == Some(
                a.channel_id as int,
            )
        },
        d.channel is None ==> finished(d, env_token) == Err::<ArgsText, ArgErrorText>(
            ArgErrorText::NoChannel,
        ),
        first_draft(None).channel is None && first_draft(None).limit is None,
        first_draft(None).format == Format::Jsonl,
{
    if let Some(c) = d.channel {
        text::lemma_parsed_nonnegative(text::trimmed(c));
    }
}

/// A message counts that comes behind the one bound and before the other, and the messages
/// of a page, which come newest first, are turned round.
pub proof fn lemma_pages_are_turned_round(
    page: Seq<ExportedMessage>,
    newest: ExportedMessage,
    after: Option<u64>,
    before: Option<u64>,
)
    ensures
        ({
            let inside = (after is Some ==> newest.id > after->0) && (before is Some ==> newest.id
                < before->0);
            &&& inside ==> oldest_first(seq![newest] + page, after, before) == oldest_first(
                page,
                after,
                before,
            ).push(newest)
            &&& !inside ==> oldest_first(seq![newest] + page, after, before) == oldest_first(
                page,
                after,
                before,
            )
        }),
        oldest_first(Seq::empty(), after, before).len() == 0,
{
    assert((seq![newest] + page).skip(1) =~= page);
}

/// No more messages are kept than were asked for, and those are the first.
pub proof fn lemma_limits_hold(all: Seq<ExportedMessage>, n: u64)
    ensures
        within(all, None) == all,
        all.len() <= n ==> within(all, Some(n)) == all,
        all.len() > n ==> within(all, Some(n)).len() == n && all.take(n as int) == within(all, Some(n)),
{
}

/// A page asks for as many messages as are still wanted, and for no more than a page has.
pub proof fn lemma_pages_ask_for_the_rest(f: Fetch)
    requires
        f.wf(),
    ensures
        f.limit is None ==> f.next_take() == 100,
        f.limit matches Some(n) ==> f.next_take() == (if n - f.out.len() < 100 {
            n - f.out.len()
        } else {
            100
        }),
        f.done ==> !f.goes_on(),
        f.limit matches Some(n) ==> (f.out.len() >= n ==> !f.goes_on()),
        !f.done && f.limit is None ==> f.goes_on(),
{
}

/// A wait doubles, up to a minute.
pub proof fn lemma_waits_double(secs: int)
    ensures
        0 <= secs < 30 ==> longer(secs) == 2 * secs,
        secs >= 30 ==> longer(secs) == 60,
{
}

/// What Discord refuses is told by why: the token, the permission, the channel, the rate.
pub proof fn lemma_refusals_are_told(code: int, message: Seq<char>)
    requires
        code != 50_001,
        code != 50_013,
        code != 10_003,
    ensures
        text::begins(http_error_text(401, code, message), "unauthorized (401)"@),
        text::begins(http_error_text(403, code, message), "missing permission (HTTP "@),
        text::begins(http_error_text(404, code, message), "unknown channel (HTTP "@),
        text::begins(http_error_text(429, code, message), "rate limited (429): "@),
        text::begins(http_error_text(500, code, message), "Discord HTTP "@),
        text::begins(http_error_text(400, 50_001, message), "missing permission (HTTP "@),
        text::begins(http_error_text(400, 10_003, message), "unknown channel (HTTP "@),
{
    reveal_strlit("unauthorized (401)");
    reveal_strlit("unauthorized (401): invalid or missing bot token. Check DISCORD_TOKEN.");
    let a = "unauthorized (401)"@;
    assert(http_error_text(401, code, message).take(a.len() as int) =~= a);
    let b = "missing permission (HTTP "@;
    assert(http_error_text(403, code, message).take(b.len() as int) =~= b);
    assert(http_error_text(400, 50_001, message).take(b.len() as int) =~= b);
    let c = "unknown channel (HTTP "@;
    assert(http_error_text(404, code, message).take(c.len() as int) =~= c);
    assert(http_error_text(400, 10_003, message).take(c.len() as int) =~= c);
    let d = "rate limited (429): "@;
    assert(http_error_text(429, code, message).take(d.len() as int) =~= d);
    let e = "Discord HTTP "@;
    assert(http_error_text(500, code, message).take(e.len() as int) =~= e);
}

/// Only channels of a server are exported.
pub proof fn lemma_what_is_exported(name: String, id: u64, kind_name: String)
    ensures
        channel_label(ChannelKind::Private) is Err,
        channel_label(ChannelKind::Other) is Err,
        channel_label(ChannelKind::Guild { direct: true, name, id, kind_name }) is Err,
        channel_label(ChannelKind::Guild { direct: false, name, id, kind_name }) == Ok::<
            Seq<char>,
            Seq<char>,
        >("#"@ + name@ + " ("@ + text::decimal(id as int) + ") ["@ + kind_name@ + "]"@),
{
}

/// The messages are written in order, each with its time, its author and its words, and
/// its attachments below it.
pub proof fn lemma_messages_are_written(all: Seq<ExportedMessage>, m: ExportedMessage)
    ensures
        export_text(all.push(m)) == export_text(all) + message_lines(m),
        text::begins(
            message_lines(m),
            "["@ + m.timestamp@ + "] "@ + m.author.name@ + ": "@ + m.content@ + "\n"@,
        ),
        m.attachments@.len() == 0 ==> message_lines(m) == "["@ + m.timestamp@ + "] "@ + m.author.name@
            + ": "@ + m.content@ + "\n"@,
{
    assert(all.push(m).drop_last() =~= all);
    let a = "["@ + m.timestamp@ + "] "@ + m.author.name@ + ": "@ + m.content@ + "\n"@;
    assert(message_lines(m).take(a.len() as int) =~= a);
    if m.attachments@.len() == 0 {
        assert(message_lines(m) =~= a);
    }
}

// ---------------------------------------------------------------------------
// How an export goes on
// ---------------------------------------------------------------------------

/// The page that is asked for next.
pub open spec fn page_request(f: Fetch) -> PageRequest {
    PageRequest {
        take: f.next_take() as u64,
        after: if f.after is Some {
            f.cursor
        } else {
            None
        },
        before: if f.after is Some {
            None
        } else {
            f.cursor
        },
    }
}

/// Whether a page goes beyond the upper bound.
pub open spec fn beyond(f: Fetch, page: Seq<ExportedMessage>) -> bool {
    page.len() > 0 && (f.before matches Some(b) && page[0].id >= b)
}

/// The messages that are there after a page.
pub open spec fn taken(f: Fetch, page: Seq<ExportedMessage>) -> Seq<ExportedMessage> {
    if f.after is Some {
        within(f.out@ + oldest_first(page, f.after, f.before), f.limit)
    } else {
        within(f.out@ + page, f.limit)
    }
}

/// Where the export stands after a page.
pub open spec fn cursor_after(f: Fetch, page: Seq<ExportedMessage>) -> Option<u64> {
    if page.len() == 0 || f.after is Some && beyond(f, page) {
        f.cursor
    } else if f.after is Some {
        Some(page[0].id)
    } else {
        Some(page.last().id)
    }
}

/// Whether a page is the last.
pub open spec fn ends_with(f: Fetch, page: Seq<ExportedMessage>) -> bool {
    page.len() < f.next_take() || f.after is Some && beyond(f, page)
}

/// With a lower bound an export goes forward, from behind the newest message it has; without
/// one it goes back, from before the oldest.
pub proof fn lemma_exports_go_on(f: Fetch, page: Seq<ExportedMessage>)
    requires
        page.len() > 0,
    ensures
        f.after is Some ==> page_request(f).after == f.cursor && page_request(f).before is None,
        f.after is None ==> page_request(f).before == f.cursor && page_request(f).after is None,
        f.after is Some && f.before is None ==> cursor_after(f, page) == Some(page[0].id),
        f.after is None ==> cursor_after(f, page) == Some(page.last().id),
        f.after is Some && f.before is Some && page[0].id >= f.before->0 ==> ends_with(f, page)
            && cursor_after(f, page) == f.cursor,
        page.len() < f.next_take() ==> ends_with(f, page),
        f.after is None && page.len() >= f.next_take() ==> !ends_with(f, page),
        f.after is None && f.limit is None ==> taken(f, page) == f.out@ + page,
        f.after is Some && f.limit is None ==> taken(f, page) == f.out@ + oldest_first(
            page,
            f.after,
            f.before,
        ),
{
}

} // verus!
