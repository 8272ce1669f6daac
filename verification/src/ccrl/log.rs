//! Where the CCRL notifier's log goes: standard output and error, and, when a log
//! webhook is configured, a Discord channel. Each logging call returns the outputs
//! to make, in order; the program around the library performs them.
use vstd::prelude::*;
use crate::ccrl::config::Config;
use crate::discord::{WebhookRequest, is_webhook_post, send_message};
use crate::text::string_views;

verus! {

/// The name the CCRL notifier's log posts are made under.
pub const LOG_USERNAME: &'static str = "ccrl";

/// The rule posted to the log channel when the notifier starts.
pub const START_FENCE: &'static str = "```───────────────────────────────────────────────────────────────────────────────────────────────────────────```";

/// What an error post begins with: a ping of the maintainer and a red mark.
pub const ERROR_MARK: &'static str = "<@!106120945231466496> :red_circle:";

/// What a warning printed by the Discord logger begins with.
pub const WARNING_MARK: &'static str = ":yellow_circle: ";

/// One output of a logging call.
pub enum LogOutput {
    /// A line for standard output.
    Stdout(String),
    /// A line for standard error.
    Stderr(String),
    /// A post to the log channel; failures to post are ignored.
    Post(WebhookRequest),
}

/// An output as the contracts speak of it.
pub enum LogEffect {
    Print(Seq<char>),
    PrintErr(Seq<char>),
    /// Webhook URL, user name and content.
    Post(Seq<char>, Seq<char>, Seq<char>),
}

/// Whether the output `o` is the effect `e`.
pub open spec fn output_is(o: LogOutput, e: LogEffect) -> bool {
    match e {
        LogEffect::Print(t) => o matches LogOutput::Stdout(s) && s@ == t,
        LogEffect::PrintErr(t) => o matches LogOutput::Stderr(s) && s@ == t,
        LogEffect::Post(url, name, content) => o matches LogOutput::Post(req) && is_webhook_post(
            req,
            url,
            name,
            content,
        ),
    }
}

/// Whether the outputs are the effects, one for one and in order.
pub open spec fn outputs_are(os: Seq<LogOutput>, es: Seq<LogEffect>) -> bool {
    os.len() == es.len() && forall|i: int| 0 <= i < os.len() ==> output_is(#[trigger] os[i], es[i])
}

/// The kinds of logging call.
pub enum LogLevel {
    Start,
    Info,
    Warning,
    Error,
}

/// What the console logger does: information to standard output, warnings and errors
/// to standard error, nothing at start.
pub open spec fn console_log(level: LogLevel, msg: Seq<char>) -> Seq<LogEffect> {
    match level {
        LogLevel::Start => Seq::empty(),
        LogLevel::Info => seq![LogEffect::Print(msg)],
        LogLevel::Warning => seq![LogEffect::PrintErr(msg)],
        LogLevel::Error => seq![LogEffect::PrintErr(msg)],
    }
}

/// A post of `text`, as it is, to the log channel at `hook` under the name `username`.
pub open spec fn log_post(hook: Seq<char>, username: Seq<char>, text: Seq<char>) -> LogEffect {
    LogEffect::Post(hook, username, text)
}

/// What the Discord logger does: a rule at start; every message printed (a warning
/// with a yellow mark, an error to standard error) and posted (an error with the
/// maintainer pinged).
pub open spec fn discord_log(hook: Seq<char>, username: Seq<char>, level: LogLevel, msg: Seq<char>) -> Seq<
    LogEffect,
> {
    match level {
        LogLevel::Start => seq![log_post(hook, username, START_FENCE@)],
        LogLevel::Info => seq![LogEffect::Print(msg), log_post(hook, username, msg)],
        LogLevel::Warning => seq![
            LogEffect::Print(WARNING_MARK@ + msg),
            log_post(hook, username, msg),
        ],
        LogLevel::Error => seq![LogEffect::PrintErr(msg), log_post(hook, username, ERROR_MARK@ + msg)],
    }
}

/// A log: what to output when the notifier starts, and for a message of each level.
pub trait Logger {
    fn start(&self) -> Vec<LogOutput>;

    fn info(&self, msg: &str) -> Vec<LogOutput>;

    fn warning(&self, msg: &str) -> Vec<LogOutput>;

    fn error(&self, msg: &str) -> Vec<LogOutput>;
}

/// The log on the console alone.
pub struct StdoutLogger;

impl Logger for StdoutLogger {
    fn start(&self) -> (r: Vec<LogOutput>)
        ensures
            outputs_are(r@, console_log(LogLevel::Start, Seq::empty())),
    {
        Vec::new()
    }

    fn info(&self, msg: &str) -> (r: Vec<LogOutput>)
        ensures
            outputs_are(r@, console_log(LogLevel::Info, msg@)),
    {
        let mut r: Vec<LogOutput> = Vec::new();
        r.push(LogOutput::Stdout(msg.to_owned()));
        r
    }

    fn warning(&self, msg: &str) -> (r: Vec<LogOutput>)
        ensures
            outputs_are(r@, console_log(LogLevel::Warning, msg@)),
    {
        let mut r: Vec<LogOutput> = Vec::new();
        r.push(LogOutput::Stderr(msg.to_owned()));
        r
    }

    fn error(&self, msg: &str) -> (r: Vec<LogOutput>)
        ensures
            outputs_are(r@, console_log(LogLevel::Error, msg@)),
    {
        let mut r: Vec<LogOutput> = Vec::new();
        r.push(LogOutput::Stderr(msg.to_owned()));
        r
    }
}

/// The log on the console and in a Discord channel.
pub struct DiscordLogger {
    log_webhook: String,
    username: String,
}

impl View for DiscordLogger {
    type V = (Seq<char>, Seq<char>);

    /// The log webhook's URL, and the name posts are made under.
    closed spec fn view(&self) -> (Seq<char>, Seq<char>) {
        (self.log_webhook@, self.username@)
    }
}

impl Clone for DiscordLogger {
    fn clone(&self) -> (r: Self)
        ensures
            r@ == self@,
    {
        DiscordLogger { log_webhook: self.log_webhook.clone(), username: self.username.clone() }
    }
}

impl DiscordLogger {
    /// The CCRL notifier's Discord log.
    pub fn new(log_webhook: String) -> (r: DiscordLogger)
        ensures
            r@ == (log_webhook@, LOG_USERNAME@),
    {
        DiscordLogger { log_webhook, username: LOG_USERNAME.to_owned() }
    }

    /// A Discord log whose posts are made under the name `username`.
    pub fn with_username(log_webhook: String, username: &str) -> (r: DiscordLogger)
        ensures
            r@ == (log_webhook@, username@),
    {
        DiscordLogger { log_webhook, username: username.to_owned() }
    }

    fn post(&self, text: &str) -> (r: LogOutput)
        ensures
            output_is(r, log_post(self@.0, self@.1, text@)),
    {
        LogOutput::Post(send_message(self.log_webhook.as_str(), self.username.as_str(), text))
    }
}

impl Logger for DiscordLogger {
    fn start(&self) -> (r: Vec<LogOutput>)
        ensures
            outputs_are(r@, discord_log(self@.0, self@.1, LogLevel::Start, Seq::empty())),
    {
        let mut r: Vec<LogOutput> = Vec::new();
        r.push(self.post(START_FENCE));
        r
    }

    fn info(&self, msg: &str) -> (r: Vec<LogOutput>)
        ensures
            outputs_are(r@, discord_log(self@.0, self@.1, LogLevel::Info, msg@)),
    {
        let mut r: Vec<LogOutput> = Vec::new();
        r.push(LogOutput::Stdout(msg.to_owned()));
        r.push(self.post(msg));
        r
    }

    fn warning(&self, msg: &str) -> (r: Vec<LogOutput>)
        ensures
            outputs_are(r@, discord_log(self@.0, self@.1, LogLevel::Warning, msg@)),
    {
        let mut line = WARNING_MARK.to_owned();
        line.append(msg);
        let mut r: Vec<LogOutput> = Vec::new();
        r.push(LogOutput::Stdout(line));
        r.push(self.post(msg));
        r
    }

    fn error(&self, msg: &str) -> (r: Vec<LogOutput>)
        ensures
            outputs_are(r@, discord_log(self@.0, self@.1, LogLevel::Error, msg@)),
    {
        let mut text = ERROR_MARK.to_owned();
        text.append(msg);
        let mut r: Vec<LogOutput> = Vec::new();
        r.push(LogOutput::Stderr(msg.to_owned()));
        r.push(self.post(text.as_str()));
        r
    }
}

/// The log a configuration asks for.
pub enum ConfiguredLogger {
    Console(StdoutLogger),
    Discord(DiscordLogger),
}

impl ConfiguredLogger {
    /// What this log does for a call of the given level.
    pub open spec fn effects(self, level: LogLevel, msg: Seq<char>) -> Seq<LogEffect> {
        match self {
            ConfiguredLogger::Console(_) => console_log(level, msg),
            ConfiguredLogger::Discord(d) => discord_log(d@.0, d@.1, level, msg),
        }
    }
}

impl Logger for ConfiguredLogger {
    fn start(&self) -> (r: Vec<LogOutput>)
        ensures
            outputs_are(r@, self.effects(LogLevel::Start, Seq::empty())),
    {
        match self {
            ConfiguredLogger::Console(l) => l.start(),
            ConfiguredLogger::Discord(l) => l.start(),
        }
    }

    fn info(&self, msg: &str) -> (r: Vec<LogOutput>)
        ensures
            outputs_are(r@, self.effects(LogLevel::Info, msg@)),
    {
        match self {
            ConfiguredLogger::Console(l) => l.info(msg),
            ConfiguredLogger::Discord(l) => l.info(msg),
        }
    }

    fn warning(&self, msg: &str) -> (r: Vec<LogOutput>)
        ensures
            outputs_are(r@, self.effects(LogLevel::Warning, msg@)),
    {
        match self {
            ConfiguredLogger::Console(l) => l.warning(msg),
            ConfiguredLogger::Discord(l) => l.warning(msg),
        }
    }

    fn error(&self, msg: &str) -> (r: Vec<LogOutput>)
        ensures
            outputs_are(r@, self.effects(LogLevel::Error, msg@)),
    {
        match self {
            ConfiguredLogger::Console(l) => l.error(msg),
            ConfiguredLogger::Discord(l) => l.error(msg),
        }
    }
}

/// What logging each of the lines as information does, line after line.
pub open spec fn info_effects(log: ConfiguredLogger, lines: Seq<Seq<char>>) -> Seq<LogEffect>
    decreases lines.len(),
{
    if lines.len() == 0 {
        Seq::empty()
    } else {
        info_effects(log, lines.drop_last()) + log.effects(LogLevel::Info, lines.last())
    }
}

/// Outputs made one after the other make the effects one after the other.
pub proof fn lemma_outputs_concat(a: Seq<LogOutput>, x: Seq<LogEffect>, b: Seq<LogOutput>, y: Seq<LogEffect>)
    requires
        outputs_are(a, x),
        outputs_are(b, y),
    ensures
        outputs_are(a + b, x + y),
{
    assert forall|i: int| 0 <= i < (a + b).len() implies output_is(#[trigger] (a + b)[i], (x + y)[i]) by {
        if i >= a.len() {
            assert(output_is(b[i - a.len()], y[i - a.len()]));
        } else {
            assert(output_is(a[i], x[i]));
        }
    }
}

/// Logs each line as information, in order.
pub fn log_infos(log: &ConfiguredLogger, lines: &Vec<String>) -> (r: Vec<LogOutput>)
    ensures
        outputs_are(r@, info_effects(*log, string_views(lines@))),
{
    let ghost ls = string_views(lines@);
    let mut r: Vec<LogOutput> = Vec::new();
    let mut i: usize = 0;
    while i < lines.len()
        invariant
            i <= lines.len(),
            ls == string_views(lines@),
            outputs_are(r@, info_effects(*log, ls.take(i as int))),
        decreases lines.len() - i,
    {
        let mut more = log.info(lines[i].as_str());
        proof {
            lemma_outputs_concat(r@, info_effects(*log, ls.take(i as int)), more@, log.effects(LogLevel::Info, ls[i as int]));
            assert(ls.take(i + 1).drop_last() =~= ls.take(i as int));
        }
        r.append(&mut more);
        i = i + 1;
    }
    assert(ls.take(i as int) =~= ls);
    r
}

/// The Discord log when the configuration names a log webhook, else the console log.
pub fn get_logger(config: &Config) -> (r: ConfiguredLogger)
    ensures
        match config.log_webhook {
            None => r is Console,
            Some(hook) => r matches ConfiguredLogger::Discord(d) && d@ == (hook@, LOG_USERNAME@),
        },
{
    match &config.log_webhook {
        None => ConfiguredLogger::Console(StdoutLogger),
        Some(hook) => ConfiguredLogger::Discord(DiscordLogger::new(hook.clone())),
    }
}

} // verus!
