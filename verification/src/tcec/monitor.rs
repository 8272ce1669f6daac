//! The decisions of the TCEC notifier's polling loop. Each round the program around
//! the library fetches the configuration and the game on the TCEC board, looks the
//! game up in its database, performs the log outputs and posts that these functions
//! return, and records the game; these functions decide what is logged, who is
//! pinged, and what changes in the notifier's state.
use vstd::prelude::*;
use crate::ccrl::ccrllive::{DATE_VERSION_PATTERN, EngineName, VERSION_PATTERN, name_patterns_compile};
use crate::ccrl::log::{
    ConfiguredLogger, DiscordLogger, LogLevel, LogOutput, Logger, StdoutLogger, info_effects,
    log_infos, outputs_are,
};
use crate::ccrl::monitor::engine_playing;
use crate::discord::{WebhookRequest, game_notice, is_webhook_post};
use crate::pattern::regex_is_valid;
use crate::pgn::{count_moves, first_tag, scan, tag_value};
use crate::summary::{diff_text, entries_map, entry_keys, lemma_entries_map};
use crate::tcec::config::{
    Config, NotifyConfig, engine_followers, followers_of, listed, set_entries, set_group_view,
    set_group_wf, tcec_summary,
};
use crate::tcec::notify::{
    CTV_TCEC_URL, NOTIFIER_NAME, NotifyContent, TCEC_URL, notify_alphabeta, notify_tcec,
};
use crate::text::{
    contains_string, lines, copy_strings, decimal, decimal_chars, push_chars, push_str, string_from_chars,
    string_views,
};

verus! {

/// The name the TCEC notifier's log posts are made under.
pub const TCEC_LOG_USERNAME: &'static str = "tcec";

/// The TCEC notifier's log: on Discord when the configuration names a log webhook,
/// else on the console.
pub fn get_logger(config: &Config) -> (r: ConfiguredLogger)
    ensures
        match config.log_webhook {
            None => r is Console,
            Some(hook) => r matches ConfiguredLogger::Discord(d) && d@ == (hook@, TCEC_LOG_USERNAME@),
        },
{
    match &config.log_webhook {
        None => ConfiguredLogger::Console(StdoutLogger),
        Some(hook) => ConfiguredLogger::Discord(DiscordLogger::with_username(hook.clone(), TCEC_LOG_USERNAME)),
    }
}

/// The game on the TCEC board, as read from its PGN.
pub struct TcecGame {
    pub white_player: EngineName,
    pub black_player: EngineName,
    /// The event, from the PGN's "Event" tag.
    pub event: String,
    /// How many half-moves have been played.
    pub plies: u64,
}

impl TcecGame {
    /// Whether one of the players is the engine called `engine`.
    pub fn has_player(&self, engine: &str) -> (r: bool)
        requires
            name_patterns_compile(),
        ensures
            r == engine_playing(engine@, self.white_player@, self.black_player@),
    {
        let name = EngineName::new(engine);
        self.white_player.same_engine(&name) || self.black_player.same_engine(&name)
    }
}

/// Reads the game on the board from its PGN: the players from the "White" and "Black"
/// tags, the event from "Event", and the move count. `None` when one of the three tags
/// is missing.
pub fn read_tcec_game(pgn: &str) -> (r: Option<TcecGame>)
    ensures
        r is Some <==> (first_tag(lines(pgn@), "White"@) is Some && first_tag(lines(pgn@), "Black"@) is Some
            && first_tag(lines(pgn@), "Event"@) is Some),
        r matches Some(g) ==> {
            &&& first_tag(lines(pgn@), "White"@) == Some(g.white_player@)
            &&& first_tag(lines(pgn@), "Black"@) == Some(g.black_player@)
            &&& first_tag(lines(pgn@), "Event"@) == Some(g.event@)
            &&& g.plies == scan(pgn@).moves
        },
{
    let white = tag_value(pgn, "White");
    let black = tag_value(pgn, "Black");
    let event = tag_value(pgn, "Event");
    match (white, black, event) {
        (Some(w), Some(b), Some(e)) => {
            let counts = count_moves(pgn);
            Some(TcecGame {
                white_player: EngineName::new(w.as_str()),
                black_player: EngineName::new(b.as_str()),
                event: e,
                plies: counts.plies,
            })
        },
        _ => None,
    }
}

/// The users to ping in one channel: the followers of every engine of the group that
/// plays in the game.
pub open spec fn group_mentions(m: Map<Seq<char>, Set<Seq<char>>>, white: Seq<char>, black: Seq<char>) -> Set<
    Seq<char>,
> {
    Set::new(
        |id: Seq<char>|
            exists|e: Seq<char>|
                m.dom().contains(e) && engine_playing(e, white, black) && #[trigger] m[e].contains(id),
    )
}

/// The log line for an engine of the game whose followers in `channel` are pinged.
pub open spec fn will_notify_line(n: nat, engine: Seq<char>, channel: Seq<char>) -> Seq<char> {
    "Will notify "@ + decimal(n) + " users for engine `"@ + engine + "` in "@ + channel
}

/// One line for each engine of the group, in the order kept, that plays in the game.
pub open spec fn group_lines(
    entries: Seq<(Seq<char>, Seq<Seq<char>>)>,
    white: Seq<char>,
    black: Seq<char>,
    channel: Seq<char>,
) -> Seq<Seq<char>>
    decreases entries.len(),
{
    if entries.len() == 0 {
        Seq::empty()
    } else {
        let rest = group_lines(entries.drop_last(), white, black, channel);
        let e = entries.last();
        if engine_playing(e.0, white, black) {
            rest.push(will_notify_line(e.1.len(), e.0, channel))
        } else {
            rest
        }
    }
}

/// The log line for a game first seen: "`white` vs `black`".
pub open spec fn pairing_line(white: Seq<char>, black: Seq<char>) -> Seq<char> {
    "`"@ + white + "` vs `"@ + black + "`"@
}

/// The log line for the game in progress when the notifier starts.
pub open spec fn in_progress_line(white: Seq<char>, black: Seq<char>, plies: nat) -> Seq<char> {
    "In progress: `"@ + white + "` vs `"@ + black + "` ("@ + decimal(plies) + " plies)"@
}

/// The log line announcing a changed configuration, with the changes as a diff.
pub open spec fn config_update_line(
    old: (Map<Seq<char>, Set<Seq<char>>>, Map<Seq<char>, Set<Seq<char>>>),
    new: (Map<Seq<char>, Set<Seq<char>>>, Map<Seq<char>, Set<Seq<char>>>),
) -> Seq<char> {
    "<@!106120945231466496> Config update loaded:\n```diff\n"@ + diff_text(tcec_summary(old), tcec_summary(new))
        + "\n```"@
}

/// The log line with the configuration the notifier starts with.
pub open spec fn loaded_line(v: (Map<Seq<char>, Set<Seq<char>>>, Map<Seq<char>, Set<Seq<char>>>)) -> Seq<
    char,
> {
    "Loaded config:\n"@ + tcec_summary(v)
}

/// What can go wrong in a round, and is logged.
pub enum Failure {
    /// The configuration could not be fetched (a warning).
    ConfigFetch,
    /// The game on the board could not be fetched (a warning).
    GameFetch,
    /// A notification could not be posted (an error).
    Notify,
    /// The game could not be recorded as seen (an error).
    Record,
}

/// The level and text of the log message for a failure.
pub open spec fn failure_message(kind: Failure, error: Seq<char>) -> (LogLevel, Seq<char>) {
    match kind {
        Failure::ConfigFetch => (LogLevel::Warning, "Unable to fetch new config: "@ + error),
        Failure::GameFetch => (LogLevel::Warning, "Unable to fetch in-progress game: "@ + error),
        Failure::Notify => (LogLevel::Error, "Unable to send notify: "@ + error),
        Failure::Record => (LogLevel::Error, "Unable to write seen game to db: "@ + error),
    }
}

/// Logs a failure, with the error's description.
pub fn report_failure(log: &ConfiguredLogger, kind: Failure, error: &str) -> (r: Vec<LogOutput>)
    ensures
        outputs_are(r@, log.effects(failure_message(kind, error@).0, failure_message(kind, error@).1)),
{
    let mut text = String::new();
    match kind {
        Failure::ConfigFetch => {
            text.append("Unable to fetch new config: ");
            text.append(error);
            log.warning(text.as_str())
        },
        Failure::GameFetch => {
            text.append("Unable to fetch in-progress game: ");
            text.append(error);
            log.warning(text.as_str())
        },
        Failure::Notify => {
            text.append("Unable to send notify: ");
            text.append(error);
            log.error(text.as_str())
        },
        Failure::Record => {
            text.append("Unable to write seen game to db: ");
            text.append(error);
            log.error(text.as_str())
        },
    }
}

/// The mentions from the entries before `i`: the followers of each such engine that
/// plays in the game.
pub open spec fn group_mentions_upto(
    entries: Seq<(Seq<char>, Seq<Seq<char>>)>,
    white: Seq<char>,
    black: Seq<char>,
    i: int,
) -> Set<Seq<char>> {
    Set::new(
        |id: Seq<char>|
            exists|t: int|
                0 <= t < i && t < entries.len() && engine_playing(entries[t].0, white, black)
                    && #[trigger] entries[t].1.contains(id),
    )
}

/// Adds the users of `users` that `ids` lacks, keeping `ids` free of repeats.
fn add_all(users: &Vec<String>, ids: &mut Vec<String>)
    requires
        string_views(old(ids)@).no_duplicates(),
    ensures
        string_views(final(ids)@).no_duplicates(),
        string_views(final(ids)@).to_set() == string_views(old(ids)@).to_set() + string_views(users@).to_set(),
{
    let mut j: usize = 0;
    while j < users.len()
        invariant
            j <= users.len(),
            string_views(ids@).no_duplicates(),
            string_views(ids@).to_set() == string_views(old(ids)@).to_set() + string_views(users@).take(j as int).to_set(),
        decreases users.len() - j,
    {
        let ghost before = string_views(ids@);
        let ghost taken = string_views(users@).take(j as int);
        proof {
            assert(string_views(users@).take(j + 1) =~= taken.push(users@[j as int]@));
            taken.lemma_push_to_set_commute(users@[j as int]@);
        }
        if !contains_string(ids, &users[j]) {
            ids.push(users[j].clone());
            proof {
                assert(string_views(ids@) =~= before.push(users@[j as int]@));
                before.lemma_push_to_set_commute(users@[j as int]@);
                assert forall|a: int, b: int| 0 <= a < b < string_views(ids@).len() implies string_views(ids@)[a] != string_views(ids@)[b] by {
                    if b == before.len() {
                        assert(before[a] == string_views(ids@)[a]);
                    } else {
                        assert(before[a] != before[b]);
                    }
                }
                assert(string_views(ids@).to_set() =~= string_views(old(ids)@).to_set() + string_views(users@).take(j + 1).to_set());
            }
        } else {
            assert(string_views(ids@).to_set() =~= string_views(old(ids)@).to_set() + string_views(users@).take(j + 1).to_set());
        }
        j = j + 1;
    }
    assert(string_views(users@).take(j as int) =~= string_views(users@));
}

/// The log lines and the mentions for one group.
fn group_plan(entries: &Vec<(String, Vec<String>)>, game: &TcecGame, channel: &str) -> (r: (Vec<String>, Vec<String>))
    requires
        name_patterns_compile(),
    ensures
        string_views(r.0@) == group_lines(set_entries(entries@), game.white_player@, game.black_player@, channel@),
        string_views(r.1@).no_duplicates(),
        string_views(r.1@).to_set() == group_mentions_upto(
            set_entries(entries@),
            game.white_player@,
            game.black_player@,
            entries@.len() as int,
        ),
{
    let ghost se = set_entries(entries@);
    let ghost w = game.white_player@;
    let ghost b = game.black_player@;
    let mut lines: Vec<String> = Vec::new();
    let mut ids: Vec<String> = Vec::new();
    let mut i: usize = 0;
    assert(string_views(ids@).to_set() =~= group_mentions_upto(se, w, b, 0));
    while i < entries.len()
        invariant
            i <= entries.len(),
            name_patterns_compile(),
            se == set_entries(entries@),
            w == game.white_player@,
            b == game.black_player@,
            string_views(lines@) == group_lines(se.take(i as int), w, b, channel@),
            string_views(ids@).no_duplicates(),
            string_views(ids@).to_set() == group_mentions_upto(se, w, b, i as int),
        decreases entries.len() - i,
    {
        let engine = &entries[i].0;
        let users = &entries[i].1;
        let ghost before = string_views(ids@);
        proof {
            assert(se[i as int] == (engine@, string_views(users@)));
            assert(se.take(i + 1).drop_last() =~= se.take(i as int));
            assert(se.take(i + 1).last() == se[i as int]);
        }
        if game.has_player(engine.as_str()) {
            add_all(users, &mut ids);
            let mut line: Vec<char> = Vec::new();
            push_str(&mut line, "Will notify ");
            push_chars(&mut line, &decimal_chars(users.len() as u64));
            push_str(&mut line, " users for engine `");
            push_str(&mut line, engine.as_str());
            push_str(&mut line, "` in ");
            push_str(&mut line, channel);
            let ghost lv = string_views(lines@);
            lines.push(string_from_chars(&line));
            assert(string_views(lines@) =~= lv.push(will_notify_line(users@.len(), engine@, channel@)));
            proof {
                assert forall|id: Seq<char>| #[trigger] string_views(ids@).to_set().contains(id) <==> group_mentions_upto(se, w, b, i + 1).contains(id) by {
                    if string_views(users@).to_set().contains(id) {
                        assert(se[i as int].1.contains(id));
                    }
                    if group_mentions_upto(se, w, b, i + 1).contains(id) {
                        let t = choose|t: int| 0 <= t < i + 1 && t < se.len() && engine_playing(se[t].0, w, b) && #[trigger] se[t].1.contains(id);
                        if t < i {
                            assert(group_mentions_upto(se, w, b, i as int).contains(id));
                        }
                    }
                    if before.to_set().contains(id) {
                        let t = choose|t: int| 0 <= t < i && t < se.len() && engine_playing(se[t].0, w, b) && #[trigger] se[t].1.contains(id);
                        assert(0 <= t < i + 1);
                    }
                }
                assert(string_views(ids@).to_set() =~= group_mentions_upto(se, w, b, i + 1));
            }
        } else {
            proof {
                assert forall|id: Seq<char>| #[trigger] before.to_set().contains(id) <==> group_mentions_upto(se, w, b, i + 1).contains(id) by {
                    if group_mentions_upto(se, w, b, i + 1).contains(id) {
                        let t = choose|t: int| 0 <= t < i + 1 && t < se.len() && engine_playing(se[t].0, w, b) && #[trigger] se[t].1.contains(id);
                        assert(t != i);
                        assert(group_mentions_upto(se, w, b, i as int).contains(id));
                    }
                    if before.to_set().contains(id) {
                        let t = choose|t: int| 0 <= t < i && t < se.len() && engine_playing(se[t].0, w, b) && #[trigger] se[t].1.contains(id);
                        assert(0 <= t < i + 1);
                    }
                }
                assert(before.to_set() =~= group_mentions_upto(se, w, b, i + 1));
            }
        }
        i = i + 1;
    }
    assert(se.take(i as int) =~= se);
    (lines, ids)
}

/// The mentions of every entry of a group are the mentions of the group's map.
proof fn lemma_group_mentions(v: Seq<(String, Vec<String>)>, w: Seq<char>, b: Seq<char>)
    requires
        set_group_wf(v),
    ensures
        group_mentions_upto(set_entries(v), w, b, v.len() as int) == group_mentions(set_group_view(v), w, b),
{
    let se = set_entries(v);
    let m = set_group_view(v);
    lemma_entries_map(se);
    assert forall|id: Seq<char>| #[trigger] group_mentions_upto(se, w, b, v.len() as int).contains(id) <==> group_mentions(m, w, b).contains(id) by {
        if group_mentions_upto(se, w, b, v.len() as int).contains(id) {
            let t = choose|t: int| 0 <= t < v.len() && t < se.len() && engine_playing(se[t].0, w, b) && #[trigger] se[t].1.contains(id);
            let e = se[t].0;
            assert(entry_keys(se)[t] == e);
            assert(entry_keys(se).to_set().contains(e));
            assert(entries_map(se)[e] == se[t].1);
            assert(m[e] == se[t].1.to_set());
            assert(m[e].contains(id));
        }
        if group_mentions(m, w, b).contains(id) {
            let e = choose|e: Seq<char>| m.dom().contains(e) && engine_playing(e, w, b) && #[trigger] m[e].contains(id);
            assert(entry_keys(se).to_set().contains(e));
            let t = choose|t: int| 0 <= t < entry_keys(se).len() && entry_keys(se)[t] == e;
            assert(se[t].0 == e);
            assert(entries_map(se)[e] == se[t].1);
            assert(m[e] == se[t].1.to_set());
            assert(se[t].1.contains(id));
        }
    }
    assert(group_mentions_upto(se, w, b, v.len() as int) =~= group_mentions(m, w, b));
}

/// `p` is what to do about the new game `game`: log the game, then each engine in it
/// with followers, TCEC first; ping, each once, the users that `group_mentions` names
/// for each channel; and announce the game in both channels.
pub open spec fn is_plan_for(monitor: TcecMonitor, config: Config, log: ConfiguredLogger, game: TcecGame, p: TcecPlan) -> bool {
    let w = game.white_player@;
    let b = game.black_player@;
    &&& outputs_are(
        p.logs@,
        info_effects(
            log,
            seq![pairing_line(w, b)] + group_lines(monitor.notify_config.tcec_entries(), w, b, "TCEC"@)
                + group_lines(monitor.notify_config.alphabeta_entries(), w, b, "AlphaBeta"@),
        ),
    )
    &&& string_views(p.tcec_mentions@).no_duplicates()
    &&& string_views(p.tcec_mentions@).to_set() == group_mentions(monitor.notify_config@.0, w, b)
    &&& string_views(p.alphabeta_mentions@).no_duplicates()
    &&& string_views(p.alphabeta_mentions@).to_set() == group_mentions(monitor.notify_config@.1, w, b)
    &&& is_webhook_post(
        p.tcec_notify,
        config.tcec_notify_webhook@,
        NOTIFIER_NAME@,
        game_notice(game.event@, TCEC_URL@, w, b, string_views(p.tcec_mentions@)),
    )
    &&& is_webhook_post(
        p.alphabeta_notify,
        config.alphabeta_notify_webhook@,
        NOTIFIER_NAME@,
        game_notice(game.event@, CTV_TCEC_URL@, w, b, string_views(p.alphabeta_mentions@)),
    )
}

/// What to do about a game not seen before.
pub struct TcecPlan {
    /// The log outputs: the game, then each engine of it with followers, TCEC first.
    pub logs: Vec<LogOutput>,
    /// The TCEC users to ping, each once.
    pub tcec_mentions: Vec<String>,
    /// The AlphaBeta users to ping, each once.
    pub alphabeta_mentions: Vec<String>,
    /// The announcement for the TCEC channel.
    pub tcec_notify: WebhookRequest,
    /// The announcement for the AlphaBeta channel.
    pub alphabeta_notify: WebhookRequest,
}

/// The notifier's state between rounds.
pub struct TcecMonitor {
    /// No round has logged the game in progress yet.
    pub first_run: bool,
    /// Who follows which engine, in TCEC and in AlphaBeta.
    pub notify_config: NotifyConfig,
}

impl TcecMonitor {
    /// The state at start: no round yet, with the configuration loaded at start.
    pub fn new(notify_config: NotifyConfig) -> (r: TcecMonitor)
        ensures
            r.first_run,
            r.notify_config == notify_config,
    {
        TcecMonitor { first_run: true, notify_config }
    }

    /// Logs the configuration the notifier starts with.
    pub fn loaded_message(&self, log: &ConfiguredLogger) -> (r: Vec<LogOutput>)
        ensures
            outputs_are(r@, log.effects(LogLevel::Info, loaded_line(self.notify_config@))),
    {
        let mut text = String::new();
        text.append("Loaded config:\n");
        let summary = self.notify_config.engines_summary();
        text.append(summary.as_str());
        log.info(text.as_str())
    }

    /// Takes a freshly fetched configuration. One whose TCEC followers differ replaces
    /// the current one and the change is logged as a diff; one with the same TCEC
    /// followers changes nothing, whatever its AlphaBeta followers; a failed fetch is
    /// logged as a warning and the current configuration is kept.
    pub fn config_update(&mut self, log: &ConfiguredLogger, fetched: Result<NotifyConfig, String>) -> (r: Vec<
        LogOutput,
    >)
        ensures
            final(self).first_run == old(self).first_run,
            match fetched {
                Err(e) => {
                    &&& final(self).notify_config == old(self).notify_config
                    &&& outputs_are(r@, log.effects(LogLevel::Warning, "Unable to fetch new config: "@ + e@))
                },
                Ok(c) => if c@.0 == old(self).notify_config@.0 {
                    final(self).notify_config == old(self).notify_config && r@.len() == 0
                } else {
                    &&& final(self).notify_config == c
                    &&& outputs_are(
                        r@,
                        log.effects(LogLevel::Info, config_update_line(old(self).notify_config@, c@)),
                    )
                },
            },
    {
        match fetched {
            Err(e) => report_failure(log, Failure::ConfigFetch, e.as_str()),
            Ok(c) => {
                if self.notify_config == c {
                    Vec::new()
                } else {
                    let mut text = String::new();
                    text.append("<@!106120945231466496> Config update loaded:\n```diff\n");
                    let diff = self.notify_config.diff_summary(&c);
                    text.append(diff.as_str());
                    text.append("\n```");
                    self.notify_config = c;
                    log.info(text.as_str())
                }
            },
        }
    }

    /// Takes the game on the board. The first time there is one, it is logged.
    pub fn game_update(&mut self, log: &ConfiguredLogger, game: &TcecGame) -> (r: Vec<LogOutput>)
        ensures
            !final(self).first_run,
            final(self).notify_config == old(self).notify_config,
            old(self).first_run ==> outputs_are(
                r@,
                log.effects(
                    LogLevel::Info,
                    in_progress_line(game.white_player@, game.black_player@, game.plies as nat),
                ),
            ),
            !old(self).first_run ==> r@.len() == 0,
    {
        if !self.first_run {
            return Vec::new();
        }
        let mut line: Vec<char> = Vec::new();
        push_str(&mut line, "In progress: `");
        push_str(&mut line, game.white_player.to_string().as_str());
        push_str(&mut line, "` vs `");
        push_str(&mut line, game.black_player.to_string().as_str());
        push_str(&mut line, "` (");
        push_chars(&mut line, &decimal_chars(game.plies));
        push_str(&mut line, " plies)");
        self.first_run = false;
        log.info(string_from_chars(&line).as_str())
    }

    /// What to do about the game on the board, given whether the database has seen it
    /// (`None`: the lookup failed, and the game counts as new). A game seen before
    /// needs nothing. A new game is logged, with a line for each engine in it that has
    /// followers, TCEC first, then AlphaBeta; both channels are notified, pinging the
    /// followers of the game's engines there.
    pub fn plan_game(&self, config: &Config, log: &ConfiguredLogger, game: &TcecGame, seen: Option<bool>) -> (r:
        Option<TcecPlan>)
        requires
            name_patterns_compile(),
        ensures
            r is None <==> seen == Some(true),
            r matches Some(p) ==> is_plan_for(*self, *config, *log, *game, p),
    {
        if seen == Some(true) {
            return None;
        }
        let tcec = self.notify_config.tcec_engines();
        let alphabeta = self.notify_config.alphabeta_engines();
        let (tcec_lines, tcec_mentions) = group_plan(tcec, game, "TCEC");
        let (alphabeta_lines, alphabeta_mentions) = group_plan(alphabeta, game, "AlphaBeta");
        proof {
            lemma_group_mentions(tcec@, game.white_player@, game.black_player@);
            lemma_group_mentions(alphabeta@, game.white_player@, game.black_player@);
        }
        let mut first: Vec<char> = Vec::new();
        push_str(&mut first, "`");
        push_str(&mut first, game.white_player.to_string().as_str());
        push_str(&mut first, "` vs `");
        push_str(&mut first, game.black_player.to_string().as_str());
        push_str(&mut first, "`");
        let mut lines: Vec<String> = Vec::new();
        lines.push(string_from_chars(&first));
        let ghost tv = string_views(tcec_lines@);
        let ghost av = string_views(alphabeta_lines@);
        let mut tl = tcec_lines;
        let mut al = alphabeta_lines;
        lines.append(&mut tl);
        lines.append(&mut al);
        assert(string_views(lines@) =~= seq![pairing_line(game.white_player@, game.black_player@)] + tv + av);
        let logs = log_infos(log, &lines);
        let tcec_notify = notify_tcec(
            config,
            NotifyContent {
                white_player: game.white_player.to_string(),
                black_player: game.black_player.to_string(),
                tournament: game.event.clone(),
                mentions: copy_strings(&tcec_mentions),
            },
        );
        let alphabeta_notify = notify_alphabeta(
            config,
            NotifyContent {
                white_player: game.white_player.to_string(),
                black_player: game.black_player.to_string(),
                tournament: game.event.clone(),
                mentions: copy_strings(&alphabeta_mentions),
            },
        );
        Some(TcecPlan { logs, tcec_mentions, alphabeta_mentions, tcec_notify, alphabeta_notify })
    }

    /// `plan_game`, after checking that the patterns that normalise engine names
    /// compile; `None` when one of them does not.
    pub fn try_plan_game(&self, config: &Config, log: &ConfiguredLogger, game: &TcecGame, seen: Option<bool>) -> (r:
        Option<Option<TcecPlan>>)
        ensures
            r is None <==> !name_patterns_compile(),
            r matches Some(p) ==> (p is None <==> seen == Some(true)),
            r matches Some(Some(p)) ==> is_plan_for(*self, *config, *log, *game, p),
    {
        if regex_is_valid(VERSION_PATTERN) && regex_is_valid(DATE_VERSION_PATTERN) {
            Some(self.plan_game(config, log, game, seen))
        } else {
            None
        }
    }
}

/// Who is pinged in a channel, from the configuration file: a user is pinged exactly
/// when the user follows an engine that plays in the game.
pub proof fn lemma_pinged_iff_follows(
    users: Seq<(Seq<char>, Set<Seq<char>>)>,
    white: Seq<char>,
    black: Seq<char>,
    id: Seq<char>,
)
    ensures
        group_mentions(engine_followers(users), white, black).contains(id) <==> exists|i: int, e: Seq<char>|
            0 <= i < users.len() && users[i].0 == id && #[trigger] users[i].1.contains(e) && engine_playing(
                e,
                white,
                black,
            ),
{
    let m = engine_followers(users);
    if group_mentions(m, white, black).contains(id) {
        let e = choose|e: Seq<char>| m.dom().contains(e) && engine_playing(e, white, black) && #[trigger] m[e].contains(id);
        assert(followers_of(users, e).contains(id));
        let i = choose|i: int| 0 <= i < users.len() && (#[trigger] users[i]).0 == id && users[i].1.contains(e);
        assert(users[i].1.contains(e));
    }
    if exists|i: int, e: Seq<char>|
        0 <= i < users.len() && users[i].0 == id && #[trigger] users[i].1.contains(e) && engine_playing(e, white, black) {
        let (i, e) = choose|i: int, e: Seq<char>|
            0 <= i < users.len() && users[i].0 == id && #[trigger] users[i].1.contains(e) && engine_playing(e, white, black);
        assert(listed(users, e));
        assert(followers_of(users, e).contains(id));
        assert(m[e].contains(id));
    }
}

} // verus!
