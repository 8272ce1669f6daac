//! The decisions of the CCRL notifier's polling loop. Each round the program around
//! the library fetches the configuration and the live games, looks each game up in
//! its database, performs the log outputs and posts that these functions return,
//! and records the games; these functions decide what is logged, who is pinged, and
//! what changes in the notifier's state.
use vstd::prelude::*;
use crate::ccrl::ccrllive::{
    CcrlLivePlayer, CcrlLiveRoom, name_patterns_compile, normalized_name, same_engine_name,
};
use crate::ccrl::config::{
    Config, NotifyConfig, UserConfigView, UserNotifyConfig, UserView, ccrl_summary, engines_view,
    followers_by_engine, lemma_follows_iff_listed, rules_allow, users_view,
};
use crate::ccrl::log::{ConfiguredLogger, LogLevel, LogOutput, Logger, info_effects, log_infos, outputs_are};
use crate::ccrl::notify::{NOTIFIER_NAME, NotifyContent, notify};
use crate::ccrl::ccrllive::ccrl_url_spec;
use crate::discord::{game_notice, is_webhook_post};
use crate::discord::WebhookRequest;
use crate::pgn::{count_moves, first_tag, scan, tag_value};
use crate::pattern::regex_is_valid;
use crate::ccrl::ccrllive::{DATE_VERSION_PATTERN, VERSION_PATTERN};
use crate::summary::{diff_text, distinct_keys, entries_map, lemma_entries_map, entry_keys};
use crate::text::{
    contains_string, lines, copy_strings, decimal, decimal_chars, push_chars, push_str,
    string_from_chars, string_views,
};

verus! {

/// A game in progress in a room, as read from the room's PGN.
pub struct LiveGame {
    pub white_player: CcrlLivePlayer,
    pub black_player: CcrlLivePlayer,
    /// The tournament, from the PGN's "Site" tag.
    pub site: String,
    /// How many half-moves have been played.
    pub plies: u64,
}

/// A game whose move text has a move that is not from the opening book has left it.
pub open spec fn left_book(pgn: Seq<char>) -> bool {
    scan(pgn).moves > scan(pgn).book
}

/// Reads a game from its PGN: the players from the "White" and "Black" tags, the
/// tournament from "Site", and the move count; also says whether the game has left the
/// opening book. `None` when one of the three tags is missing.
pub fn read_live_game(pgn: &str) -> (r: Option<(LiveGame, bool)>)
    ensures
        r is Some <==> (first_tag(lines(pgn@), "White"@) is Some && first_tag(lines(pgn@), "Black"@) is Some
            && first_tag(lines(pgn@), "Site"@) is Some),
        r matches Some((g, out_of_book)) ==> {
            &&& first_tag(lines(pgn@), "White"@) == Some(g.white_player@)
            &&& first_tag(lines(pgn@), "Black"@) == Some(g.black_player@)
            &&& first_tag(lines(pgn@), "Site"@) == Some(g.site@)
            &&& g.plies == scan(pgn@).moves
            &&& out_of_book == left_book(pgn@)
        },
{
    let white = tag_value(pgn, "White");
    let black = tag_value(pgn, "Black");
    let site = tag_value(pgn, "Site");
    match (white, black, site) {
        (Some(w), Some(b), Some(s)) => {
            let counts = count_moves(pgn);
            let game = LiveGame {
                white_player: CcrlLivePlayer::new(w.as_str()),
                black_player: CcrlLivePlayer::new(b.as_str()),
                site: s,
                plies: counts.plies,
            };
            Some((game, counts.plies > counts.book_moves))
        },
        _ => None,
    }
}

/// Whether the engine plays in a game between `white` and `black`.
pub open spec fn engine_playing(engine: Seq<char>, white: Seq<char>, black: Seq<char>) -> bool {
    normalized_name(white) == normalized_name(engine) || normalized_name(black) == normalized_name(
        engine,
    )
}

impl LiveGame {
    /// Whether one of the players is the engine called `engine`.
    pub fn has_player(&self, engine: &str) -> (r: bool)
        requires
            name_patterns_compile(),
        ensures
            r == engine_playing(engine@, self.white_player@, self.black_player@),
    {
        self.white_player.matches(engine) || self.black_player.matches(engine)
    }
}

/// Whether the user wants to hear about games of this tournament.
pub open spec fn wants(user: UserView, site: Seq<char>) -> bool {
    rules_allow(user.1, site)
}

/// How many of the users want to hear about games of this tournament.
pub open spec fn count_wanting(users: Seq<UserView>, site: Seq<char>) -> nat
    decreases users.len(),
{
    if users.len() == 0 {
        0
    } else {
        count_wanting(users.drop_last(), site) + if wants(users.last(), site) {
            1nat
        } else {
            0nat
        }
    }
}

/// The users to ping for a game: every user who follows an engine that plays in it
/// and whose rules let the tournament through.
pub open spec fn game_mentions(
    m: Map<Seq<char>, Seq<UserView>>,
    white: Seq<char>,
    black: Seq<char>,
    site: Seq<char>,
) -> Set<Seq<char>> {
    Set::new(
        |id: Seq<char>|
            exists|e: Seq<char>, k: int|
                #![trigger m[e][k]]
                m.dom().contains(e) && engine_playing(e, white, black) && 0 <= k < m[e].len()
                    && m[e][k].0 == id && wants(m[e][k], site),
    )
}

/// The log line for a game first seen: "`room` - `white` vs `black`".
pub open spec fn new_game_line(code: Seq<char>, white: Seq<char>, black: Seq<char>) -> Seq<char> {
    "`"@ + code + "` - `"@ + white + "` vs `"@ + black + "`"@
}

/// The log line for an engine whose followers will be pinged.
pub open spec fn will_notify_line(code: Seq<char>, n: nat, engine: Seq<char>) -> Seq<char> {
    "`"@ + code + "` Will notify "@ + decimal(n) + " users for engine `"@ + engine + "`"@
}

/// One line for each engine, in the order the configuration keeps them, that plays in
/// the game and has followers who want the tournament.
pub open spec fn engine_lines(
    entries: Seq<(Seq<char>, Seq<UserView>)>,
    code: Seq<char>,
    white: Seq<char>,
    black: Seq<char>,
    site: Seq<char>,
) -> Seq<Seq<char>>
    decreases entries.len(),
{
    if entries.len() == 0 {
        Seq::empty()
    } else {
        let rest = engine_lines(entries.drop_last(), code, white, black, site);
        let e = entries.last();
        if engine_playing(e.0, white, black) && count_wanting(e.1, site) > 0 {
            rest.push(will_notify_line(code, count_wanting(e.1, site), e.0))
        } else {
            rest
        }
    }
}

/// The log line for a game in progress when the notifier starts.
pub open spec fn in_progress_line(code: Seq<char>, white: Seq<char>, black: Seq<char>, plies: nat) -> Seq<char> {
    "`"@ + code + "` In progress: `"@ + white + "` vs `"@ + black + "` ("@ + decimal(plies)
        + " plies)"@
}

/// The lines listing the games in progress.
pub open spec fn in_progress_lines(games: Seq<(CcrlLiveRoom, LiveGame)>) -> Seq<Seq<char>> {
    games.map_values(
        |g: (CcrlLiveRoom, LiveGame)|
            in_progress_line(g.0@, g.1.white_player@, g.1.black_player@, g.1.plies as nat),
    )
}

/// The log line announcing a changed configuration, with the changes as a diff.
pub open spec fn config_update_line(
    old: Map<Seq<char>, Seq<UserView>>,
    new: Map<Seq<char>, Seq<UserView>>,
) -> Seq<char> {
    "<@!106120945231466496> Config update loaded:\n```diff\n"@ + diff_text(ccrl_summary(old), ccrl_summary(new))
        + "\n```"@
}

/// The log line with the configuration the notifier starts with.
pub open spec fn loaded_line(m: Map<Seq<char>, Seq<UserView>>) -> Seq<char> {
    "Loaded config:\n"@ + ccrl_summary(m)
}

/// What can go wrong in a round, and is logged.
pub enum Failure {
    /// The configuration could not be fetched (a warning).
    ConfigFetch,
    /// The live games could not be fetched (a warning).
    GamesFetch,
    /// A notification could not be posted (an error).
    Notify,
    /// A game could not be recorded as seen (an error).
    Record,
}

/// The level and text of the log message for a failure.
pub open spec fn failure_message(kind: Failure, error: Seq<char>) -> (LogLevel, Seq<char>) {
    match kind {
        Failure::ConfigFetch => (LogLevel::Warning, "Unable to fetch new config: "@ + error),
        Failure::GamesFetch => (LogLevel::Warning, "Unable to fetch in-progress games: "@ + error),
        Failure::Notify => (LogLevel::Error, "Unable to send notify: "@ + error),
        Failure::Record => (LogLevel::Error, "Unable to write seen game to db: "@ + error),
    }
}

/// Logs a failure, with the error's description.
pub fn report_failure(log: &ConfiguredLogger, kind: Failure, error: &str) -> (r: Vec<LogOutput>)
    ensures
        outputs_are(r@, log.effects(failure_message(kind, error@).0, failure_message(kind, error@).1)),
{
    let mut text = String::new();
    match kind {
        Failure::ConfigFetch => {
            text.append("Unable to fetch new config: ");
            text.append(error);
            log.warning(text.as_str())
        },
        Failure::GamesFetch => {
            text.append("Unable to fetch in-progress games: ");
            text.append(error);
            log.warning(text.as_str())
        },
        Failure::Notify => {
            text.append("Unable to send notify: ");
            text.append(error);
            log.error(text.as_str())
        },
        Failure::Record => {
            text.append("Unable to write seen game to db: ");
            text.append(error);
            log.error(text.as_str())
        },
    }
}

/// `p` is what to do about the new game `game` in `room`: log the game, then each
/// engine in it whose followers want the tournament; ping, each once, the users that
/// `game_mentions` names; and post the notification only when there is someone to ping.
pub open spec fn is_plan_for(
    monitor: CcrlMonitor,
    config: Config,
    log: ConfiguredLogger,
    room: CcrlLiveRoom,
    game: LiveGame,
    p: GamePlan,
) -> bool {
    let w = game.white_player@;
    let b = game.black_player@;
    let site = game.site@;
    &&& outputs_are(
        p.logs@,
        info_effects(
            log,
            seq![new_game_line(room@, w, b)] + engine_lines(monitor.notify_config.entries(), room@, w, b, site),
        ),
    )
    &&& string_views(p.mentions@).no_duplicates()
    &&& string_views(p.mentions@).to_set() == game_mentions(monitor.notify_config@, w, b, site)
    &&& (p.notify is Some <==> p.mentions@.len() > 0)
    &&& (p.notify matches Some(req) ==> is_webhook_post(
        req,
        config.notify_webhook@,
        NOTIFIER_NAME@,
        game_notice(site, ccrl_url_spec(room@), w, b, string_views(p.mentions@)),
    ))
}

/// What to do about a game not seen before.
pub struct GamePlan {
    /// The log outputs: the game, then each engine whose followers are pinged.
    pub logs: Vec<LogOutput>,
    /// The users to ping, each once.
    pub mentions: Vec<String>,
    /// The notification to post, when anyone is pinged.
    pub notify: Option<WebhookRequest>,
}

/// The notifier's state between rounds.
pub struct CcrlMonitor {
    /// No round has listed the games in progress yet.
    pub first_run: bool,
    /// Who follows which engine.
    pub notify_config: NotifyConfig,
}

/// The mentions contributed by user `k` of entry `t`: its id, when the entry's engine
/// plays and the user wants the tournament.
pub open spec fn contributes(
    entries: Seq<(Seq<char>, Seq<UserView>)>,
    white: Seq<char>,
    black: Seq<char>,
    site: Seq<char>,
    t: int,
    k: int,
    id: Seq<char>,
) -> bool {
    &&& 0 <= t < entries.len()
    &&& engine_playing(entries[t].0, white, black)
    &&& 0 <= k < entries[t].1.len()
    &&& entries[t].1[k].0 == id
    &&& wants(entries[t].1[k], site)
}

/// The mentions from the entries before `i`, and from the first `j` users of entry `i`.
pub open spec fn mentions_upto(
    entries: Seq<(Seq<char>, Seq<UserView>)>,
    white: Seq<char>,
    black: Seq<char>,
    site: Seq<char>,
    i: int,
    j: int,
) -> Set<Seq<char>> {
    Set::new(
        |id: Seq<char>|
            exists|t: int, k: int|
                #[trigger] contributes(entries, white, black, site, t, k, id) && (t < i || (t == i && k
                    < j)),
    )
}

/// Adds to `ids` the users among `users` who want the tournament; returns how many
/// of the users want it.
fn add_wanting(users: &Vec<UserNotifyConfig>, site: &String, ids: &mut Vec<String>) -> (n: usize)
    requires
        string_views(old(ids)@).no_duplicates(),
    ensures
        n == count_wanting(users_view(users@), site@),
        string_views(final(ids)@).no_duplicates(),
        forall|id: Seq<char>| #[trigger] string_views(final(ids)@).contains(id) <==> (string_views(old(ids)@).contains(id)
            || exists|k: int| 0 <= k < users@.len() && users@[k]@.0 == id && wants(#[trigger] users@[k]@, site@)),
{
    let ghost uv = users_view(users@);
    let mut n: usize = 0;
    let mut j: usize = 0;
    while j < users.len()
        invariant
            j <= users.len(),
            uv == users_view(users@),
            n <= j,
            n == count_wanting(uv.take(j as int), site@),
            string_views(ids@).no_duplicates(),
            forall|id: Seq<char>| #[trigger] string_views(ids@).contains(id) <==> (string_views(old(ids)@).contains(id)
                || exists|k: int| 0 <= k < j && users@[k]@.0 == id && wants(#[trigger] users@[k]@, site@)),
        decreases users.len() - j,
    {
        let user = &users[j];
        proof {
            assert(uv.take(j + 1).drop_last() =~= uv.take(j as int));
            assert(uv.take(j + 1).last() == user@);
        }
        if user.rules.notify_for_tournament(site.as_str()) {
            n = n + 1;
            let ghost before = string_views(ids@);
            if !contains_string(ids, &user.user_id) {
                ids.push(user.user_id.clone());
                proof {
                    assert(string_views(ids@) =~= before.push(user@.0));
                    assert forall|a: int, b: int| 0 <= a < b < string_views(ids@).len() implies string_views(ids@)[a] != string_views(ids@)[b] by {
                        if b == before.len() {
                            assert(before[a] == string_views(ids@)[a]);
                        } else {
                            assert(before[a] != before[b]);
                        }
                    }
                }
            }
            proof {
                let now = string_views(ids@);
                assert forall|id: Seq<char>| #[trigger] now.contains(id) <==> (string_views(old(ids)@).contains(id)
                    || exists|k: int| 0 <= k < j + 1 && users@[k]@.0 == id && wants(#[trigger] users@[k]@, site@)) by {
                    if now.contains(id) && !before.contains(id) {
                        let t = choose|t: int| 0 <= t < now.len() && now[t] == id;
                        if t < before.len() {
                            assert(before[t] == id);
                        }
                        assert(users@[j as int]@.0 == id);
                    }
                    if before.contains(id) {
                        let t = choose|t: int| 0 <= t < before.len() && before[t] == id;
                        assert(now[t] == id);
                    }
                    if id == user@.0 {
                        if !before.contains(id) {
                            assert(now[now.len() - 1] == id);
                        }
                    }
                }
            }
        }
        j = j + 1;
    }
    assert(uv.take(j as int) =~= uv);
    n
}

/// The engine lines and the mentions for a game.
fn engine_plan(
    entries: &Vec<(String, Vec<UserNotifyConfig>)>,
    code: &String,
    game: &LiveGame,
) -> (r: (Vec<String>, Vec<String>))
    requires
        name_patterns_compile(),
    ensures
        string_views(r.0@) == engine_lines(
            engines_view(entries@),
            code@,
            game.white_player@,
            game.black_player@,
            game.site@,
        ),
        string_views(r.1@).no_duplicates(),
        string_views(r.1@).to_set() == mentions_upto(
            engines_view(entries@),
            game.white_player@,
            game.black_player@,
            game.site@,
            entries@.len() as int,
            0,
        ),
{
    let ghost ev = engines_view(entries@);
    let ghost w = game.white_player@;
    let ghost b = game.black_player@;
    let ghost site = game.site@;
    let mut lines: Vec<String> = Vec::new();
    let mut ids: Vec<String> = Vec::new();
    let mut i: usize = 0;
    while i < entries.len()
        invariant
            i <= entries.len(),
            name_patterns_compile(),
            ev == engines_view(entries@),
            w == game.white_player@,
            b == game.black_player@,
            site == game.site@,
            string_views(lines@) == engine_lines(ev.take(i as int), code@, w, b, site),
            string_views(ids@).no_duplicates(),
            string_views(ids@).to_set() == mentions_upto(ev, w, b, site, i as int, 0),
        decreases entries.len() - i,
    {
        let engine = &entries[i].0;
        let users = &entries[i].1;
        let ghost e = ev[i as int];
        let ghost before = string_views(ids@);
        proof {
            assert(e == (engine@, users_view(users@)));
            assert(ev.take(i + 1).drop_last() =~= ev.take(i as int));
            assert(ev.take(i + 1).last() == e);
        }
        if game.has_player(engine.as_str()) {
            let n = add_wanting(users, &game.site, &mut ids);
            if n > 0 {
                let mut line: Vec<char> = Vec::new();
                push_str(&mut line, "`");
                push_str(&mut line, code.as_str());
                push_str(&mut line, "` Will notify ");
                push_chars(&mut line, &decimal_chars(n as u64));
                push_str(&mut line, " users for engine `");
                push_str(&mut line, engine.as_str());
                push_str(&mut line, "`");
                let ghost lv = string_views(lines@);
                lines.push(string_from_chars(&line));
                assert(string_views(lines@) =~= lv.push(will_notify_line(code@, n as nat, engine@)));
            }
            proof {
                let now = string_views(ids@);
                assert forall|id: Seq<char>| now.to_set().contains(id) <==> mentions_upto(ev, w, b, site, i + 1, 0).contains(id) by {
                    if now.contains(id) && !before.contains(id) {
                        let k = choose|k: int| 0 <= k < users@.len() && users@[k]@.0 == id && wants(#[trigger] users@[k]@, site);
                        assert(users_view(users@)[k] == users@[k]@);
                        assert(contributes(ev, w, b, site, i as int, k, id));
                    }
                    if mentions_upto(ev, w, b, site, i + 1, 0).contains(id) {
                        let (t, k) = choose|t: int, k: int| #[trigger] contributes(ev, w, b, site, t, k, id) && (t < i + 1 || (t == i + 1 && k < 0));
                        if t < i {
                            assert(mentions_upto(ev, w, b, site, i as int, 0).contains(id));
                            assert(before.to_set().contains(id));
                        } else {
                            assert(users@[k]@ == users_view(users@)[k]);
                            assert(wants(users@[k]@, site));
                        }
                    }
                    if before.contains(id) {
                        assert(before.to_set().contains(id));
                        let (t, k) = choose|t: int, k: int| #[trigger] contributes(ev, w, b, site, t, k, id) && (t < i || (t == i && k < 0));
                        assert(contributes(ev, w, b, site, t, k, id) && t < i + 1);
                    }
                }
                assert(now.to_set() =~= mentions_upto(ev, w, b, site, i + 1, 0));
            }
        } else {
            proof {
                assert forall|id: Seq<char>| before.to_set().contains(id) <==> mentions_upto(ev, w, b, site, i + 1, 0).contains(id) by {
                    if mentions_upto(ev, w, b, site, i + 1, 0).contains(id) {
                        let (t, k) = choose|t: int, k: int| #[trigger] contributes(ev, w, b, site, t, k, id) && (t < i + 1 || (t == i + 1 && k < 0));
                        assert(t != i);
                        assert(contributes(ev, w, b, site, t, k, id) && t < i);
                    }
                    if before.to_set().contains(id) {
                        let (t, k) = choose|t: int, k: int| #[trigger] contributes(ev, w, b, site, t, k, id) && (t < i || (t == i && k < 0));
                        assert(contributes(ev, w, b, site, t, k, id) && t < i + 1);
                    }
                }
                assert(before.to_set() =~= mentions_upto(ev, w, b, site, i + 1, 0));
            }
        }
        i = i + 1;
    }
    assert(ev.take(i as int) =~= ev);
    (lines, ids)
}

/// Every mention from every entry is a mention of the configuration's map.
proof fn lemma_all_mentions(
    ev: Seq<(Seq<char>, Seq<UserView>)>,
    w: Seq<char>,
    b: Seq<char>,
    site: Seq<char>,
)
    requires
        distinct_keys(ev),
    ensures
        mentions_upto(ev, w, b, site, ev.len() as int, 0) == game_mentions(entries_map(ev), w, b, site),
{
    lemma_entries_map(ev);
    let m = entries_map(ev);
    assert forall|id: Seq<char>| #[trigger] mentions_upto(ev, w, b, site, ev.len() as int, 0).contains(id) <==> game_mentions(m, w, b, site).contains(id) by {
        if mentions_upto(ev, w, b, site, ev.len() as int, 0).contains(id) {
            let (t, k) = choose|t: int, k: int| #[trigger] contributes(ev, w, b, site, t, k, id) && (t < ev.len() || (t == ev.len() && k < 0));
            let e = ev[t].0;
            assert(entry_keys(ev)[t] == e);
            assert(m.dom().contains(e));
            assert(m[e] == ev[t].1);
            assert(m[e][k] == ev[t].1[k]);
        }
        if game_mentions(m, w, b, site).contains(id) {
            let (e, k) = choose|e: Seq<char>, k: int| #![trigger m[e][k]] m.dom().contains(e) && engine_playing(e, w, b) && 0 <= k < m[e].len() && m[e][k].0 == id && wants(m[e][k], site);
            assert(entry_keys(ev).contains(e));
            let t = choose|t: int| 0 <= t < entry_keys(ev).len() && entry_keys(ev)[t] == e;
            assert(ev[t].0 == e);
            assert(m[e] == ev[t].1);
            assert(contributes(ev, w, b, site, t, k, id));
        }
    }
    assert(mentions_upto(ev, w, b, site, ev.len() as int, 0) =~= game_mentions(m, w, b, site));
}

impl CcrlMonitor {
    /// The state at start: no round yet, with the configuration loaded at start.
    pub fn new(notify_config: NotifyConfig) -> (r: CcrlMonitor)
        ensures
            r.first_run,
            r.notify_config == notify_config,
    {
        CcrlMonitor { first_run: true, notify_config }
    }

    /// Logs the configuration the notifier starts with.
    pub fn loaded_message(&self, log: &ConfiguredLogger) -> (r: Vec<LogOutput>)
        ensures
            outputs_are(r@, log.effects(LogLevel::Info, loaded_line(self.notify_config@))),
    {
        let mut text = String::new();
        text.append("Loaded config:\n");
        let summary = self.notify_config.engines_summary();
        text.append(summary.as_str());
        log.info(text.as_str())
    }

    /// Takes a freshly fetched configuration. A different one replaces the current one
    /// and the change is logged as a diff; an equal one changes nothing; a failed fetch
    /// is logged as a warning and the current configuration is kept.
    pub fn config_update(&mut self, log: &ConfiguredLogger, fetched: Result<NotifyConfig, String>) -> (r: Vec<
        LogOutput,
    >)
        ensures
            final(self).first_run == old(self).first_run,
            match fetched {
                Err(e) => {
                    &&& final(self).notify_config == old(self).notify_config
                    &&& outputs_are(r@, log.effects(LogLevel::Warning, "Unable to fetch new config: "@ + e@))
                },
                Ok(c) => if c@ == old(self).notify_config@ {
                    final(self).notify_config == old(self).notify_config && r@.len() == 0
                } else {
                    &&& final(self).notify_config == c
                    &&& outputs_are(
                        r@,
                        log.effects(LogLevel::Info, config_update_line(old(self).notify_config@, c@)),
                    )
                },
            },
    {
        match fetched {
            Err(e) => report_failure(log, Failure::ConfigFetch, e.as_str()),
            Ok(c) => {
                if self.notify_config == c {
                    Vec::new()
                } else {
                    let mut text = String::new();
                    text.append("<@!106120945231466496> Config update loaded:\n```diff\n");
                    let diff = self.notify_config.diff_summary(&c);
                    text.append(diff.as_str());
                    text.append("\n```");
                    self.notify_config = c;
                    log.info(text.as_str())
                }
            },
        }
    }

    /// Takes the games in progress of a round. On the first round they are listed in
    /// the log; later rounds log nothing here.
    pub fn games_update(&mut self, log: &ConfiguredLogger, games: &Vec<(CcrlLiveRoom, LiveGame)>) -> (r: Vec<
        LogOutput,
    >)
        ensures
            !final(self).first_run,
            final(self).notify_config == old(self).notify_config,
            old(self).first_run ==> outputs_are(r@, info_effects(*log, in_progress_lines(games@))),
            !old(self).first_run ==> r@.len() == 0,
    {
        if !self.first_run {
            return Vec::new();
        }
        let mut lines: Vec<String> = Vec::new();
        let mut i: usize = 0;
        while i < games.len()
            invariant
                i <= games.len(),
                string_views(lines@) == in_progress_lines(games@).take(i as int),
            decreases games.len() - i,
        {
            let (room, game) = &games[i];
            let mut line: Vec<char> = Vec::new();
            push_str(&mut line, "`");
            push_str(&mut line, room.code().as_str());
            push_str(&mut line, "` In progress: `");
            push_str(&mut line, game.white_player.to_string().as_str());
            push_str(&mut line, "` vs `");
            push_str(&mut line, game.black_player.to_string().as_str());
            push_str(&mut line, "` (");
            push_chars(&mut line, &decimal_chars(game.plies));
            push_str(&mut line, " plies)");
            let ghost before = string_views(lines@);
            assert(line@ == in_progress_line(room@, game.white_player@, game.black_player@, game.plies as nat));
            assert(in_progress_lines(games@)[i as int] == line@);
            lines.push(string_from_chars(&line));
            assert(string_views(lines@) =~= before.push(line@));
            assert(in_progress_lines(games@).take(i + 1) =~= in_progress_lines(games@).take(i as int).push(line@));
            assert(string_views(lines@) =~= in_progress_lines(games@).take(i + 1));
            i = i + 1;
        }
        assert(in_progress_lines(games@).take(i as int) =~= in_progress_lines(games@));
        self.first_run = false;
        log_infos(log, &lines)
    }

    /// What to do about a game in progress, given whether the database has seen it
    /// (`None`: the lookup failed, and the game counts as new). A game seen before
    /// needs nothing. A new game is logged, with a line for each engine in it whose
    /// followers want the tournament; those followers are pinged in one notification,
    /// posted only when there is someone to ping.
    pub fn plan_game(
        &self,
        config: &Config,
        log: &ConfiguredLogger,
        room: &CcrlLiveRoom,
        game: &LiveGame,
        seen: Option<bool>,
    ) -> (r: Option<GamePlan>)
        requires
            name_patterns_compile(),
        ensures
            r is None <==> seen == Some(true),
            r matches Some(p) ==> is_plan_for(*self, *config, *log, *room, *game, p),
    {
        if seen == Some(true) {
            return None;
        }
        let code = room.code();
        let entries = self.notify_config.engines();
        let (engine_lines_found, mentions) = engine_plan(entries, &code, game);
        proof {
            lemma_all_mentions(
                engines_view(entries@),
                game.white_player@,
                game.black_player@,
                game.site@,
            );
        }
        let mut first: Vec<char> = Vec::new();
        push_str(&mut first, "`");
        push_str(&mut first, code.as_str());
        push_str(&mut first, "` - `");
        push_str(&mut first, game.white_player.to_string().as_str());
        push_str(&mut first, "` vs `");
        push_str(&mut first, game.black_player.to_string().as_str());
        push_str(&mut first, "`");
        let mut lines: Vec<String> = Vec::new();
        lines.push(string_from_chars(&first));
        let mut rest = engine_lines_found;
        let ghost rv = string_views(rest@);
        lines.append(&mut rest);
        assert(string_views(lines@) =~= seq![new_game_line(room@, game.white_player@, game.black_player@)] + rv);
        let logs = log_infos(log, &lines);
        let notify_request = if mentions.len() > 0 {
            let content = NotifyContent {
                white_player: game.white_player.clone(),
                black_player: game.black_player.clone(),
                tournament: game.site.clone(),
                room: room.clone(),
                mentions: copy_strings(&mentions),
            };
            Some(notify(config, content))
        } else {
            None
        };
        Some(GamePlan { logs, mentions, notify: notify_request })
    }

    /// `plan_game`, after checking that the patterns that normalise engine names
    /// compile; `None` when one of them does not.
    pub fn try_plan_game(
        &self,
        config: &Config,
        log: &ConfiguredLogger,
        room: &CcrlLiveRoom,
        game: &LiveGame,
        seen: Option<bool>,
    ) -> (r: Option<Option<GamePlan>>)
        ensures
            r is None <==> !name_patterns_compile(),
            r matches Some(p) ==> (p is None <==> seen == Some(true)),
            r matches Some(Some(p)) ==> is_plan_for(*self, *config, *log, *room, *game, p),
    {
        if regex_is_valid(VERSION_PATTERN) && regex_is_valid(DATE_VERSION_PATTERN) {
            Some(self.plan_game(config, log, room, game, seen))
        } else {
            None
        }
    }
}

/// Who is pinged for a game, from the configuration file: a user is pinged exactly
/// when the user lists an engine that plays in the game and the user's rules let the
/// game's tournament through.
pub proof fn lemma_pinged_iff_follows(
    users: Seq<(Seq<char>, UserConfigView)>,
    white: Seq<char>,
    black: Seq<char>,
    site: Seq<char>,
    id: Seq<char>,
)
    ensures
        game_mentions(followers_by_engine(users), white, black, site).contains(id) <==> exists|i: int, e: Seq<char>|
            0 <= i < users.len() && users[i].0 == id && #[trigger] users[i].1.0.contains(e) && engine_playing(
                e,
                white,
                black,
            ) && rules_allow(users[i].1.1, site),
{
    let m = followers_by_engine(users);
    if game_mentions(m, white, black, site).contains(id) {
        let (e, k) = choose|e: Seq<char>, k: int|
            #![trigger m[e][k]]
            m.dom().contains(e) && engine_playing(e, white, black) && 0 <= k < m[e].len() && m[e][k].0 == id
                && wants(m[e][k], site);
        let u = m[e][k];
        assert(m[e].contains(u));
        lemma_follows_iff_listed(users, e, u);
        let i = choose|i: int|
            0 <= i < users.len() && (#[trigger] users[i]).1.0.contains(e) && (users[i].0, users[i].1.1) == u;
        assert(users[i].0 == id && users[i].1.0.contains(e) && engine_playing(e, white, black) && rules_allow(users[i].1.1, site));
    }
    if exists|i: int, e: Seq<char>|
        0 <= i < users.len() && users[i].0 == id && #[trigger] users[i].1.0.contains(e) && engine_playing(
            e,
            white,
            black,
        ) && rules_allow(users[i].1.1, site) {
        let (i, e) = choose|i: int, e: Seq<char>|
            0 <= i < users.len() && users[i].0 == id && #[trigger] users[i].1.0.contains(e) && engine_playing(
                e,
                white,
                black,
            ) && rules_allow(users[i].1.1, site);
        let u = (users[i].0, users[i].1.1);
        lemma_follows_iff_listed(users, e, u);
        assert(m.dom().contains(e) && m[e].contains(u));
        let k = choose|k: int| 0 <= k < m[e].len() && m[e][k] == u;
        assert(m[e][k].0 == id && wants(m[e][k], site));
        assert(game_mentions(m, white, black, site).contains(id));
    }
}

/// An engine plays in a game exactly when one of the players is that engine, as engine
/// names compare under `==` (equal normalised names, never a mere prefix); and whether
/// one engine is the other does not depend on which of the two is followed.
pub proof fn lemma_playing_is_name_equality(engine: Seq<char>, white: Seq<char>, black: Seq<char>)
    requires
        name_patterns_compile(),
    ensures
        engine_playing(engine, white, black) <==> (same_engine_name(white, engine) || same_engine_name(
            black,
            engine,
        )),
        engine_playing(engine, white, white) <==> engine_playing(white, engine, engine),
{
}

} // verus!
