use chess_notifier::ccrl::ccrllive::{CcrlLivePlayer, CcrlLiveRoom, EngineName};
use chess_notifier::ccrl::config::{
    get_config, get_notify_config, ConfigFile, NotifyAction, NotifyRule, UserConfig,
};
use chess_notifier::ccrl::log::{get_logger, DiscordLogger, LogOutput, Logger, StdoutLogger};
use chess_notifier::ccrl::monitor::{report_failure, CcrlMonitor, Failure, LiveGame};
use chess_notifier::tcec;
use chess_notifier::tcec::monitor::{TcecGame, TcecMonitor};

fn render(outputs: &[LogOutput]) -> Vec<String> {
    outputs
        .iter()
        .map(|o| match o {
            LogOutput::Stdout(s) => format!("out:{}", s),
            LogOutput::Stderr(s) => format!("err:{}", s),
            LogOutput::Post(r) => format!("post:{}|{}|{}", r.url, r.username, r.content),
        })
        .collect()
}

fn user(engines: &[&str], rules: Vec<NotifyRule>) -> UserConfig {
    UserConfig { engines: engines.iter().map(|e| e.to_string()).collect(), rules }
}

fn ccrl_file() -> ConfigFile {
    ConfigFile {
        users: vec![
            (
                "amy".to_string(),
                user(&["Stockfish"], vec![NotifyRule::new("Blitz", NotifyAction::Ignore).unwrap()]),
            ),
            ("bob".to_string(), user(&["Lunar", "Stockfish"], vec![])),
            ("cat".to_string(), user(&["Koivisto"], vec![])),
        ],
    }
}

fn ccrl_config(log_webhook: Option<&str>) -> chess_notifier::ccrl::config::Config {
    get_config(
        "https://example.com/ccrl.json5",
        "https://notify".to_string(),
        log_webhook.map(|s| s.to_string()),
    )
    .ok()
    .expect("a URL")
}

fn game(white: &str, black: &str, site: &str, plies: u64) -> LiveGame {
    LiveGame {
        white_player: CcrlLivePlayer::new(white),
        black_player: CcrlLivePlayer::new(black),
        site: site.to_string(),
        plies,
    }
}

#[test]
fn console_logger_outputs() {
    let log = StdoutLogger;
    assert!(log.start().is_empty());
    assert_eq!(render(&log.info("i")), vec!["out:i"]);
    assert_eq!(render(&log.warning("w")), vec!["err:w"]);
    assert_eq!(render(&log.error("e")), vec!["err:e"]);
}

#[test]
fn discord_logger_outputs() {
    let log = DiscordLogger::new("https://log".to_string());
    let start = render(&log.start());
    assert_eq!(start.len(), 1);
    assert!(start[0].starts_with("post:https://log|ccrl|```───"));
    assert!(start[0].ends_with("───```"));
    assert_eq!(render(&log.info("hi")), vec!["out:hi", "post:https://log|ccrl|hi"]);
    assert_eq!(
        render(&log.warning("careful")),
        vec!["out::yellow_circle: careful", "post:https://log|ccrl|careful"]
    );
    assert_eq!(
        render(&log.error("broken")),
        vec![
            "err:broken",
            "post:https://log|ccrl|<@!106120945231466496> :red_circle:broken"
        ]
    );
}

#[test]
fn logger_follows_configuration() {
    let console = get_logger(&ccrl_config(None));
    assert_eq!(render(&console.info("x")), vec!["out:x"]);
    let discord = get_logger(&ccrl_config(Some("https://log")));
    assert_eq!(render(&discord.info("x")), vec!["out:x", "post:https://log|ccrl|x"]);
}

#[test]
fn failures_are_reported_at_their_level() {
    let log = get_logger(&ccrl_config(None));
    assert_eq!(
        render(&report_failure(&log, Failure::ConfigFetch, "timeout")),
        vec!["err:Unable to fetch new config: timeout"]
    );
    assert_eq!(
        render(&report_failure(&log, Failure::GamesFetch, "dns")),
        vec!["err:Unable to fetch in-progress games: dns"]
    );
    let discord = get_logger(&ccrl_config(Some("https://log")));
    assert_eq!(
        render(&report_failure(&discord, Failure::Notify, "500")),
        vec![
            "err:Unable to send notify: 500",
            "post:https://log|ccrl|<@!106120945231466496> :red_circle:Unable to send notify: 500"
        ]
    );
    assert_eq!(
        render(&report_failure(&discord, Failure::Record, "locked")),
        vec![
            "err:Unable to write seen game to db: locked",
            "post:https://log|ccrl|<@!106120945231466496> :red_circle:Unable to write seen game to db: locked"
        ]
    );
}

#[test]
fn config_updates() {
    let log = get_logger(&ccrl_config(None));
    let mut monitor = CcrlMonitor::new(get_notify_config(&ccrl_file()));
    assert_eq!(
        render(&monitor.loaded_message(&log)),
        vec!["out:Loaded config:\nKoivisto: cat\nLunar: bob\nStockfish: amy, bob"]
    );
    assert!(monitor.config_update(&log, Ok(get_notify_config(&ccrl_file()))).is_empty());
    assert_eq!(
        render(&monitor.config_update(&log, Err("timeout".to_string()))),
        vec!["err:Unable to fetch new config: timeout"]
    );
    let smaller = ConfigFile { users: vec![("cat".to_string(), user(&["Koivisto"], vec![]))] };
    assert_eq!(
        render(&monitor.config_update(&log, Ok(get_notify_config(&smaller)))),
        vec!["out:<@!106120945231466496> Config update loaded:\n```diff\n-Lunar: bob\n-Stockfish: amy, bob\n```"]
    );
    assert_eq!(monitor.notify_config.engines_summary(), "Koivisto: cat");
    assert!(monitor.first_run);
}

#[test]
fn first_round_lists_games_in_progress() {
    let log = get_logger(&ccrl_config(None));
    let mut monitor = CcrlMonitor::new(get_notify_config(&ccrl_file()));
    let games = vec![
        (CcrlLiveRoom::new("5"), game("Stockfish", "Lunar", "CCRL Blitz", 40)),
        (CcrlLiveRoom::new("9"), game("A", "B", "CCRL 40/15", 0)),
    ];
    assert_eq!(
        render(&monitor.games_update(&log, &games)),
        vec![
            "out:`5` In progress: `Stockfish` vs `Lunar` (40 plies)",
            "out:`9` In progress: `A` vs `B` (0 plies)"
        ]
    );
    assert!(!monitor.first_run);
    assert!(monitor.games_update(&log, &games).is_empty());
}

#[test]
fn new_game_pings_followers_who_want_the_tournament() {
    let config = ccrl_config(None);
    let log = get_logger(&config);
    let monitor = CcrlMonitor::new(get_notify_config(&ccrl_file()));
    let room = CcrlLiveRoom::new("5");
    let g = game("Stockfish 17 64-bit", "Lunar 2", "CCRL Blitz", 12);
    let plan = monitor.plan_game(&config, &log, &room, &g, Some(false)).expect("a new game");
    let mut logs = render(&plan.logs);
    assert_eq!(logs.remove(0), "out:`5` - `Stockfish 17 64-bit` vs `Lunar 2`");
    logs.sort();
    assert_eq!(
        logs,
        vec![
            "out:`5` Will notify 1 users for engine `Lunar`",
            "out:`5` Will notify 1 users for engine `Stockfish`"
        ]
    );
    assert_eq!(plan.mentions, vec!["bob".to_string()]);
    let request = plan.notify.expect("someone to ping");
    assert_eq!(request.url, "https://notify");
    assert_eq!(request.username, "ccrl-notifier");
    assert_eq!(
        request.content,
        "[`CCRL Blitz`](https://ccrl.live/5) `Stockfish 17 64-bit` vs. `Lunar 2`   cc. <@!bob>"
    );
}

#[test]
fn rules_let_other_tournaments_through() {
    let config = ccrl_config(None);
    let log = get_logger(&config);
    let monitor = CcrlMonitor::new(get_notify_config(&ccrl_file()));
    let room = CcrlLiveRoom::new("7");
    let g = game("Komodo", "Stockfish", "CCRL 40/15", 3);
    let plan = monitor.plan_game(&config, &log, &room, &g, None).expect("a lookup failure counts as new");
    let mut mentions = plan.mentions.clone();
    mentions.sort();
    assert_eq!(mentions, vec!["amy".to_string(), "bob".to_string()]);
    assert_eq!(
        render(&plan.logs),
        vec!["out:`7` - `Komodo` vs `Stockfish`", "out:`7` Will notify 2 users for engine `Stockfish`"]
    );
    assert!(plan.notify.is_some());
}

#[test]
fn nobody_to_ping_means_no_notification() {
    let config = ccrl_config(None);
    let log = get_logger(&config);
    let monitor = CcrlMonitor::new(get_notify_config(&ccrl_file()));
    let room = CcrlLiveRoom::new("2");
    let g = game("Ethereal", "Berserk", "CCRL Blitz", 3);
    let plan = monitor.plan_game(&config, &log, &room, &g, Some(false)).expect("a new game");
    assert!(plan.mentions.is_empty());
    assert!(plan.notify.is_none());
    assert_eq!(render(&plan.logs), vec!["out:`2` - `Ethereal` vs `Berserk`"]);
}

#[test]
fn seen_game_needs_nothing() {
    let config = ccrl_config(None);
    let log = get_logger(&config);
    let monitor = CcrlMonitor::new(get_notify_config(&ccrl_file()));
    let room = CcrlLiveRoom::new("5");
    let g = game("Stockfish", "Lunar", "CCRL Blitz", 12);
    assert!(monitor.plan_game(&config, &log, &room, &g, Some(true)).is_none());
    assert!(matches!(monitor.try_plan_game(&config, &log, &room, &g, Some(true)), Some(None)));
}

fn tcec_file() -> tcec::config::ConfigFile {
    tcec::config::ConfigFile {
        tcec_users: vec![
            ("amy".to_string(), vec!["Stockfish".to_string()]),
            ("bob".to_string(), vec!["Stockfish".to_string(), "Lc0".to_string()]),
        ],
        alphabeta_users: vec![("cat".to_string(), vec!["Lc0".to_string()])],
    }
}

fn tcec_config() -> tcec::config::Config {
    tcec::config::get_config(
        "https://example.com/tcec.json5",
        "https://tcec-hook".to_string(),
        "https://ab-hook".to_string(),
        Some("https://log".to_string()),
    )
    .ok()
    .expect("a URL")
}

fn tcec_game(white: &str, black: &str) -> TcecGame {
    TcecGame {
        white_player: EngineName::new(white),
        black_player: EngineName::new(black),
        event: "TCEC Season 27".to_string(),
        plies: 80,
    }
}

#[test]
fn tcec_logger_posts_as_tcec() {
    let log = tcec::monitor::get_logger(&tcec_config());
    assert_eq!(render(&log.info("x")), vec!["out:x", "post:https://log|tcec|x"]);
}

#[test]
fn tcec_round() {
    let config = tcec_config();
    let log = tcec::monitor::get_logger(&config);
    let mut monitor = TcecMonitor::new(tcec::config::get_notify_config(&tcec_file()));
    let g = tcec_game("Stockfish dev-20250101", "Lc0 v0.31");
    assert_eq!(
        render(&monitor.game_update(&log, &g)),
        vec![
            "out:In progress: `Stockfish dev-20250101` vs `Lc0 v0.31` (80 plies)",
            "post:https://log|tcec|In progress: `Stockfish dev-20250101` vs `Lc0 v0.31` (80 plies)"
        ]
    );
    assert!(monitor.game_update(&log, &g).is_empty());
    let console = tcec::monitor::get_logger(&tcec::config::get_config(
        "https://example.com/tcec.json5",
        "https://tcec-hook".to_string(),
        "https://ab-hook".to_string(),
        None,
    )
    .ok()
    .expect("a URL"));
    let g = tcec_game("Stockfish", "Lc0 v0.31");
    let plan = monitor.plan_game(&config, &console, &g, Some(false)).expect("a new game");
    let logs = render(&plan.logs);
    assert_eq!(logs[0], "out:`Stockfish` vs `Lc0 v0.31`");
    let mut tcec_lines = logs[1..3].to_vec();
    tcec_lines.sort();
    assert_eq!(
        tcec_lines,
        vec![
            "out:Will notify 1 users for engine `Lc0` in TCEC",
            "out:Will notify 2 users for engine `Stockfish` in TCEC"
        ]
    );
    assert_eq!(logs[3], "out:Will notify 1 users for engine `Lc0` in AlphaBeta");
    assert_eq!(logs.len(), 4);
    let mut tm = plan.tcec_mentions.clone();
    tm.sort();
    assert_eq!(tm, vec!["amy".to_string(), "bob".to_string()]);
    assert_eq!(plan.alphabeta_mentions, vec!["cat".to_string()]);
    assert_eq!(plan.tcec_notify.url, "https://tcec-hook");
    assert!(plan.tcec_notify.content.starts_with("[`TCEC Season 27`](https://tcec-chess.com/) `Stockfish` vs. `Lc0 v0.31`   cc. <@!"));
    assert_eq!(
        plan.alphabeta_notify.content,
        "[`TCEC Season 27`](https://ctv.tcec-chess.com/) `Stockfish` vs. `Lc0 v0.31`   cc. <@!cat>"
    );
    assert!(monitor.plan_game(&config, &console, &g, Some(true)).is_none());
}

#[test]
fn tcec_notifies_both_channels_even_without_mentions() {
    let config = tcec_config();
    let log = tcec::monitor::get_logger(&config);
    let monitor = TcecMonitor::new(tcec::config::get_notify_config(&tcec_file()));
    let g = tcec_game("Berserk", "Ethereal");
    let plan = monitor.plan_game(&config, &log, &g, None).expect("a new game");
    assert!(plan.tcec_mentions.is_empty());
    assert_eq!(
        plan.tcec_notify.content,
        "[`TCEC Season 27`](https://tcec-chess.com/) `Berserk` vs. `Ethereal`"
    );
    assert_eq!(plan.alphabeta_notify.url, "https://ab-hook");
}

#[test]
fn tcec_config_update_ignores_alphabeta_changes() {
    let log = tcec::monitor::get_logger(&tcec::config::get_config(
        "https://example.com/tcec.json5",
        "t".to_string(),
        "a".to_string(),
        None,
    )
    .ok()
    .expect("a URL"));
    let mut monitor = TcecMonitor::new(tcec::config::get_notify_config(&tcec_file()));
    let mut changed = tcec_file();
    changed.alphabeta_users = vec![];
    assert!(monitor.config_update(&log, Ok(tcec::config::get_notify_config(&changed))).is_empty());
    assert_eq!(monitor.notify_config.alphabeta_engines().len(), 1);
    assert_eq!(
        render(&monitor.config_update(&log, Err("502".to_string()))),
        vec!["err:Unable to fetch new config: 502"]
    );
    let mut other = tcec_file();
    other.tcec_users.pop();
    let out = render(&monitor.config_update(&log, Ok(tcec::config::get_notify_config(&other))));
    assert_eq!(
        out,
        vec!["out:<@!106120945231466496> Config update loaded:\n```diff\n-Lc0: bob\n-Stockfish: amy, bob\n+Stockfish: amy\n```"]
    );
    assert_eq!(
        render(&tcec::monitor::report_failure(&log, tcec::monitor::Failure::GameFetch, "x")),
        vec!["err:Unable to fetch in-progress game: x"]
    );
}
