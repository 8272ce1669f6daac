use chess_notifier::ccrl::config::{
    get_config, get_notify_config, ConfigFile, NotifyAction, NotifyRule, TournamentRules,
    UserConfig,
};
use chess_notifier::config::ConfigError;
use chess_notifier::tcec;

fn rule(pattern: &str, action: NotifyAction) -> NotifyRule {
    NotifyRule::new(pattern, action).expect("pattern compiles")
}

fn user(engines: &[&str], rules: Vec<NotifyRule>) -> UserConfig {
    UserConfig { engines: engines.iter().map(|e| e.to_string()).collect(), rules }
}

#[test]
fn rule_with_bad_pattern_is_refused() {
    assert!(NotifyRule::new("(unclosed", NotifyAction::Notify).is_none());
    let r = rule("^CCRL", NotifyAction::Ignore);
    assert_eq!(r.pattern(), "^CCRL");
    assert_eq!(r.action(), NotifyAction::Ignore);
    assert!(r.is_match("CCRL Blitz"));
    assert!(!r.is_match("TCEC Season 27"));
}

#[test]
fn first_matching_rule_decides() {
    let rules = TournamentRules {
        rules: vec![rule("Blitz", NotifyAction::Ignore), rule("CCRL", NotifyAction::Notify)],
    };
    assert!(!rules.notify_for_tournament("CCRL Blitz"));
    assert!(rules.notify_for_tournament("CCRL 40/15"));
    let reversed = TournamentRules {
        rules: vec![rule("CCRL", NotifyAction::Notify), rule("Blitz", NotifyAction::Ignore)],
    };
    assert!(reversed.notify_for_tournament("CCRL Blitz"));
}

#[test]
fn no_matching_rule_allows() {
    let rules = TournamentRules { rules: vec![rule("Blitz", NotifyAction::Ignore)] };
    assert!(rules.notify_for_tournament("CCRL 40/15"));
    assert!(TournamentRules { rules: vec![] }.notify_for_tournament("anything"));
}

#[test]
fn rules_compare_by_pattern_text_and_action() {
    let a = TournamentRules { rules: vec![rule("a+", NotifyAction::Notify)] };
    let b = TournamentRules { rules: vec![rule("a+", NotifyAction::Notify)] };
    let c = TournamentRules { rules: vec![rule("aa*", NotifyAction::Notify)] };
    let d = TournamentRules { rules: vec![rule("a+", NotifyAction::Ignore)] };
    assert!(a == b);
    assert!(a != c);
    assert!(a != d);
    assert!(a.same_rules(&b));
}

#[test]
fn config_url_must_parse() {
    assert_eq!(
        get_config("not a url", "hook".to_string(), None).err(),
        Some(ConfigError::InvalidConfigUrl)
    );
    let c = get_config("https://example.com/ccrl.json5", "hook".to_string(), Some("log".to_string()))
        .ok()
        .expect("a URL");
    assert_eq!(c.config_url, "https://example.com/ccrl.json5");
    assert_eq!(c.notify_webhook, "hook");
    assert_eq!(c.log_webhook, Some("log".to_string()));
}

#[test]
fn followers_grouped_by_engine() {
    let file = ConfigFile {
        users: vec![
            ("bob".to_string(), user(&["Stockfish", "Lunar"], vec![])),
            ("alice".to_string(), user(&["Stockfish"], vec![rule("Blitz", NotifyAction::Ignore)])),
        ],
    };
    let config = get_notify_config(&file);
    let engines = config.engines();
    assert_eq!(engines.len(), 2);
    let stockfish = engines.iter().find(|(e, _)| e == "Stockfish").expect("Stockfish");
    let ids: Vec<&str> = stockfish.1.iter().map(|u| u.user_id.as_str()).collect();
    assert_eq!(ids, vec!["bob", "alice"]);
    assert!(!stockfish.1[1].rules.notify_for_tournament("CCRL Blitz"));
    let lunar = engines.iter().find(|(e, _)| e == "Lunar").expect("Lunar");
    assert_eq!(lunar.1.len(), 1);
}

#[test]
fn engines_summary_is_sorted() {
    let file = ConfigFile {
        users: vec![
            ("zed".to_string(), user(&["Stockfish", "Berserk"], vec![])),
            ("amy".to_string(), user(&["Stockfish"], vec![])),
        ],
    };
    let config = get_notify_config(&file);
    assert_eq!(config.engines_summary(), "Berserk: zed\nStockfish: amy, zed");
    let empty = get_notify_config(&ConfigFile { users: vec![] });
    assert_eq!(empty.engines_summary(), "");
}

#[test]
fn diff_summary_lists_removed_then_added() {
    let old = get_notify_config(&ConfigFile {
        users: vec![("amy".to_string(), user(&["Stockfish", "Lunar"], vec![]))],
    });
    let new = get_notify_config(&ConfigFile {
        users: vec![
            ("amy".to_string(), user(&["Stockfish"], vec![])),
            ("bob".to_string(), user(&["Stockfish", "Koivisto"], vec![])),
        ],
    });
    assert_eq!(
        old.diff_summary(&new),
        "-Lunar: amy\n-Stockfish: amy\n+Koivisto: bob\n+Stockfish: amy, bob"
    );
    assert_eq!(old.diff_summary(&old), "No changes");
}

#[test]
fn notify_configs_compare_by_content() {
    let a = get_notify_config(&ConfigFile {
        users: vec![
            ("amy".to_string(), user(&["Stockfish"], vec![])),
            ("bob".to_string(), user(&["Lunar"], vec![])),
        ],
    });
    let b = get_notify_config(&ConfigFile {
        users: vec![
            ("bob".to_string(), user(&["Lunar"], vec![])),
            ("amy".to_string(), user(&["Stockfish"], vec![])),
        ],
    });
    let c = get_notify_config(&ConfigFile {
        users: vec![("amy".to_string(), user(&["Stockfish"], vec![rule("x", NotifyAction::Ignore)]))],
    });
    assert!(a == b);
    assert!(a != c);
}

fn tcec_file(tcec_users: &[(&str, &[&str])], alphabeta_users: &[(&str, &[&str])]) -> tcec::config::ConfigFile {
    let conv = |v: &[(&str, &[&str])]| -> Vec<(String, Vec<String>)> {
        v.iter()
            .map(|(u, es)| (u.to_string(), es.iter().map(|e| e.to_string()).collect()))
            .collect()
    };
    tcec::config::ConfigFile { tcec_users: conv(tcec_users), alphabeta_users: conv(alphabeta_users) }
}

#[test]
fn tcec_followers_are_sets() {
    let file = tcec_file(
        &[("amy", &["Stockfish", "Stockfish"]), ("bob", &["Stockfish", "Lc0"])],
        &[("cat", &["Lc0"])],
    );
    let config = tcec::config::get_notify_config(&file);
    assert_eq!(
        config.engines_summary(),
        "TCEC:\nLc0: bob\nStockfish: amy, bob\nAlphaBeta:\nLc0: cat"
    );
    let stockfish = config.tcec_engines().iter().find(|(e, _)| e == "Stockfish").expect("Stockfish");
    assert_eq!(stockfish.1.len(), 2);
    assert_eq!(config.alphabeta_engines().len(), 1);
}

#[test]
fn tcec_configs_compare_by_tcec_followers_only() {
    let a = tcec::config::get_notify_config(&tcec_file(&[("amy", &["Stockfish"])], &[]));
    let b = tcec::config::get_notify_config(&tcec_file(&[("amy", &["Stockfish"])], &[("bob", &["Lc0"])]));
    let c = tcec::config::get_notify_config(&tcec_file(&[("bob", &["Stockfish"])], &[]));
    assert!(a == b);
    assert!(a != c);
    assert_eq!(a.diff_summary(&b), "+Lc0: bob");
    assert_eq!(a.diff_summary(&a), "No changes");
}

#[test]
fn tcec_config_url_must_parse() {
    assert_eq!(
        tcec::config::get_config("::", "t".to_string(), "a".to_string(), None).err(),
        Some(ConfigError::InvalidConfigUrl)
    );
    let c = tcec::config::get_config("http://localhost/tcec", "t".to_string(), "a".to_string(), None)
        .ok()
        .expect("a URL");
    assert_eq!(c.config_url, "http://localhost/tcec");
    assert_eq!(c.tcec_notify_webhook, "t");
    assert_eq!(c.alphabeta_notify_webhook, "a");
}
