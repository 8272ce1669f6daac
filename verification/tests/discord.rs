use chess_notifier::discord::{game_notice_text, mention_list_text, send_log_message, send_message};
use chess_notifier::tcec::config::{get_config, Config};
use chess_notifier::tcec::notify::{notify_alphabeta, notify_tcec, NotifyContent, CTV_TCEC_URL, TCEC_URL};

#[test]
fn message_request_fields() {
    let r = send_message("https://hook", "tcec-notifier", "hello <@!1>");
    assert_eq!(r.url, "https://hook");
    assert_eq!(r.username, "tcec-notifier");
    assert_eq!(r.content, "hello <@!1>");
    assert_eq!(r.allowed_mentions, vec!["users".to_string()]);
}

#[test]
fn log_message_is_prefixed() {
    let r = send_log_message("https://log", "ccrl", "Loaded config");
    assert_eq!(r.url, "https://log");
    assert_eq!(r.username, "ccrl");
    assert_eq!(r.content, "[ccrl] Loaded config");
}

#[test]
fn mention_lists() {
    let none: Vec<char> = mention_list_text(&vec![]);
    assert!(none.is_empty());
    let two: String = mention_list_text(&vec!["1".to_string(), "22".to_string()]).into_iter().collect();
    assert_eq!(two, "   cc. <@!1> <@!22>");
}

#[test]
fn game_notice_format() {
    assert_eq!(
        game_notice_text("S27", "https://x/", "A", "B", &vec![]),
        "[`S27`](https://x/) `A` vs. `B`"
    );
    assert_eq!(
        game_notice_text("S27", "https://x/", "A", "B", &vec!["9".to_string()]),
        "[`S27`](https://x/) `A` vs. `B`   cc. <@!9>"
    );
}

fn config() -> Config {
    get_config(
        "https://example.com/tcec.json5",
        "https://tcec-hook".to_string(),
        "https://ab-hook".to_string(),
        None,
    )
    .ok()
    .expect("a URL")
}

#[test]
fn tcec_notifications() {
    let content = || NotifyContent {
        white_player: "Stockfish".to_string(),
        black_player: "Lc0".to_string(),
        tournament: "TCEC Season 27".to_string(),
        mentions: vec!["11".to_string(), "22".to_string()],
    };
    let t = notify_tcec(&config(), content());
    assert_eq!(t.url, "https://tcec-hook");
    assert_eq!(t.username, "tcec-notifier");
    assert_eq!(
        t.content,
        format!("[`TCEC Season 27`]({}) `Stockfish` vs. `Lc0`   cc. <@!11> <@!22>", TCEC_URL)
    );
    let a = notify_alphabeta(&config(), content());
    assert_eq!(a.url, "https://ab-hook");
    assert_eq!(
        a.content,
        format!("[`TCEC Season 27`]({}) `Stockfish` vs. `Lc0`   cc. <@!11> <@!22>", CTV_TCEC_URL)
    );
}
