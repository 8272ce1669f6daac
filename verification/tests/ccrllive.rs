use chess_notifier::ccrl::ccrllive::{
    get_active_broadcasts, get_current_games, get_current_pgn, CcrlLivePlayer, CcrlLiveRoom,
    EngineName, PgnFetch, PgnResponse, CCRL_LIVE_ROOMS_URL,
};

#[test]
fn test_matches_does_not_match_substring() {
    let player = CcrlLivePlayer::new("Lunar");

    assert!(player.matches("Lunar"));
    assert!(!player.matches("Luna"));
}

#[test]
fn test_matches_ignores_version() {
    assert!(CcrlLivePlayer::new("Lunar 2").matches("Lunar"));
    assert!(CcrlLivePlayer::new("Lunar 2.0").matches("Lunar"));
    assert!(CcrlLivePlayer::new("Lunar 2.0.1").matches("Lunar"));
}

#[test]
fn test_matches_ignores_date_version() {
    assert!(CcrlLivePlayer::new("Colossus 2025b").matches("Colossus"));
}

#[test]
fn matches_ignores_case() {
    assert!(CcrlLivePlayer::new("STOCKFISH").matches("stockfish"));
    assert!(CcrlLivePlayer::new("stockfish").matches("Stockfish"));
}

#[test]
fn matches_ignores_bits_suffix() {
    assert!(CcrlLivePlayer::new("Stockfish 64-bit").matches("Stockfish"));
    assert!(CcrlLivePlayer::new("Stockfish 17 64-bit").matches("Stockfish"));
    assert!(CcrlLivePlayer::new("Stockfish64-bit").matches("Stockfish"));
}

#[test]
fn matches_ignores_v_prefixed_version() {
    assert!(CcrlLivePlayer::new("Ethereal v14.25").matches("Ethereal"));
    assert!(CcrlLivePlayer::new("Ethereal").matches("Ethereal 14"));
}

#[test]
fn matches_keeps_distinct_engines_apart() {
    assert!(!CcrlLivePlayer::new("Stockfish").matches("Komodo"));
    assert!(!CcrlLivePlayer::new("Lunar").matches("Lunar Eclipse"));
}

#[test]
fn try_matches_answers_when_patterns_compile() {
    let player = CcrlLivePlayer::new("Lunar 2");
    assert_eq!(player.try_matches("Lunar"), Some(true));
    assert_eq!(player.try_matches("Luna"), Some(false));
}

#[test]
fn normalized_strips_case_suffix_and_versions() {
    assert_eq!(EngineName::new("Stockfish 17 64-bit").normalized(), "stockfish");
    assert_eq!(EngineName::new("Colossus 2025b").normalized(), "colossus");
    assert_eq!(EngineName::new("Lunar v2.0.1").normalized(), "lunar");
    assert_eq!(EngineName::new("  Lunar v2.0.1 ").normalized(), "lunar v2.0.1");
    assert_eq!(EngineName::new("Berserk 13").to_string(), "Berserk 13");
}

#[test]
fn same_engine_compares_normalized_names() {
    assert!(EngineName::new("Berserk 13").same_engine(&EngineName::new("berserk")));
    assert!(!EngineName::new("Berserk").same_engine(&EngineName::new("Koivisto")));
}

#[test]
fn room_urls() {
    let room = CcrlLiveRoom::new("123");
    assert_eq!(room.code(), "123");
    assert_eq!(room.url(), "https://ccrl.live/123");
    assert_eq!(room.pgn_url(), "https://ccrl.live/123/pgn");
    assert_eq!(CcrlLiveRoom::ccrl_url("broadcasts"), "https://ccrl.live/broadcasts");
    assert_eq!(CCRL_LIVE_ROOMS_URL, "https://ccrl.live/broadcasts");
}

#[test]
fn active_broadcasts_are_decimal_codes() {
    let rooms = get_active_broadcasts(&vec![7, 1024, 0, 18446744073709551615]);
    let codes: Vec<String> = rooms.iter().map(|r| r.code()).collect();
    assert_eq!(codes, vec!["7", "1024", "0", "18446744073709551615"]);
    assert!(get_active_broadcasts(&vec![]).is_empty());
}

#[test]
fn pgn_response_by_status() {
    assert_eq!(get_current_pgn(200), PgnResponse::Pgn);
    assert_eq!(get_current_pgn(204), PgnResponse::NoBroadcast);
    assert_eq!(get_current_pgn(302), PgnResponse::NoBroadcast);
    assert_eq!(get_current_pgn(404), PgnResponse::HttpError);
    assert_eq!(get_current_pgn(503), PgnResponse::HttpError);
    assert_eq!(get_current_pgn(600), PgnResponse::NoBroadcast);
}

#[test]
fn current_games_keep_out_of_book_games_in_order() {
    let fetched = vec![
        (CcrlLiveRoom::new("1"), PgnFetch::Fetched("a", true)),
        (CcrlLiveRoom::new("2"), PgnFetch::Failed("timed out".to_string())),
        (CcrlLiveRoom::new("3"), PgnFetch::NoBroadcast),
        (CcrlLiveRoom::new("4"), PgnFetch::Fetched("b", false)),
        (CcrlLiveRoom::new("5"), PgnFetch::Fetched("c", true)),
    ];
    let current = get_current_games(fetched);
    let games: Vec<(String, &str)> = current.games.iter().map(|(r, g)| (r.code(), *g)).collect();
    assert_eq!(games, vec![("1".to_string(), "a"), ("5".to_string(), "c")]);
    assert_eq!(current.warnings, vec!["Unable to fetch PGN for room 2: timed out".to_string()]);
}

#[test]
fn current_games_of_no_rooms() {
    let current = get_current_games::<u32>(vec![]);
    assert!(current.games.is_empty());
    assert!(current.warnings.is_empty());
}

#[test]
fn engine_names_compare_by_normalized_form() {
    assert!(EngineName::new("Berserk 13 64-bit") == EngineName::new("berserk"));
    assert!(EngineName::new("Lunar") != EngineName::new("Luna"));
}
