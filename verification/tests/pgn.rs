use chess_notifier::ccrl::monitor::read_live_game;
use chess_notifier::pgn::{count_moves, tag_value};
use chess_notifier::tcec::monitor::read_tcec_game;

const GAME: &str = "[Event \"CCRL 40/15 Rating List\"]\n\
[Site \"CCRL\"]\n\
[White \"Stockfish 17 64-bit\"]\n\
[Black \"Lunar 2.0\"]\n\
\n\
1. e4 {book} c5 {book} 2. Nf3 {+0.31/24 12s} d6 {-0.28/22 9s} 3. d4 *\n";

#[test]
fn tags_are_read() {
    assert_eq!(tag_value(GAME, "White"), Some("Stockfish 17 64-bit".to_string()));
    assert_eq!(tag_value(GAME, "Black"), Some("Lunar 2.0".to_string()));
    assert_eq!(tag_value(GAME, "Site"), Some("CCRL".to_string()));
    assert_eq!(tag_value(GAME, "Round"), None);
    assert_eq!(tag_value("  [Date \"2025.01.02\"]  \r\n", "Date"), Some("2025.01.02".to_string()));
    assert_eq!(tag_value("[Date \"\"]", "Date"), Some("".to_string()));
    assert_eq!(tag_value("[Date 2025]", "Date"), None);
    assert_eq!(tag_value("[White \"a\"]\n[White \"b\"]", "White"), Some("a".to_string()));
}

#[test]
fn moves_and_book_moves_are_counted() {
    let counts = count_moves(GAME);
    assert_eq!(counts.plies, 5);
    assert_eq!(counts.book_moves, 2);
    let in_book = count_moves("[White \"x\"]\n1. d4 { book } d5 {book}");
    assert_eq!(in_book.plies, 2);
    assert_eq!(in_book.book_moves, 2);
    let none = count_moves("");
    assert_eq!((none.plies, none.book_moves), (0, 0));
    let annotated = count_moves("1. e4 $1 e5 2. O-O 1-0");
    assert_eq!(annotated.plies, 3);
}

#[test]
fn live_game_from_pgn() {
    let (game, out_of_book) = read_live_game(GAME).expect("all tags present");
    assert_eq!(game.white_player.to_string(), "Stockfish 17 64-bit");
    assert_eq!(game.black_player.to_string(), "Lunar 2.0");
    assert_eq!(game.site, "CCRL");
    assert_eq!(game.plies, 5);
    assert!(out_of_book);
    let (_, still_in_book) =
        read_live_game("[White \"a\"]\n[Black \"b\"]\n[Site \"s\"]\n1. e4 {book}").expect("tags");
    assert!(!still_in_book);
    assert!(read_live_game("[White \"a\"]\n[Black \"b\"]\n1. e4").is_none());
}

#[test]
fn tcec_game_from_pgn() {
    let game = read_tcec_game(GAME).expect("all tags present");
    assert_eq!(game.event, "CCRL 40/15 Rating List");
    assert_eq!(game.white_player.to_string(), "Stockfish 17 64-bit");
    assert_eq!(game.plies, 5);
    assert!(read_tcec_game("[White \"a\"]\n[Black \"b\"]").is_none());
}
