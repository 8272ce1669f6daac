use chess_notifier::state::SeenGames;

#[test]
fn load_reads_one_hash_per_line() {
    let games = SeenGames::try_load("12\n34\r\n18446744073709551615").expect("valid state");
    assert!(games.contains(12));
    assert!(games.contains(34));
    assert!(games.contains(18446744073709551615));
    assert!(!games.contains(56));
}

#[test]
fn load_of_empty_file_is_empty() {
    let games = SeenGames::try_load("").expect("valid state");
    assert!(!games.contains(0));
}

#[test]
fn load_accepts_a_plus_sign() {
    let games = SeenGames::try_load("+7\n").expect("valid state");
    assert!(games.contains(7));
}

#[test]
fn load_refuses_a_bad_line() {
    assert!(SeenGames::try_load("12\nabc\n").is_none());
    assert!(SeenGames::try_load("12\n\n34\n").is_none());
    assert!(SeenGames::try_load("-1\n").is_none());
    assert!(SeenGames::try_load("18446744073709551616\n").is_none());
    assert!(SeenGames::try_load(" 5\n").is_none());
}

#[test]
fn add_records_and_returns_the_line() {
    let mut games = SeenGames::try_load("").expect("valid state");
    assert_eq!(games.add(42), "42\n");
    assert!(games.contains(42));
    assert_eq!(games.add(0), "0\n");
    assert!(games.contains(0));
}

#[test]
fn what_add_writes_load_reads_back() {
    let mut contents = String::from("5\n");
    let mut games = SeenGames::try_load(&contents).expect("valid state");
    contents.push_str(&games.add(9001));
    contents.push_str(&games.add(77));
    let reloaded = SeenGames::try_load(&contents).expect("valid state");
    assert!(reloaded.contains(5));
    assert!(reloaded.contains(9001));
    assert!(reloaded.contains(77));
    assert!(!reloaded.contains(6));
}

#[test]
fn load_of_a_valid_file() {
    let games = SeenGames::load("3\n4\n");
    assert!(games.contains(3));
    assert!(games.contains(4));
    assert!(!games.contains(5));
}
