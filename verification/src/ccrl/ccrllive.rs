//! The ccrl.live broadcast rooms, engine names as CCRL writes them, and the choice
//! of which fetched games count as started.
use vstd::prelude::*;
use crate::pattern::{regex_compiles, regex_replaced, regex_is_valid, regex_replace_all};
use crate::text::{
    ascii_lower, ascii_lower_char, chars_eq, chars_of, decimal, decimal_chars, ends_with, is_white_space,
    strip_suffix, strip_suffix_chars, string_from_chars, to_ascii_lower, trim, trim_chars,
    trim_end, trim_start,
};

verus! {

/// Where the list of live rooms is published.
pub const CCRL_LIVE_ROOMS_URL: &'static str = "https://ccrl.live/broadcasts";

/// Removes a trailing version such as " 2", " v1.2" or " 1.2.3".
pub const VERSION_PATTERN: &'static str = " v?(\\d+)(\\.\\d+)?(\\.\\d+)?$";

/// Removes a dated release such as " 2025a".
pub const DATE_VERSION_PATTERN: &'static str = " \\d{4}[a-zA-Z]";

/// The suffix that CCRL appends to many engine names.
pub const BITS_SUFFIX: &'static str = "64-bit";

/// A broadcast room on ccrl.live, known by its code.
#[derive(Debug)]
pub struct CcrlLiveRoom {
    code: String,
}

impl View for CcrlLiveRoom {
    type V = Seq<char>;

    closed spec fn view(&self) -> Seq<char> {
        self.code@
    }
}

impl Clone for CcrlLiveRoom {
    fn clone(&self) -> (r: Self)
        ensures
            r@ == self@,
    {
        CcrlLiveRoom { code: self.code.clone() }
    }
}

/// The address of a page on ccrl.live.
pub open spec fn ccrl_url_spec(suffix: Seq<char>) -> Seq<char> {
    "https://ccrl.live/"@ + suffix
}

impl CcrlLiveRoom {
    /// The room with this code.
    pub fn new(code: &str) -> (r: Self)
        ensures
            r@ == code@,
    {
        CcrlLiveRoom { code: code.to_owned() }
    }

    /// The room's code.
    pub fn code(&self) -> (r: String)
        ensures
            r@ == self@,
    {
        self.code.clone()
    }

    /// The address of the page `suffix` on ccrl.live.
    pub fn ccrl_url(suffix: &str) -> (r: String)
        ensures
            r@ == ccrl_url_spec(suffix@),
    {
        let mut s = String::new();
        s.append("https://ccrl.live/");
        s.append(suffix);
        s
    }

    /// The room's page.
    pub fn url(&self) -> (r: String)
        ensures
            r@ == ccrl_url_spec(self@),
    {
        Self::ccrl_url(self.code.as_str())
    }

    /// The PGN of the game being played in the room.
    pub fn pgn_url(&self) -> (r: String)
        ensures
            r@ == ccrl_url_spec(self@ + "/pgn"@),
    {
        let mut suffix = self.code.clone();
        suffix.append("/pgn");
        Self::ccrl_url(suffix.as_str())
    }
}

/// Both patterns that normalise engine names compile.
pub open spec fn name_patterns_compile() -> bool {
    regex_compiles(VERSION_PATTERN@) && regex_compiles(DATE_VERSION_PATTERN@)
}

/// An engine name with case, a "64-bit" suffix, a trailing version number and a dated
/// release removed, so that two spellings of one engine compare equal.
pub open spec fn normalized_name(name: Seq<char>) -> Seq<char> {
    let lower = ascii_lower(name);
    let stripped = match strip_suffix(lower, BITS_SUFFIX@) {
        Some(rest) => trim(rest),
        None => lower,
    };
    let without_version = trim(regex_replaced(VERSION_PATTERN@, stripped, ""@));
    trim(regex_replaced(DATE_VERSION_PATTERN@, without_version, ""@))
}

/// An engine's name as CCRL prints it.
#[derive(Debug, Hash)]
pub struct EngineName(String);

impl View for EngineName {
    type V = Seq<char>;

    closed spec fn view(&self) -> Seq<char> {
        self.0@
    }
}

impl Clone for EngineName {
    fn clone(&self) -> (r: Self)
        ensures
            r@ == self@,
    {
        EngineName(self.0.clone())
    }
}

impl EngineName {
    /// The engine with this name, as written.
    pub fn new(name: &str) -> (r: Self)
        ensures
            r@ == name@,
    {
        EngineName(name.to_owned())
    }

    /// The name as written.
    pub fn to_string(&self) -> (r: String)
        ensures
            r@ == self@,
    {
        self.0.clone()
    }

    /// The name reduced to what identifies the engine.
    pub fn normalized(&self) -> (r: String)
        requires
            name_patterns_compile(),
        ensures
            r@ == normalized_name(self@),
    {
        let lower = to_ascii_lower(&chars_of(self.0.as_str()));
        let suffix = chars_of(BITS_SUFFIX);
        let stripped = match strip_suffix_chars(&lower, &suffix) {
            Some(rest) => trim_chars(&rest),
            None => lower,
        };
        let stripped_text = string_from_chars(&stripped);
        let without_version = regex_replace_all(VERSION_PATTERN, stripped_text.as_str(), "");
        let without_version = string_from_chars(&trim_chars(&chars_of(without_version.as_str())));
        let without_date = regex_replace_all(DATE_VERSION_PATTERN, without_version.as_str(), "");
        string_from_chars(&trim_chars(&chars_of(without_date.as_str())))
    }

    /// Whether two names denote the same engine: their normalised forms are equal.
    pub fn same_engine(&self, other: &EngineName) -> (r: bool)
        requires
            name_patterns_compile(),
        ensures
            r == (normalized_name(self@) == normalized_name(other@)),
    {
        self.normalized() == other.normalized()
    }
}

/// Whether two names denote the same engine: their normalised forms are equal. (The
/// normalising patterns are constants that compile; were they not to, names would
/// compare as written.)
pub open spec fn same_engine_name(a: Seq<char>, b: Seq<char>) -> bool {
    if name_patterns_compile() {
        normalized_name(a) == normalized_name(b)
    } else {
        a == b
    }
}

impl PartialEq for EngineName {
    fn eq(&self, other: &Self) -> (r: bool) {
        if regex_is_valid(VERSION_PATTERN) && regex_is_valid(DATE_VERSION_PATTERN) {
            self.same_engine(other)
        } else {
            chars_eq(&chars_of(self.0.as_str()), &chars_of(other.0.as_str()))
        }
    }
}

impl vstd::std_specs::cmp::PartialEqSpecImpl for EngineName {
    open spec fn obeys_eq_spec() -> bool {
        true
    }

    open spec fn eq_spec(&self, other: &EngineName) -> bool {
        same_engine_name(self@, other@)
    }
}

/// A player in a ccrl.live game.
#[derive(Debug, Hash)]
pub struct CcrlLivePlayer {
    name: EngineName,
}

impl View for CcrlLivePlayer {
    type V = Seq<char>;

    closed spec fn view(&self) -> Seq<char> {
        self.name@
    }
}

impl Clone for CcrlLivePlayer {
    fn clone(&self) -> (r: Self)
        ensures
            r@ == self@,
    {
        CcrlLivePlayer { name: self.name.clone() }
    }
}

impl CcrlLivePlayer {
    /// The player called `name`.
    pub fn new(name: &str) -> (r: Self)
        ensures
            r@ == name@,
    {
        CcrlLivePlayer { name: EngineName::new(name) }
    }

    /// The player's name as written.
    pub fn to_string(&self) -> (r: String)
        ensures
            r@ == self@,
    {
        self.name.to_string()
    }

    /// Whether the player is the engine called `name`, up to case, a "64-bit" suffix
    /// and a version.
    pub fn matches(&self, name: &str) -> (r: bool)
        requires
            name_patterns_compile(),
        ensures
            r == (normalized_name(self@) == normalized_name(name@)),
    {
        self.name.same_engine(&EngineName::new(name))
    }

    /// `matches`, after checking that the normalising patterns compile; `None` when
    /// one of them does not.
    pub fn try_matches(&self, name: &str) -> (r: Option<bool>)
        ensures
            r is None <==> !name_patterns_compile(),
            r matches Some(b) ==> b == (normalized_name(self@) == normalized_name(name@)),
    {
        if regex_is_valid(VERSION_PATTERN) && regex_is_valid(DATE_VERSION_PATTERN) {
            Some(self.matches(name))
        } else {
            None
        }
    }
}

/// Matching ignores ASCII case: names that lower-case alike denote the same engine.
pub proof fn lemma_matching_ignores_case(a: Seq<char>, b: Seq<char>)
    requires
        ascii_lower(a) == ascii_lower(b),
    ensures
        normalized_name(a) == normalized_name(b),
{
}

/// The "64-bit" suffix that CCRL appends to engine names is ignored: a name with no
/// white space at its ends, whose lower-case form does not itself end in "64-bit",
/// denotes the same engine as the name followed by " 64-bit".
pub proof fn lemma_bits_suffix_ignored(name: Seq<char>)
    requires
        name.len() == 0 || (!is_white_space(name[0]) && !is_white_space(name.last())),
        !ends_with(ascii_lower(name), BITS_SUFFIX@),
    ensures
        normalized_name(name + " 64-bit"@) == normalized_name(name),
{
    reveal_strlit(" 64-bit");
    reveal_strlit("64-bit");
    let x = ascii_lower(name);
    let tail = " 64-bit"@;
    assert(ascii_lower(name + tail) =~= x + tail);
    let lowered = x + tail;
    assert(lowered.skip(lowered.len() - BITS_SUFFIX@.len()) =~= BITS_SUFFIX@);
    assert(lowered.take(lowered.len() - BITS_SUFFIX@.len()) =~= x.push(' '));
    // The lower-case name keeps the ends free of white space.
    if x.len() > 0 {
        assert(x[0] == ascii_lower_char(name[0]));
        assert(x.last() == ascii_lower_char(name.last()));
    }
    assert(trim_start(x) == x);
    assert(trim_end(x) == x);
    assert(trim(x) == x);
    if x.len() > 0 {
        assert(trim_start(x.push(' ')) == x.push(' '));
    } else {
        assert(is_white_space(' '));
        assert(x.push(' ')[0] == ' ');
        assert(x.push(' ').drop_first() =~= Seq::<char>::empty());
        assert(trim_start(Seq::<char>::empty()) == Seq::<char>::empty());
        assert(trim_start(x.push(' ')) == Seq::<char>::empty());
    }
    assert(x.push(' ').drop_last() =~= x);
    assert(trim(x.push(' ')) == x);
}

/// A trailing version is ignored whatever the name's length: when the version pattern
/// takes `version` off the end of the lower-case name and finds nothing to take off the
/// bare name (a name ending in a letter, say), the name with the version and the name
/// without it denote the same engine.
pub proof fn lemma_version_ignored(name: Seq<char>, version: Seq<char>)
    requires
        name.len() == 0 || (!is_white_space(name[0]) && !is_white_space(name.last())),
        !ends_with(ascii_lower(name), BITS_SUFFIX@),
        !ends_with(ascii_lower(name + version), BITS_SUFFIX@),
        regex_replaced(VERSION_PATTERN@, ascii_lower(name) + ascii_lower(version), ""@) == ascii_lower(name),
        regex_replaced(VERSION_PATTERN@, ascii_lower(name), ""@) == ascii_lower(name),
    ensures
        normalized_name(name + version) == normalized_name(name),
{
    let x = ascii_lower(name);
    assert(ascii_lower(name + version) =~= x + ascii_lower(version));
    if x.len() > 0 {
        assert(x[0] == ascii_lower_char(name[0]));
        assert(x.last() == ascii_lower_char(name.last()));
    }
    assert(trim_start(x) == x);
    assert(trim_end(x) == x);
    assert(trim(x) == x);
}

/// The rooms named by the ids that ccrl.live lists: each id printed in decimal.
pub fn get_active_broadcasts(ids: &Vec<u64>) -> (r: Vec<CcrlLiveRoom>)
    ensures
        r.len() == ids.len(),
        forall|i: int| 0 <= i < ids.len() ==> #[trigger] r[i]@ == decimal(ids[i] as nat),
{
    let mut r: Vec<CcrlLiveRoom> = Vec::new();
    let mut i: usize = 0;
    while i < ids.len()
        invariant
            i <= ids.len(),
            r.len() == i,
            forall|k: int| 0 <= k < i ==> #[trigger] r[k]@ == decimal(ids[k] as nat),
        decreases ids.len() - i,
    {
        let code = string_from_chars(&decimal_chars(ids[i]));
        r.push(CcrlLiveRoom { code });
        i = i + 1;
    }
    r
}

/// How the answer to a PGN request is read.
#[derive(Debug, PartialEq, Eq)]
pub enum PgnResponse {
    /// A client or server error (4xx, 5xx): the fetch failed.
    HttpError,
    /// Any other status but 200 OK: the room has no game on.
    NoBroadcast,
    /// 200 OK: the body is the game's PGN.
    Pgn,
}

/// What the status of the answer to a room's PGN request means.
pub fn get_current_pgn(status: u16) -> (r: PgnResponse)
    ensures
        r == (if 400 <= status < 600 {
            PgnResponse::HttpError
        } else if status != 200 {
            PgnResponse::NoBroadcast
        } else {
            PgnResponse::Pgn
        }),
{
    if 400 <= status && status < 600 {
        PgnResponse::HttpError
    } else if status != 200 {
        PgnResponse::NoBroadcast
    } else {
        PgnResponse::Pgn
    }
}

/// What fetching one room's PGN gave.
pub enum PgnFetch<G> {
    /// The fetch failed; the text describes the error.
    Failed(String),
    /// The room has no game on.
    NoBroadcast,
    /// The game, and whether it has left the opening book.
    Fetched(G, bool),
}

/// The games that count as started, and the warnings raised on the way.
pub struct CurrentGames<G> {
    pub games: Vec<(CcrlLiveRoom, G)>,
    pub warnings: Vec<String>,
}

/// The warning for a room whose PGN could not be fetched.
pub open spec fn fetch_warning(code: Seq<char>, error: Seq<char>) -> Seq<char> {
    "Unable to fetch PGN for room "@ + code + ": "@ + error
}

/// The games that are out of book, with their rooms, in order.
pub open spec fn started_games<G>(fetched: Seq<(CcrlLiveRoom, PgnFetch<G>)>) -> Seq<(Seq<char>, G)>
    decreases fetched.len(),
{
    if fetched.len() == 0 {
        Seq::empty()
    } else {
        let rest = started_games(fetched.drop_last());
        match fetched.last().1 {
            PgnFetch::Fetched(g, out_of_book) => if out_of_book {
                rest.push((fetched.last().0@, g))
            } else {
                rest
            },
            _ => rest,
        }
    }
}

/// A warning for every failed fetch, in order.
pub open spec fn fetch_warnings<G>(fetched: Seq<(CcrlLiveRoom, PgnFetch<G>)>) -> Seq<Seq<char>>
    decreases fetched.len(),
{
    if fetched.len() == 0 {
        Seq::empty()
    } else {
        let rest = fetch_warnings(fetched.drop_last());
        match fetched.last().1 {
            PgnFetch::Failed(e) => rest.push(fetch_warning(fetched.last().0@, e@)),
            _ => rest,
        }
    }
}

/// The game of a fetch outcome that counts as started: a fetched game out of book.
pub open spec fn kept_game<G>(f: PgnFetch<G>) -> Option<G> {
    match f {
        PgnFetch::Fetched(g, out_of_book) => if out_of_book {
            Some(g)
        } else {
            None
        },
        _ => None,
    }
}

/// The rooms whose fetched game counts as started.
pub open spec fn out_of_book_room<G>() -> spec_fn((CcrlLiveRoom, PgnFetch<G>)) -> bool {
    |p: (CcrlLiveRoom, PgnFetch<G>)| kept_game(p.1) is Some
}

/// The started games are the fetched out-of-book games, every one, in room order.
proof fn lemma_started_games_are_filtered<G>(fetched: Seq<(CcrlLiveRoom, PgnFetch<G>)>)
    ensures
        started_games(fetched) == fetched.filter(out_of_book_room()).map_values(
            |p: (CcrlLiveRoom, PgnFetch<G>)| (p.0@, kept_game(p.1)->0),
        ),
    decreases fetched.len(),
{
    let f = |p: (CcrlLiveRoom, PgnFetch<G>)| (p.0@, kept_game(p.1)->0);
    if fetched.len() == 0 {
        reveal(Seq::filter);
        assert(fetched.filter(out_of_book_room()) =~= Seq::<(CcrlLiveRoom, PgnFetch<G>)>::empty());
        assert(fetched.filter(out_of_book_room()).map_values(f) =~= Seq::<(Seq<char>, G)>::empty());
    } else {
        let init = fetched.drop_last();
        lemma_started_games_are_filtered(init);
        assert(init.push(fetched.last()) =~= fetched);
        init.lemma_filter_push(fetched.last(), out_of_book_room());
        let fi = init.filter(out_of_book_room());
        if kept_game(fetched.last().1) is Some {
            assert(fi.push(fetched.last()).map_values(f) =~= fi.map_values(f).push(f(fetched.last())));
        }
    }
}

/// Every fetched game that is out of book is kept, with its room, and nothing else is:
/// as many games come out as outcomes were out-of-book games.
pub proof fn lemma_every_started_game_kept<G>(fetched: Seq<(CcrlLiveRoom, PgnFetch<G>)>, i: int)
    ensures
        started_games(fetched).len() == fetched.filter(out_of_book_room()).len(),
        0 <= i < fetched.len() && kept_game(fetched[i].1) is Some ==> started_games(fetched).contains(
            (fetched[i].0@, kept_game(fetched[i].1)->0),
        ),
{
    lemma_started_games_are_filtered(fetched);
    let fl = fetched.filter(out_of_book_room());
    let f = |p: (CcrlLiveRoom, PgnFetch<G>)| (p.0@, kept_game(p.1)->0);
    if 0 <= i < fetched.len() && kept_game(fetched[i].1) is Some {
        fetched.lemma_filter_contains(out_of_book_room(), i);
        assert(fl.contains(fetched[i]));
        let j = choose|j: int| 0 <= j < fl.len() && fl[j] == fetched[i];
        assert(fl.map_values(f)[j] == f(fetched[i]));
    }
}

/// The error of a fetch outcome that failed.
pub open spec fn fetch_error<G>(f: PgnFetch<G>) -> Option<Seq<char>> {
    match f {
        PgnFetch::Failed(e) => Some(e@),
        _ => None,
    }
}

/// The rooms whose fetch failed.
pub open spec fn failed_room<G>() -> spec_fn((CcrlLiveRoom, PgnFetch<G>)) -> bool {
    |p: (CcrlLiveRoom, PgnFetch<G>)| fetch_error(p.1) is Some
}

proof fn lemma_warnings_are_filtered<G>(fetched: Seq<(CcrlLiveRoom, PgnFetch<G>)>)
    ensures
        fetch_warnings(fetched) == fetched.filter(failed_room()).map_values(
            |p: (CcrlLiveRoom, PgnFetch<G>)| fetch_warning(p.0@, fetch_error(p.1)->0),
        ),
    decreases fetched.len(),
{
    let f = |p: (CcrlLiveRoom, PgnFetch<G>)| fetch_warning(p.0@, fetch_error(p.1)->0);
    if fetched.len() == 0 {
        reveal(Seq::filter);
        assert(fetched.filter(failed_room()) =~= Seq::<(CcrlLiveRoom, PgnFetch<G>)>::empty());
        assert(fetched.filter(failed_room()).map_values(f) =~= Seq::<Seq<char>>::empty());
    } else {
        let init = fetched.drop_last();
        lemma_warnings_are_filtered(init);
        assert(init.push(fetched.last()) =~= fetched);
        init.lemma_filter_push(fetched.last(), failed_room());
        let fi = init.filter(failed_room());
        if fetch_error(fetched.last().1) is Some {
            assert(fi.push(fetched.last()).map_values(f) =~= fi.map_values(f).push(f(fetched.last())));
        }
    }
}

/// Every failed fetch gives a warning naming its room and its error, and nothing else
/// does: there are as many warnings as failed fetches.
pub proof fn lemma_every_failure_warned<G>(fetched: Seq<(CcrlLiveRoom, PgnFetch<G>)>, i: int)
    ensures
        fetch_warnings(fetched).len() == fetched.filter(failed_room()).len(),
        0 <= i < fetched.len() && fetch_error(fetched[i].1) is Some ==> fetch_warnings(fetched).contains(
            "Unable to fetch PGN for room "@ + fetched[i].0@ + ": "@ + fetch_error(fetched[i].1)->0,
        ),
{
    lemma_warnings_are_filtered(fetched);
    let fl = fetched.filter(failed_room());
    let f = |p: (CcrlLiveRoom, PgnFetch<G>)| fetch_warning(p.0@, fetch_error(p.1)->0);
    if 0 <= i < fetched.len() && fetch_error(fetched[i].1) is Some {
        fetched.lemma_filter_contains(failed_room(), i);
        let j = choose|j: int| 0 <= j < fl.len() && fl[j] == fetched[i];
        assert(fl.map_values(f)[j] == f(fetched[i]));
    }
}

/// From the PGN fetched for each live room, keeps the games that have left the opening
/// book (a game still in book cannot be hashed yet); a failed fetch gives a warning,
/// a room without a game is passed over.
pub fn get_current_games<G>(fetched: Vec<(CcrlLiveRoom, PgnFetch<G>)>) -> (r: CurrentGames<G>)
    ensures
        r.games@.map_values(|p: (CcrlLiveRoom, G)| (p.0@, p.1)) == started_games(fetched@),
        r.warnings@.map_values(|w: String| w@) == fetch_warnings(fetched@),
{
    let ghost all = fetched@;
    let mut fetched = fetched;
    let mut games: Vec<(CcrlLiveRoom, G)> = Vec::new();
    let mut warnings: Vec<String> = Vec::new();
    let n = fetched.len();
    let mut i: usize = 0;
    while fetched.len() > 0
        invariant
            i + fetched.len() == n,
            n == all.len(),
            fetched@ == all.skip(i as int),
            games@.map_values(|p: (CcrlLiveRoom, G)| (p.0@, p.1)) == started_games(all.take(i as int)),
            warnings@.map_values(|w: String| w@) == fetch_warnings(all.take(i as int)),
        decreases fetched.len(),
    {
        let ghost before = fetched@;
        let (room, outcome) = fetched.remove(0);
        proof {
            assert(all.take(i + 1).drop_last() =~= all.take(i as int));
            assert(all.take(i + 1).last() == before[0]);
            assert(fetched@ =~= all.skip(i + 1));
        }
        let ghost g0 = games@.map_values(|p: (CcrlLiveRoom, G)| (p.0@, p.1));
        let ghost w0 = warnings@.map_values(|w: String| w@);
        match outcome {
            PgnFetch::Failed(e) => {
                let mut w = String::new();
                w.append("Unable to fetch PGN for room ");
                w.append(room.code.as_str());
                w.append(": ");
                w.append(e.as_str());
                warnings.push(w);
                assert(warnings@.map_values(|w: String| w@) =~= w0.push(fetch_warning(room@, e@)));
                assert(games@.map_values(|p: (CcrlLiveRoom, G)| (p.0@, p.1)) =~= g0);
            },
            PgnFetch::NoBroadcast => {
                assert(warnings@.map_values(|w: String| w@) =~= w0);
                assert(games@.map_values(|p: (CcrlLiveRoom, G)| (p.0@, p.1)) =~= g0);
            },
            PgnFetch::Fetched(g, out_of_book) => {
                if out_of_book {
                    let ghost rv = room@;
                    let ghost gv = g;
                    games.push((room, g));
                    assert(games@.map_values(|p: (CcrlLiveRoom, G)| (p.0@, p.1)) =~= g0.push((rv, gv)));
                } else {
                    assert(games@.map_values(|p: (CcrlLiveRoom, G)| (p.0@, p.1)) =~= g0);
                }
                assert(warnings@.map_values(|w: String| w@) =~= w0);
            },
        }
        i = i + 1;
    }
    assert(all.take(n as int) =~= all);
    CurrentGames { games, warnings }
}

} // verus!
