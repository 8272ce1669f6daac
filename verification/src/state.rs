//! The games already seen, as a set of game hashes kept in a state file with one
//! decimal hash per line. The library reads the file's text and says what line to
//! append; the program around it does the file I/O.
use vstd::prelude::*;
use std::collections::HashSet;
use crate::text::{
    chars_of, decimal, decimal_chars, lemma_newline_index_bound, lemma_parse_decimal, lines,
    newline_index, parse_u64, parse_u64_chars, split_lines, string_from_chars,
};

verus! {

broadcast use vstd::std_specs::hash::group_hash_axioms;

/// Every line of a state file is a number.
pub open spec fn all_lines_parse(contents: Seq<char>) -> bool {
    forall|i: int| 0 <= i < lines(contents).len() ==> (#[trigger] parse_u64(lines(contents)[i])) is Some
}

/// The hashes a state file records: the numbers on its lines.
pub open spec fn recorded(contents: Seq<char>) -> Set<u64> {
    Set::new(|h: u64| exists|i: int| 0 <= i < lines(contents).len() && #[trigger] parse_u64(lines(contents)[i]) == Some(h))
}

/// The line that records `hash`.
pub open spec fn state_line(hash: u64) -> Seq<char> {
    decimal(hash as nat) + "\n"@
}

/// The hashes of the games already seen.
pub struct SeenGames {
    state: HashSet<u64>,
}

impl View for SeenGames {
    type V = Set<u64>;

    closed spec fn view(&self) -> Set<u64> {
        self.state@
    }
}

impl SeenGames {
    /// The games recorded in a state file's text, every line of which is a number.
    pub fn load(contents: &str) -> (r: SeenGames)
        requires
            all_lines_parse(contents@),
        ensures
            r@ == recorded(contents@),
    {
        match Self::try_load(contents) {
            Some(g) => g,
            None => {
                assert(false);
                SeenGames { state: HashSet::new() }
            },
        }
    }

    /// `load`, after checking that every line is a number; `None` when one is not (a
    /// corrupt state file).
    pub fn try_load(contents: &str) -> (r: Option<SeenGames>)
        ensures
            r is Some <==> all_lines_parse(contents@),
            r matches Some(g) ==> g@ == recorded(contents@),
    {
        let ls = split_lines(&chars_of(contents));
        let ghost lv = lines(contents@);
        assert(ls@.map_values(|l: Vec<char>| l@) == lv);
        assert(ls@.len() == lv.len());
        let mut state: HashSet<u64> = HashSet::new();
        let mut i: usize = 0;
        while i < ls.len()
            invariant
                i <= ls.len(),
                lv == lines(contents@),
                ls@.len() == lv.len(),
                forall|k: int| 0 <= k < ls@.len() ==> #[trigger] ls@[k]@ == lv[k],
                forall|k: int| 0 <= k < i ==> (#[trigger] parse_u64(lv[k])) is Some,
                forall|h: u64| state@.contains(h) <==> exists|k: int| 0 <= k < i && #[trigger] parse_u64(lv[k]) == Some(h),
            decreases ls.len() - i,
        {
            assert(ls@[i as int]@ == lv[i as int]);
            match parse_u64_chars(&ls[i]) {
                Some(h) => {
                    state.insert(h);
                    assert forall|x: u64| state@.contains(x) <==> exists|k: int| 0 <= k < i + 1 && #[trigger] parse_u64(lv[k]) == Some(x) by {
                        if x == h {
                            assert(parse_u64(lv[i as int]) == Some(x));
                        }
                    }
                },
                None => {
                    assert(parse_u64(lines(contents@)[i as int]) is None);
                    assert(!all_lines_parse(contents@));
                    return None;
                },
            }
            i = i + 1;
        }
        let g = SeenGames { state };
        assert(g@ =~= recorded(contents@));
        Some(g)
    }

    /// Whether the game with this hash was seen.
    pub fn contains(&self, hash: u64) -> (r: bool)
        ensures
            r == self@.contains(hash),
    {
        self.state.contains(&hash)
    }

    /// Records the game with this hash; returns the line to append to the state file.
    pub fn add(&mut self, hash: u64) -> (r: String)
        ensures
            final(self)@ == old(self)@.insert(hash),
            r@ == state_line(hash),
    {
        self.state.insert(hash);
        let mut line = string_from_chars(&decimal_chars(hash));
        line.append("\n");
        line
    }
}

/// The first line break of `a + b` is that of `a`, when `a` has one.
proof fn lemma_newline_index_append(a: Seq<char>, b: Seq<char>)
    requires
        newline_index(a) >= 0,
    ensures
        newline_index(a + b) == newline_index(a),
    decreases a.len(),
{
    lemma_newline_index_bound(a);
    if a[0] != '\n' {
        assert((a + b).drop_first() =~= a.drop_first() + b);
        lemma_newline_index_append(a.drop_first(), b);
    }
}

/// The lines of a text that ends with a line break, followed by more text, are the
/// lines of the first text, then those of the second.
pub proof fn lemma_lines_append(a: Seq<char>, b: Seq<char>)
    requires
        a.len() == 0 || a.last() == '\n',
    ensures
        lines(a + b) == lines(a) + lines(b),
    decreases a.len(),
{
    if a.len() == 0 {
        assert(a + b =~= b);
        assert(lines(a) =~= Seq::<Seq<char>>::empty());
        assert(lines(a) + lines(b) =~= lines(b));
    } else {
        lemma_newline_index_bound(a);
        if newline_index(a) < 0 {
            // `a` ends with '\n', so it has a line break.
            lemma_no_newline(a);
        }
        let i = newline_index(a);
        lemma_newline_index_append(a, b);
        let rest = a.skip(i + 1);
        assert((a + b).take(i) =~= a.take(i));
        assert((a + b).skip(i + 1) =~= rest + b);
        lemma_lines_append(rest, b);
        assert(rest.len() == 0 || rest.last() == a.last());
        assert(lines(a + b) =~= lines(a) + lines(b));
    }
}

/// A text without a line break has no '\n' in it.
proof fn lemma_no_newline(a: Seq<char>)
    requires
        newline_index(a) < 0,
    ensures
        forall|k: int| 0 <= k < a.len() ==> a[k] != '\n',
    decreases a.len(),
{
    if a.len() > 0 {
        lemma_no_newline(a.drop_first());
        assert forall|k: int| 0 <= k < a.len() implies a[k] != '\n' by {
            if k > 0 {
                assert(a[k] == a.drop_first()[k - 1]);
            }
        }
    }
}

/// The decimal digits of a number hold no line break or carriage return.
proof fn lemma_decimal_plain(n: nat)
    ensures
        decimal(n).len() > 0,
        forall|k: int| 0 <= k < decimal(n).len() ==> '0' <= #[trigger] decimal(n)[k] <= '9',
    decreases n,
{
    if n >= 10 {
        lemma_decimal_plain(n / 10);
        assert forall|k: int| 0 <= k < decimal(n).len() implies '0' <= #[trigger] decimal(n)[k] <= '9' by {
            if k < decimal(n / 10).len() {
                assert(decimal(n)[k] == decimal(n / 10)[k]);
            }
        }
    }
}

/// The line that records a hash is one line, the hash's digits.
proof fn lemma_state_line(hash: u64)
    ensures
        lines(state_line(hash)) == seq![decimal(hash as nat)],
{
    reveal_strlit("\n");
    let d = decimal(hash as nat);
    let s = state_line(hash);
    lemma_decimal_plain(hash as nat);
    lemma_newline_index_bound(s);
    assert(s[d.len() as int] == '\n');
    lemma_newline_exact(s, d.len() as int);
    assert(s.take(d.len() as int) =~= d);
    assert(s.skip(d.len() as int + 1) =~= Seq::<char>::empty());
    assert(lines(s.skip(d.len() as int + 1)) =~= Seq::<Seq<char>>::empty());
    assert(d.last() != '\r');
    assert(lines(s) =~= seq![d]);
}

proof fn lemma_newline_exact(s: Seq<char>, j: int)
    requires
        0 <= j < s.len(),
        forall|k: int| 0 <= k < j ==> s[k] != '\n',
        s[j] == '\n',
    ensures
        newline_index(s) == j,
    decreases j,
{
    if j > 0 {
        lemma_newline_exact(s.drop_first(), j - 1);
    }
}

/// Appending the line that `add` returns to a state file makes the file record that
/// hash besides those it recorded: what one run writes, the next run reads back.
pub proof fn lemma_reload_after_add(contents: Seq<char>, hash: u64)
    requires
        all_lines_parse(contents),
        contents.len() == 0 || contents.last() == '\n',
    ensures
        all_lines_parse(contents + state_line(hash)),
        recorded(contents + state_line(hash)) == recorded(contents).insert(hash),
{
    let after = contents + state_line(hash);
    lemma_lines_append(contents, state_line(hash));
    lemma_state_line(hash);
    lemma_parse_decimal(hash);
    let la = lines(after);
    let lc = lines(contents);
    assert(la == lc.push(decimal(hash as nat)));
    assert forall|i: int| 0 <= i < la.len() implies (#[trigger] parse_u64(la[i])) is Some by {
        if i < lc.len() {
            assert(la[i] == lc[i]);
        }
    }
    assert forall|h: u64| recorded(after).contains(h) <==> recorded(contents).insert(hash).contains(h) by {
        if recorded(after).contains(h) {
            let i = choose|i: int| 0 <= i < la.len() && #[trigger] parse_u64(la[i]) == Some(h);
            if i < lc.len() {
                assert(la[i] == lc[i]);
            }
        }
        if recorded(contents).contains(h) {
            let i = choose|i: int| 0 <= i < lc.len() && #[trigger] parse_u64(lc[i]) == Some(h);
            assert(la[i] == lc[i]);
        }
        if h == hash {
            assert(parse_u64(la[lc.len() as int]) == Some(h));
        }
    }
    assert(recorded(after) =~= recorded(contents).insert(hash));
}

} // verus!
