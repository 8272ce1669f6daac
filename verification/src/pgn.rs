//! What the notifiers read from a game's PGN: the values of its tag pairs, how many
//! moves have been played, and how many of them came from the opening book (the
//! broadcasts mark those with a `{book}` comment).
use vstd::prelude::*;
use crate::text::{
    chars_of, is_white_space, lines, split_lines, string_from_chars, trim, trim_chars, trim_end,
    trim_start,
};

verus! {

/// The value of a tag pair line `[name "value"]`, white space around it allowed.
pub open spec fn tag_line_value(line: Seq<char>, name: Seq<char>) -> Option<Seq<char>> {
    let t = trim(line);
    let open = "["@ + name + " \""@;
    if t.len() >= open.len() + 2 && t.take(open.len() as int) == open && t.skip(t.len() - 2)
        == "\"]"@ {
        Some(t.subrange(open.len() as int, t.len() - 2))
    } else {
        None
    }
}

/// The value of the first of the lines that is a tag pair for `name`.
pub open spec fn first_tag(ls: Seq<Seq<char>>, name: Seq<char>) -> Option<Seq<char>>
    decreases ls.len(),
{
    if ls.len() == 0 {
        None
    } else {
        match tag_line_value(ls[0], name) {
            Some(v) => Some(v),
            None => first_tag(ls.drop_first(), name),
        }
    }
}

/// Whether `s` starts with `prefix`.
fn starts_with_chars(s: &Vec<char>, prefix: &Vec<char>) -> (r: bool)
    ensures
        r == (prefix@.len() <= s@.len() && s@.take(prefix@.len() as int) == prefix@),
{
    if prefix.len() > s.len() {
        return false;
    }
    let mut i: usize = 0;
    while i < prefix.len()
        invariant
            prefix.len() <= s.len(),
            i <= prefix.len(),
            s@.take(i as int) == prefix@.take(i as int),
        decreases prefix.len() - i,
    {
        if s[i] != prefix[i] {
            assert(s@.take(prefix@.len() as int)[i as int] != prefix@[i as int]);
            return false;
        }
        assert(s@.take(i + 1) =~= s@.take(i as int).push(s@[i as int]));
        assert(prefix@.take(i + 1) =~= prefix@.take(i as int).push(prefix@[i as int]));
        i = i + 1;
    }
    assert(prefix@.take(i as int) =~= prefix@);
    true
}

/// The characters of `s` from `start` up to `end`.
fn slice_chars(s: &Vec<char>, start: usize, end: usize) -> (r: Vec<char>)
    requires
        start <= end <= s.len(),
    ensures
        r@ == s@.subrange(start as int, end as int),
{
    let mut r: Vec<char> = Vec::new();
    let mut i: usize = start;
    while i < end
        invariant
            start <= i <= end,
            end <= s.len(),
            r@ == s@.subrange(start as int, i as int),
        decreases end - i,
    {
        r.push(s[i]);
        assert(s@.subrange(start as int, i + 1) =~= s@.subrange(start as int, i as int).push(
            s@[i as int],
        ));
        i = i + 1;
    }
    r
}

/// The value of the first tag pair line for `name` in `pgn`, if there is one.
pub fn tag_value(pgn: &str, name: &str) -> (r: Option<String>)
    ensures
        r is Some <==> first_tag(lines(pgn@), name@) is Some,
        r matches Some(v) ==> first_tag(lines(pgn@), name@) == Some(v@),
{
    let ls = split_lines(&chars_of(pgn));
    let ghost lv = lines(pgn@);
    let mut open: Vec<char> = chars_of("[");
    let name_chars = chars_of(name);
    let mut k: usize = 0;
    while k < name_chars.len()
        invariant
            k <= name_chars.len(),
            name_chars@ == name@,
            open@ == "["@ + name@.take(k as int),
        decreases name_chars.len() - k,
    {
        open.push(name_chars[k]);
        assert(name@.take(k + 1) =~= name@.take(k as int).push(name@[k as int]));
        assert(open@ =~= "["@ + name@.take(k + 1));
        k = k + 1;
    }
    assert(name@.take(k as int) =~= name@);
    open.push(' ');
    open.push('"');
    proof {
        reveal_strlit(" \"");
    }
    assert(open@ =~= "["@ + name@ + " \""@);
    let mut i: usize = 0;
    assert(lv.skip(0) =~= lv);
    while i < ls.len()
        invariant
            i <= ls.len(),
            lv == lines(pgn@),
            ls@.map_values(|l: Vec<char>| l@) == lv,
            open@ == "["@ + name@ + " \""@,
            first_tag(lv, name@) == first_tag(lv.skip(i as int), name@),
        decreases ls.len() - i,
    {
        let ghost rest = lv.skip(i as int);
        assert(rest[0] == ls@[i as int]@);
        assert(rest.drop_first() =~= lv.skip(i + 1));
        let t = trim_chars(&ls[i]);
        let n = t.len();
        proof {
            reveal_strlit("\"]");
        }
        if n >= 2 && n - 2 >= open.len() && starts_with_chars(&t, &open) && t[n - 2] == '"' && t[n - 1] == ']' {
            assert(t@.skip(n - 2) =~= "\"]"@);
            let value = slice_chars(&t, open.len(), n - 2);
            return Some(string_from_chars(&value));
        }
        proof {
            if n >= open.len() + 2 && t@.take(open@.len() as int) == open@ && t@.skip(n - 2) == "\"]"@ {
                assert(t@.skip(n - 2)[0] == t@[n - 2]);
                assert(t@.skip(n - 2)[1] == t@[n - 1]);
            }
        }
        i = i + 1;
    }
    None
}

/// Where the scan of a PGN stands after some of its characters.
pub struct ScanState {
    /// Inside a tag pair `[...]`.
    pub in_tag: bool,
    /// Inside a comment `{...}`, with the comment's text so far.
    pub in_comment: bool,
    pub comment: Seq<char>,
    /// The last character read ends a token (or nothing has been read).
    pub at_boundary: bool,
    /// Moves read so far: tokens of the move text that begin with a letter (move
    /// numbers, results and annotations do not).
    pub moves: nat,
    /// `{book}` comments read so far.
    pub book: nat,
}

/// The state before the first character.
pub open spec fn scan_start() -> ScanState {
    ScanState { in_tag: false, in_comment: false, comment: Seq::empty(), at_boundary: true, moves: 0, book: 0 }
}

/// An ASCII letter.
pub open spec fn is_ascii_letter(c: char) -> bool {
    ('a' <= c && c <= 'z') || ('A' <= c && c <= 'Z')
}

/// One character of the scan.
pub open spec fn scan_step(st: ScanState, c: char) -> ScanState {
    if st.in_comment {
        if c == '}' {
            ScanState {
                in_comment: false,
                comment: Seq::empty(),
                at_boundary: true,
                book: if trim(st.comment) == "book"@ {
                    st.book + 1
                } else {
                    st.book
                },
                ..st
            }
        } else {
            ScanState { comment: st.comment.push(c), ..st }
        }
    } else if st.in_tag {
        if c == ']' {
            ScanState { in_tag: false, at_boundary: true, ..st }
        } else {
            st
        }
    } else if c == '{' {
        ScanState { in_comment: true, comment: Seq::empty(), at_boundary: true, ..st }
    } else if c == '[' {
        ScanState { in_tag: true, at_boundary: true, ..st }
    } else if is_white_space(c) {
        ScanState { at_boundary: true, ..st }
    } else if st.at_boundary && is_ascii_letter(c) {
        ScanState { at_boundary: false, moves: st.moves + 1, ..st }
    } else {
        ScanState { at_boundary: false, ..st }
    }
}

/// The state after the first `n` characters of `s`.
pub open spec fn scan_prefix(s: Seq<char>, n: nat) -> ScanState
    decreases n,
{
    if n == 0 || n > s.len() {
        scan_start()
    } else {
        scan_step(scan_prefix(s, (n - 1) as nat), s[n - 1])
    }
}

/// The state after all of `s`.
pub open spec fn scan(s: Seq<char>) -> ScanState {
    scan_prefix(s, s.len())
}

/// How many moves the PGN records, and how many of them are marked `{book}`.
pub struct MoveCounts {
    pub plies: u64,
    pub book_moves: u64,
}

/// Counts the moves of a PGN and those marked as book moves.
pub fn count_moves(pgn: &str) -> (r: MoveCounts)
    ensures
        r.plies == scan(pgn@).moves,
        r.book_moves == scan(pgn@).book,
{
    let s = chars_of(pgn);
    let mut in_tag = false;
    let mut in_comment = false;
    let mut comment: Vec<char> = Vec::new();
    let mut at_boundary = true;
    let mut moves: u64 = 0;
    let mut book: u64 = 0;
    let mut i: usize = 0;
    while i < s.len()
        invariant
            s@ == pgn@,
            i <= s.len(),
            moves <= i,
            book <= i,
            scan_prefix(s@, i as nat) == (ScanState {
                in_tag,
                in_comment,
                comment: comment@,
                at_boundary,
                moves: moves as nat,
                book: book as nat,
            }),
        decreases s.len() - i,
    {
        let c = s[i];
        proof {
            reveal_strlit("book");
        }
        if in_comment {
            if c == '}' {
                let t = trim_chars(&comment);
                if t.len() == 4 && t[0] == 'b' && t[1] == 'o' && t[2] == 'o' && t[3] == 'k' {
                    assert(t@ =~= "book"@);
                    book = book + 1;
                } else {
                    proof {
                        if t@ == "book"@ {
                            assert(t@[0] == 'b' && t@[1] == 'o' && t@[2] == 'o' && t@[3] == 'k');
                        }
                    }
                }
                in_comment = false;
                comment = Vec::new();
                at_boundary = true;
            } else {
                comment.push(c);
            }
        } else if in_tag {
            if c == ']' {
                in_tag = false;
                at_boundary = true;
            }
        } else if c == '{' {
            in_comment = true;
            comment = Vec::new();
            at_boundary = true;
        } else if c == '[' {
            in_tag = true;
            at_boundary = true;
        } else if crate::text::white_space(c) {
            at_boundary = true;
        } else if at_boundary && (('a' <= c && c <= 'z') || ('A' <= c && c <= 'Z')) {
            at_boundary = false;
            moves = moves + 1;
        } else {
            at_boundary = false;
        }
        i = i + 1;
        assert(scan_prefix(s@, i as nat) == scan_step(scan_prefix(s@, (i - 1) as nat), c));
        assert(comment@ =~= scan_prefix(s@, i as nat).comment);
    }
    MoveCounts { plies: moves, book_moves: book }
}

/// Two texts alike but that, where one has white space, the other may have other white
/// space (a line break for a space, say).
pub open spec fn same_but_white_space(a: Seq<char>, b: Seq<char>) -> bool {
    a.len() == b.len() && forall|k: int|
        0 <= k < a.len() ==> (#[trigger] a[k] == b[k] || (is_white_space(a[k]) && is_white_space(b[k])))
}

proof fn lemma_trim_start_alike(a: Seq<char>, b: Seq<char>)
    requires
        same_but_white_space(a, b),
    ensures
        same_but_white_space(trim_start(a), trim_start(b)),
    decreases a.len(),
{
    if a.len() > 0 && is_white_space(a[0]) {
        assert(same_but_white_space(a.drop_first(), b.drop_first())) by {
            assert forall|k: int| 0 <= k < a.len() - 1 implies #[trigger] a.drop_first()[k] == b.drop_first()[k]
                || (is_white_space(a.drop_first()[k]) && is_white_space(b.drop_first()[k])) by {
                assert(a.drop_first()[k] == a[k + 1]);
                assert(b.drop_first()[k] == b[k + 1]);
            }
        }
        lemma_trim_start_alike(a.drop_first(), b.drop_first());
    } else if a.len() > 0 {
        assert(a[0] == b[0]);
    }
}

proof fn lemma_trim_end_alike(a: Seq<char>, b: Seq<char>)
    requires
        same_but_white_space(a, b),
    ensures
        same_but_white_space(trim_end(a), trim_end(b)),
    decreases a.len(),
{
    if a.len() > 0 && is_white_space(a.last()) {
        assert(same_but_white_space(a.drop_last(), b.drop_last())) by {
            assert forall|k: int| 0 <= k < a.len() - 1 implies #[trigger] a.drop_last()[k] == b.drop_last()[k]
                || (is_white_space(a.drop_last()[k]) && is_white_space(b.drop_last()[k])) by {
                assert(a.drop_last()[k] == a[k]);
            }
        }
        lemma_trim_end_alike(a.drop_last(), b.drop_last());
    } else if a.len() > 0 {
        assert(a[a.len() - 1] == b[b.len() - 1]);
    }
}

/// A comment is `{book}` whatever white space surrounds the word.
proof fn lemma_book_comment_alike(a: Seq<char>, b: Seq<char>)
    requires
        same_but_white_space(a, b),
    ensures
        (trim(a) == "book"@) == (trim(b) == "book"@),
{
    reveal_strlit("book");
    lemma_trim_start_alike(a, b);
    lemma_trim_end_alike(trim_start(a), trim_start(b));
    let ta = trim(a);
    let tb = trim(b);
    assert(!is_white_space('b') && !is_white_space('o') && !is_white_space('k'));
    if ta == "book"@ {
        assert forall|k: int| 0 <= k < 4 implies tb[k] == ta[k] by {
            assert(ta[k] == tb[k] || (is_white_space(ta[k]) && is_white_space(tb[k])));
        }
        assert(tb =~= "book"@);
    }
    if tb == "book"@ {
        assert forall|k: int| 0 <= k < 4 implies ta[k] == tb[k] by {
            assert(ta[k] == tb[k] || (is_white_space(ta[k]) && is_white_space(tb[k])));
        }
        assert(ta =~= "book"@);
    }
}

/// Scan states alike but for white space in the comment being read.
spec fn states_alike(x: ScanState, y: ScanState) -> bool {
    &&& x.in_tag == y.in_tag
    &&& x.in_comment == y.in_comment
    &&& same_but_white_space(x.comment, y.comment)
    &&& x.at_boundary == y.at_boundary
    &&& x.moves == y.moves
    &&& x.book == y.book
}

proof fn lemma_step_alike(x: ScanState, y: ScanState, c: char, d: char)
    requires
        states_alike(x, y),
        c == d || (is_white_space(c) && is_white_space(d)),
    ensures
        states_alike(scan_step(x, c), scan_step(y, d)),
{
    assert(!is_white_space('}') && !is_white_space(']') && !is_white_space('{') && !is_white_space('['));
    if x.in_comment {
        if c == '}' {
            lemma_book_comment_alike(x.comment, y.comment);
            assert(same_but_white_space(Seq::<char>::empty(), Seq::<char>::empty()));
        } else {
            let ca = x.comment.push(c);
            let cb = y.comment.push(d);
            assert forall|k: int| 0 <= k < ca.len() implies #[trigger] ca[k] == cb[k] || (is_white_space(ca[k])
                && is_white_space(cb[k])) by {
                if k < x.comment.len() {
                    assert(ca[k] == x.comment[k] && cb[k] == y.comment[k]);
                }
            }
        }
    } else {
        assert(same_but_white_space(Seq::<char>::empty(), Seq::<char>::empty()));
    }
}

/// The move counts do not depend on which white space separates the tokens: a text
/// where line breaks (or any white space) stand for spaces, or the other way round,
/// has the same moves and book moves.
pub proof fn lemma_counts_ignore_white_space_kind(a: Seq<char>, b: Seq<char>)
    requires
        same_but_white_space(a, b),
    ensures
        scan(a).moves == scan(b).moves,
        scan(a).book == scan(b).book,
{
    lemma_prefix_alike(a, b, a.len());
}

proof fn lemma_prefix_alike(a: Seq<char>, b: Seq<char>, n: nat)
    requires
        same_but_white_space(a, b),
        n <= a.len(),
    ensures
        states_alike(scan_prefix(a, n), scan_prefix(b, n)),
    decreases n,
{
    if n == 0 {
        assert(same_but_white_space(Seq::<char>::empty(), Seq::<char>::empty()));
    } else {
        lemma_prefix_alike(a, b, (n - 1) as nat);
        assert(a[n - 1] == b[n - 1] || (is_white_space(a[n - 1]) && is_white_space(b[n - 1])));
        lemma_step_alike(scan_prefix(a, (n - 1) as nat), scan_prefix(b, (n - 1) as nat), a[n - 1], b[n - 1]);
    }
}

/// Putting one white-space character for another, such as a line break for a space
/// between two moves, changes neither count.
pub proof fn lemma_counts_keep_on_white_space_swap(s: Seq<char>, i: int, c: char)
    requires
        0 <= i < s.len(),
        is_white_space(s[i]),
        is_white_space(c),
    ensures
        scan(s.update(i, c)).moves == scan(s).moves,
        scan(s.update(i, c)).book == scan(s).book,
{
    let t = s.update(i, c);
    assert forall|k: int| 0 <= k < s.len() implies #[trigger] s[k] == t[k] || (is_white_space(s[k]) && is_white_space(t[k])) by {}
    lemma_counts_ignore_white_space_kind(s, t);
}

/// Scanning a text and then more text starts from where the first text left off.
proof fn lemma_scan_prefix_of_longer(s: Seq<char>, t: Seq<char>, n: nat)
    requires
        n <= s.len(),
    ensures
        scan_prefix(s + t, n) == scan_prefix(s, n),
    decreases n,
{
    if n > 0 {
        lemma_scan_prefix_of_longer(s, t, (n - 1) as nat);
        assert((s + t)[n - 1] == s[n - 1]);
    }
}

/// Outside tags and comments, a further token after a space is one more move exactly
/// when it begins with a letter (a move number such as "12." or a result is none), and
/// a further `{book}` comment is one more book move.
pub proof fn lemma_next_token_counts(s: Seq<char>, first: char)
    requires
        !scan(s).in_tag,
        !scan(s).in_comment,
    ensures
        scan(s + seq![' ', first]).moves == scan(s).moves + if is_ascii_letter(first) {
            1nat
        } else {
            0nat
        },
        scan(s + " {book}"@).book == scan(s).book + 1,
{
    reveal_strlit(" {book}");
    reveal_strlit("book");
    let n = s.len() as int;
    let t = s + seq![' ', first];
    lemma_scan_prefix_of_longer(s, seq![' ', first], s.len());
    assert(is_white_space(' '));
    assert(t[n] == ' ' && t[n + 1] == first);
    assert(scan_prefix(t, (n + 1) as nat) == scan_step(scan_prefix(t, n as nat), ' '));
    assert(scan_prefix(t, (n + 2) as nat) == scan_step(scan_prefix(t, (n + 1) as nat), first));
    let u = s + " {book}"@;
    lemma_scan_prefix_of_longer(s, " {book}"@, s.len());
    assert(u.len() == n + 7);
    assert(u[n] == ' ' && u[n + 1] == '{' && u[n + 2] == 'b' && u[n + 3] == 'o' && u[n + 4] == 'o'
        && u[n + 5] == 'k' && u[n + 6] == '}');
    let p0 = scan_prefix(u, n as nat);
    let p1 = scan_prefix(u, (n + 1) as nat);
    let p2 = scan_prefix(u, (n + 2) as nat);
    let p3 = scan_prefix(u, (n + 3) as nat);
    let p4 = scan_prefix(u, (n + 4) as nat);
    let p5 = scan_prefix(u, (n + 5) as nat);
    let p6 = scan_prefix(u, (n + 6) as nat);
    let p7 = scan_prefix(u, (n + 7) as nat);
    assert(p1 == scan_step(p0, ' '));
    assert(p2 == scan_step(p1, '{'));
    assert(p3 == scan_step(p2, 'b'));
    assert(p4 == scan_step(p3, 'o'));
    assert(p5 == scan_step(p4, 'o'));
    assert(p6 == scan_step(p5, 'k'));
    assert(p7 == scan_step(p6, '}'));
    assert(p6.comment =~= "book"@);
    assert(!is_white_space('b') && !is_white_space('k'));
    assert(trim_start(p6.comment) == p6.comment);
    assert(trim_end(p6.comment) == p6.comment);
}

} // verus!
