//! Text as sequences of characters: what `str` does to it (ASCII lower-casing,
//! trimming, suffix stripping, splitting into lines, integer parsing and
//! printing) and the joins that build messages.
use vstd::prelude::*;

verus! {


// ---------------------------------------------------------------------------
// Conversions between `str`/`String` and character vectors
// ---------------------------------------------------------------------------

/// The characters of a string slice.
pub fn chars_of(s: &str) -> (r: Vec<char>)
    ensures
        r@ == s@,
{
    let n = s.unicode_len();
    let mut r: Vec<char> = Vec::new();
    let mut i: usize = 0;
    while i < n
        invariant
            n == s@.len(),
            i <= n,
            r@ == s@.take(i as int),
        decreases n - i,
    {
        r.push(s.get_char(i));
        assert(s@.take(i + 1) =~= s@.take(i as int).push(s@[i as int]));
        i = i + 1;
    }
    assert(s@.take(n as int) =~= s@);
    r
}

/// `String`'s `FromIterator<&char>`: the string made of the given characters, in order.
#[verifier::external_body]
pub(crate) fn string_from_chars(chars: &Vec<char>) -> (r: String)
    ensures
        r@ == chars@,
{
    chars.iter().collect()
}

/// The views of a list of strings.
pub open spec fn string_views(v: Seq<String>) -> Seq<Seq<char>> {
    v.map_values(|s: String| s@)
}

/// Whether `v` holds `x`.
pub fn contains_string(v: &Vec<String>, x: &String) -> (r: bool)
    ensures
        r == string_views(v@).contains(x@),
{
    let mut i: usize = 0;
    while i < v.len()
        invariant
            i <= v.len(),
            forall|t: int| 0 <= t < i ==> #[trigger] v@[t]@ != x@,
        decreases v.len() - i,
    {
        if v[i] == *x {
            assert(string_views(v@)[i as int] == x@);
            return true;
        }
        i = i + 1;
    }
    false
}

/// A copy of a list of strings.
pub fn copy_strings(v: &Vec<String>) -> (r: Vec<String>)
    ensures
        string_views(r@) == string_views(v@),
{
    let mut r: Vec<String> = Vec::new();
    let mut i: usize = 0;
    while i < v.len()
        invariant
            i <= v.len(),
            r.len() == i,
            forall|k: int| 0 <= k < i ==> #[trigger] r@[k]@ == v@[k]@,
        decreases v.len() - i,
    {
        r.push(v[i].clone());
        i = i + 1;
    }
    assert(string_views(r@) =~= string_views(v@));
    r
}

/// Appends the characters of `src` to `dst`.
pub fn push_chars(dst: &mut Vec<char>, src: &Vec<char>)
    ensures
        final(dst)@ == old(dst)@ + src@,
{
    let mut i: usize = 0;
    while i < src.len()
        invariant
            i <= src.len(),
            dst@ == old(dst)@ + src@.take(i as int),
        decreases src.len() - i,
    {
        dst.push(src[i]);
        assert(src@.take(i + 1) =~= src@.take(i as int).push(src@[i as int]));
        i = i + 1;
    }
    assert(src@.take(src.len() as int) =~= src@);
}

/// Appends the characters of a string slice to `dst`.
pub fn push_str(dst: &mut Vec<char>, src: &str)
    ensures
        final(dst)@ == old(dst)@ + src@,
{
    let c = chars_of(src);
    push_chars(dst, &c);
}

/// Whether two character vectors hold the same characters.
pub fn chars_eq(a: &Vec<char>, b: &Vec<char>) -> (r: bool)
    ensures
        r == (a@ == b@),
{
    if a.len() != b.len() {
        return false;
    }
    let mut i: usize = 0;
    while i < a.len()
        invariant
            a.len() == b.len(),
            i <= a.len(),
            a@.take(i as int) == b@.take(i as int),
        decreases a.len() - i,
    {
        if a[i] != b[i] {
            return false;
        }
        assert(a@.take(i + 1) =~= a@.take(i as int).push(a@[i as int]));
        assert(b@.take(i + 1) =~= b@.take(i as int).push(b@[i as int]));
        i = i + 1;
    }
    assert(a@.take(a.len() as int) =~= a@);
    assert(b@.take(b.len() as int) =~= b@);
    true
}

// ---------------------------------------------------------------------------
// ASCII lower case
// ---------------------------------------------------------------------------

/// `char::to_ascii_lowercase`: 'A'..='Z' become 'a'..='z', every other character stays.
pub open spec fn ascii_lower_char(c: char) -> char {
    if 'A' <= c && c <= 'Z' {
        ((c as int) + 32) as char
    } else {
        c
    }
}

/// `str::to_ascii_lowercase`.
pub open spec fn ascii_lower(s: Seq<char>) -> Seq<char> {
    s.map_values(|c: char| ascii_lower_char(c))
}

/// The characters with ASCII upper-case letters lowered.
pub fn to_ascii_lower(s: &Vec<char>) -> (r: Vec<char>)
    ensures
        r@ == ascii_lower(s@),
{
    let mut r: Vec<char> = Vec::new();
    let mut i: usize = 0;
    while i < s.len()
        invariant
            i <= s.len(),
            r@ == ascii_lower(s@.take(i as int)),
        decreases s.len() - i,
    {
        let c = s[i];
        let l = if 'A' <= c && c <= 'Z' {
            let code = (c as u32) + 32;
            if code == 97 { 'a' } else if code == 98 { 'b' } else if code == 99 { 'c' }
            else if code == 100 { 'd' } else if code == 101 { 'e' } else if code == 102 { 'f' }
            else if code == 103 { 'g' } else if code == 104 { 'h' } else if code == 105 { 'i' }
            else if code == 106 { 'j' } else if code == 107 { 'k' } else if code == 108 { 'l' }
            else if code == 109 { 'm' } else if code == 110 { 'n' } else if code == 111 { 'o' }
            else if code == 112 { 'p' } else if code == 113 { 'q' } else if code == 114 { 'r' }
            else if code == 115 { 's' } else if code == 116 { 't' } else if code == 117 { 'u' }
            else if code == 118 { 'v' } else if code == 119 { 'w' } else if code == 120 { 'x' }
            else if code == 121 { 'y' } else { 'z' }
        } else {
            c
        };
        r.push(l);
        assert(s@.take(i + 1) =~= s@.take(i as int).push(c));
        assert(ascii_lower(s@.take(i + 1)) =~= ascii_lower(s@.take(i as int)).push(ascii_lower_char(c)));
        i = i + 1;
    }
    assert(s@.take(s.len() as int) =~= s@);
    r
}

// ---------------------------------------------------------------------------
// Whitespace and trimming
// ---------------------------------------------------------------------------

/// `char::is_whitespace`: the characters with Unicode's White_Space property.
pub open spec fn is_white_space(c: char) -> bool {
    let u = c as int;
    (9 <= u && u <= 13) || u == 32 || u == 0x85 || u == 0xA0 || u == 0x1680 || (0x2000 <= u && u
        <= 0x200A) || u == 0x2028 || u == 0x2029 || u == 0x202F || u == 0x205F || u == 0x3000
}

/// Whether `c` is white space.
pub fn white_space(c: char) -> (r: bool)
    ensures
        r == is_white_space(c),
{
    let u = c as u32;
    (9 <= u && u <= 13) || u == 32 || u == 0x85 || u == 0xA0 || u == 0x1680 || (0x2000 <= u && u
        <= 0x200A) || u == 0x2028 || u == 0x2029 || u == 0x202F || u == 0x205F || u == 0x3000
}

/// `str::trim_start`.
pub open spec fn trim_start(s: Seq<char>) -> Seq<char>
    decreases s.len(),
{
    if s.len() > 0 && is_white_space(s[0]) {
        trim_start(s.drop_first())
    } else {
        s
    }
}

/// `str::trim_end`.
pub open spec fn trim_end(s: Seq<char>) -> Seq<char>
    decreases s.len(),
{
    if s.len() > 0 && is_white_space(s.last()) {
        trim_end(s.drop_last())
    } else {
        s
    }
}

/// `str::trim`: whitespace removed from both ends.
pub open spec fn trim(s: Seq<char>) -> Seq<char> {
    trim_end(trim_start(s))
}

/// The characters with white space removed from both ends.
pub fn trim_chars(s: &Vec<char>) -> (r: Vec<char>)
    ensures
        r@ == trim(s@),
{
    let n = s.len();
    let mut i: usize = 0;
    assert(s@.skip(0) =~= s@);
    while i < n && white_space(s[i])
        invariant
            n == s.len(),
            i <= n,
            trim_start(s@) == trim_start(s@.skip(i as int)),
        decreases n - i,
    {
        assert(s@.skip(i as int).drop_first() =~= s@.skip(i + 1));
        i = i + 1;
    }
    let ghost t = s@.skip(i as int);
    assert(trim_start(s@) == t);
    let mut j: usize = n;
    while j > i && white_space(s[j - 1])
        invariant
            n == s.len(),
            i <= j <= n,
            t == s@.skip(i as int),
            trim_end(t) == trim_end(s@.subrange(i as int, j as int)),
        decreases j,
    {
        assert(s@.subrange(i as int, j as int).drop_last() =~= s@.subrange(i as int, j - 1));
        j = j - 1;
    }
    assert(trim_end(s@.subrange(i as int, j as int)) == s@.subrange(i as int, j as int));
    let mut r: Vec<char> = Vec::new();
    let mut k: usize = i;
    while k < j
        invariant
            i <= k <= j <= n,
            n == s.len(),
            r@ == s@.subrange(i as int, k as int),
        decreases j - k,
    {
        r.push(s[k]);
        assert(s@.subrange(i as int, k + 1) =~= s@.subrange(i as int, k as int).push(s@[k as int]));
        k = k + 1;
    }
    r
}

// ---------------------------------------------------------------------------
// Suffixes
// ---------------------------------------------------------------------------

/// `s` ends with `suffix`.
pub open spec fn ends_with(s: Seq<char>, suffix: Seq<char>) -> bool {
    suffix.len() <= s.len() && s.skip(s.len() - suffix.len()) == suffix
}

/// `str::strip_suffix`.
pub open spec fn strip_suffix(s: Seq<char>, suffix: Seq<char>) -> Option<Seq<char>> {
    if ends_with(s, suffix) {
        Some(s.take(s.len() - suffix.len()))
    } else {
        None
    }
}

/// The characters before `suffix`, when `s` ends with it.
pub fn strip_suffix_chars(s: &Vec<char>, suffix: &Vec<char>) -> (r: Option<Vec<char>>)
    ensures
        r matches Some(v) ==> strip_suffix(s@, suffix@) == Some(v@),
        r is None ==> strip_suffix(s@, suffix@) is None,
{
    if suffix.len() > s.len() {
        return None;
    }
    let start = s.len() - suffix.len();
    let mut i: usize = 0;
    while i < suffix.len()
        invariant
            start + suffix.len() == s.len(),
            i <= suffix.len(),
            forall|k: int| 0 <= k < i ==> s@[start + k] == suffix@[k],
        decreases suffix.len() - i,
    {
        if s[start + i] != suffix[i] {
            proof {
                assert(s@.skip(start as int)[i as int] != suffix@[i as int]);
            }
            return None;
        }
        i = i + 1;
    }
    assert(s@.skip(start as int) =~= suffix@);
    let mut r: Vec<char> = Vec::new();
    let mut k: usize = 0;
    while k < start
        invariant
            start <= s.len(),
            k <= start,
            r@ == s@.take(k as int),
        decreases start - k,
    {
        r.push(s[k]);
        assert(s@.take(k + 1) =~= s@.take(k as int).push(s@[k as int]));
        k = k + 1;
    }
    Some(r)
}

// ---------------------------------------------------------------------------
// Joining
// ---------------------------------------------------------------------------

/// `[String]::join`: the parts with `sep` between each two neighbours.
pub open spec fn join(sep: Seq<char>, parts: Seq<Seq<char>>) -> Seq<char>
    decreases parts.len(),
{
    if parts.len() == 0 {
        Seq::empty()
    } else if parts.len() == 1 {
        parts[0]
    } else {
        join(sep, parts.drop_last()) + sep + parts.last()
    }
}

/// The parts with `sep` between each two neighbours.
pub fn join_chars(sep: &Vec<char>, parts: &Vec<Vec<char>>) -> (r: Vec<char>)
    ensures
        r@ == join(sep@, parts@.map_values(|p: Vec<char>| p@)),
{
    let ghost ps = parts@.map_values(|p: Vec<char>| p@);
    let mut r: Vec<char> = Vec::new();
    let mut i: usize = 0;
    while i < parts.len()
        invariant
            i <= parts.len(),
            ps == parts@.map_values(|p: Vec<char>| p@),
            r@ == join(sep@, ps.take(i as int)),
        decreases parts.len() - i,
    {
        if i > 0 {
            push_chars(&mut r, sep);
        }
        push_chars(&mut r, &parts[i]);
        proof {
            assert(ps.take(i + 1).drop_last() =~= ps.take(i as int));
            assert(ps[i as int] == parts@[i as int]@);
            if i == 0 {
                assert(join(sep@, ps.take(1)) == ps.take(1)[0]);
            }
        }
        i = i + 1;
    }
    assert(ps.take(parts.len() as int) =~= ps);
    r
}

// ---------------------------------------------------------------------------
// Lines
// ---------------------------------------------------------------------------

/// Index of the first '\n', or -1 when there is none.
pub open spec fn newline_index(s: Seq<char>) -> int
    decreases s.len(),
{
    if s.len() == 0 {
        -1
    } else if s[0] == '\n' {
        0
    } else {
        let r = newline_index(s.drop_first());
        if r < 0 {
            -1
        } else {
            r + 1
        }
    }
}

/// A line taken before a '\n' loses one trailing '\r'.
pub open spec fn strip_cr(s: Seq<char>) -> Seq<char> {
    if s.len() > 0 && s.last() == '\r' {
        s.drop_last()
    } else {
        s
    }
}

/// `str::lines`: split at "\n" or "\r\n"; a final line ending adds no empty line,
/// and a last line without '\n' keeps a trailing '\r'.
pub open spec fn lines(s: Seq<char>) -> Seq<Seq<char>>
    decreases s.len(),
{
    if s.len() == 0 {
        Seq::empty()
    } else {
        let i = newline_index(s);
        proof {
            lemma_newline_index_bound(s);
        }
        if i < 0 {
            seq![s]
        } else {
            seq![strip_cr(s.take(i))] + lines(s.skip(i + 1))
        }
    }
}

/// The first line break, when there is one, lies inside the text and is a '\n'.
pub proof fn lemma_newline_index_bound(s: Seq<char>)
    ensures
        -1 <= newline_index(s) < s.len(),
        newline_index(s) >= 0 ==> s[newline_index(s)] == '\n',
    decreases s.len(),
{
    if s.len() > 0 {
        lemma_newline_index_bound(s.drop_first());
    }
}

/// One step of `lines`: the first line of `rest`, then the lines after its '\n'.
proof fn lemma_lines_step(rest: Seq<char>, j: int)
    requires
        0 <= j <= rest.len(),
        rest.len() > 0,
        forall|k: int| 0 <= k < j ==> rest[k] != '\n',
        j == rest.len() || rest[j] == '\n',
    ensures
        j == rest.len() ==> lines(rest) == seq![rest],
        j < rest.len() ==> lines(rest) == seq![strip_cr(rest.take(j))] + lines(rest.skip(j + 1)),
{
    lemma_newline_index(rest, j);
}

proof fn lemma_newline_index(s: Seq<char>, j: int)
    requires
        0 <= j <= s.len(),
        forall|k: int| 0 <= k < j ==> s[k] != '\n',
        j == s.len() || s[j] == '\n',
    ensures
        newline_index(s) == if j == s.len() {
            -1
        } else {
            j
        },
    decreases j,
{
    if j > 0 {
        lemma_newline_index(s.drop_first(), j - 1);
    }
}

/// The characters of `s` from `start` up to the next '\n' (or the end), and where that stops.
fn line_from(s: &Vec<char>, start: usize) -> (r: (Vec<char>, usize))
    requires
        start < s.len(),
    ensures
        start <= r.1 <= s.len(),
        r.0@ == s@.subrange(start as int, r.1 as int),
        forall|k: int| start <= k < r.1 ==> s@[k] != '\n',
        r.1 == s.len() || s@[r.1 as int] == '\n',
{
    let n = s.len();
    let mut j: usize = start;
    let mut line: Vec<char> = Vec::new();
    while j < n && s[j] != '\n'
        invariant
            n == s.len(),
            start <= j <= n,
            line@ == s@.subrange(start as int, j as int),
            forall|k: int| start <= k < j ==> s@[k] != '\n',
        decreases n - j,
    {
        line.push(s[j]);
        assert(s@.subrange(start as int, j + 1) =~= s@.subrange(start as int, j as int).push(
            s@[j as int],
        ));
        j = j + 1;
    }
    (line, j)
}

proof fn lemma_lines_from(s: Seq<char>, start: int, j: int)
    requires
        0 <= start < s.len(),
        start <= j <= s.len(),
        forall|k: int| start <= k < j ==> s[k] != '\n',
        j == s.len() || s[j] == '\n',
    ensures
        j == s.len() ==> lines(s.skip(start)) == seq![s.subrange(start, j)],
        j < s.len() ==> lines(s.skip(start)) == seq![strip_cr(s.subrange(start, j))] + lines(
            s.skip(j + 1),
        ),
{
    let rest = s.skip(start);
    assert forall|k: int| 0 <= k < j - start implies rest[k] != '\n' by {
        assert(rest[k] == s[start + k]);
    }
    lemma_lines_step(rest, j - start);
    assert(rest.take(j - start) =~= s.subrange(start, j));
    if j < s.len() {
        assert(rest.skip(j - start + 1) =~= s.skip(j + 1));
    }
    if j == s.len() {
        assert(rest =~= s.subrange(start, j));
    }
}

/// The lines of the text, as `str::lines` gives them.
pub fn split_lines(s: &Vec<char>) -> (r: Vec<Vec<char>>)
    ensures
        r@.map_values(|l: Vec<char>| l@) == lines(s@),
{
    let n = s.len();
    let mut r: Vec<Vec<char>> = Vec::new();
    let ghost mut done: Seq<Seq<char>> = Seq::empty();
    let mut start: usize = 0;
    assert(s@.skip(0) =~= s@);
    assert(done + lines(s@) =~= lines(s@));
    while start < n
        invariant
            n == s.len(),
            start <= n,
            r@.len() == done.len(),
            forall|k: int| 0 <= k < done.len() ==> #[trigger] r@[k]@ == done[k],
            lines(s@) == done + lines(s@.skip(start as int)),
        decreases n - start,
    {
        let (mut line, j) = line_from(s, start);
        proof {
            lemma_lines_from(s@, start as int, j as int);
        }
        if j == n {
            proof {
                done = done.push(line@);
                assert(s@.skip(n as int) =~= Seq::<char>::empty());
                assert(lines(s@.skip(n as int)) =~= Seq::<Seq<char>>::empty());
            }
            r.push(line);
            start = n;
        } else {
            if line.len() > 0 && line[line.len() - 1] == '\r' {
                line.pop();
            }
            proof {
                assert(line@ == strip_cr(s@.subrange(start as int, j as int)));
                done = done.push(line@);
            }
            r.push(line);
            start = j + 1;
        }
    }
    proof {
        assert(s@.skip(n as int) =~= Seq::<char>::empty());
        assert(lines(s@.skip(n as int)) =~= Seq::<Seq<char>>::empty());
        assert(r@.map_values(|l: Vec<char>| l@) =~= done);
    }
    r
}

// ---------------------------------------------------------------------------
// Decimal numbers
// ---------------------------------------------------------------------------

/// The ASCII digit for `d` (0..=9).
pub open spec fn digit_char(d: nat) -> char {
    ((d + 48) as int) as char
}

/// `u64`'s `Display`: the decimal digits, most significant first, no sign or padding.
pub open spec fn decimal(n: nat) -> Seq<char>
    decreases n,
{
    if n < 10 {
        seq![digit_char(n)]
    } else {
        decimal(n / 10).push(digit_char(n % 10))
    }
}

fn digit(d: u64) -> (c: char)
    requires
        d < 10,
    ensures
        c == digit_char(d as nat),
{
    if d == 0 { '0' } else if d == 1 { '1' } else if d == 2 { '2' } else if d == 3 { '3' }
    else if d == 4 { '4' } else if d == 5 { '5' } else if d == 6 { '6' } else if d == 7 { '7' }
    else if d == 8 { '8' } else { '9' }
}

/// The decimal digits of `n`.
pub fn decimal_chars(n: u64) -> (r: Vec<char>)
    ensures
        r@ == decimal(n as nat),
    decreases n,
{
    if n < 10 {
        let mut r: Vec<char> = Vec::new();
        r.push(digit(n));
        proof {
            assert(r@ =~= seq![digit_char(n as nat)]);
        }
        r
    } else {
        let mut r = decimal_chars(n / 10);
        r.push(digit(n % 10));
        r
    }
}

/// An ASCII decimal digit.
pub open spec fn is_digit(c: char) -> bool {
    '0' <= c && c <= '9'
}

/// The value of a string of decimal digits.
pub open spec fn digits_value(s: Seq<char>) -> nat
    decreases s.len(),
{
    if s.len() == 0 {
        0
    } else {
        digits_value(s.drop_last()) * 10 + ((s.last() as int) - 48) as nat
    }
}

/// The digits that `u64::from_str` reads: the text after one optional leading '+'.
pub open spec fn unsigned_body(s: Seq<char>) -> Seq<char> {
    if s.len() > 0 && s[0] == '+' {
        s.drop_first()
    } else {
        s
    }
}

/// `u64::from_str`: one optional '+', then at least one decimal digit and nothing
/// else, of a value that fits in a `u64`.
pub open spec fn parse_u64(s: Seq<char>) -> Option<u64> {
    let body = unsigned_body(s);
    if body.len() > 0 && (forall|i: int| 0 <= i < body.len() ==> is_digit(#[trigger] body[i]))
        && digits_value(body) <= u64::MAX {
        Some(digits_value(body) as u64)
    } else {
        None
    }
}

proof fn lemma_digits_value_monotone(s: Seq<char>, i: int)
    requires
        0 <= i <= s.len(),
        forall|k: int| 0 <= k < s.len() ==> is_digit(#[trigger] s[k]),
    ensures
        digits_value(s.take(i)) <= digits_value(s),
    decreases s.len() - i,
{
    if i < s.len() {
        lemma_digits_value_monotone(s, i + 1);
        assert(s.take(i + 1).drop_last() =~= s.take(i));
    } else {
        assert(s.take(i) =~= s);
    }
}

/// Whether every character of `s` from `start` on is a decimal digit.
fn all_digits_from(s: &Vec<char>, start: usize) -> (r: bool)
    requires
        start <= s.len(),
    ensures
        r == (forall|k: int| start <= k < s.len() ==> is_digit(#[trigger] s@[k])),
{
    let mut i: usize = start;
    while i < s.len()
        invariant
            start <= i <= s.len(),
            forall|k: int| start <= k < i ==> is_digit(#[trigger] s@[k]),
        decreases s.len() - i,
    {
        if !('0' <= s[i] && s[i] <= '9') {
            return false;
        }
        i = i + 1;
    }
    true
}

/// The number the characters spell, as `u64::from_str` reads it.
pub fn parse_u64_chars(s: &Vec<char>) -> (r: Option<u64>)
    ensures
        r == parse_u64(s@),
{
    let mut start: usize = 0;
    if s.len() > 0 && s[0] == '+' {
        start = 1;
    }
    let ghost body = unsigned_body(s@);
    assert(body =~= s@.skip(start as int));
    if start == s.len() {
        return None;
    }
    if !all_digits_from(s, start) {
        proof {
            let k = choose|k: int| start <= k < s.len() && !is_digit(#[trigger] s@[k]);
            assert(body[k - start] == s@[k]);
        }
        return None;
    }
    assert forall|k: int| 0 <= k < body.len() implies is_digit(#[trigger] body[k]) by {
        assert(body[k] == s@[start + k]);
    }
    let mut acc: u64 = 0;
    let mut i: usize = start;
    while i < s.len()
        invariant
            start <= i <= s.len(),
            body == s@.skip(start as int),
            body == unsigned_body(s@),
            body.len() > 0,
            forall|k: int| 0 <= k < body.len() ==> is_digit(#[trigger] body[k]),
            acc as nat == digits_value(body.take(i - start)),
        decreases s.len() - i,
    {
        let c = s[i];
        let ghost t = body.take(i - start + 1);
        proof {
            assert(body[i - start] == c);
            assert(t.drop_last() =~= body.take(i - start));
            assert(t.last() == c);
            assert(is_digit(c));
        }
        let d = (c as u32 - 48) as u64;
        assert(digits_value(t) == acc * 10 + d);
        let m = acc.checked_mul(10);
        if m.is_none() {
            proof {
                assert(acc * 10 > u64::MAX);
                assert(digits_value(t) > u64::MAX);
                lemma_digits_value_monotone(body, i - start + 1);
                assert(digits_value(body) > u64::MAX);
            }
            return None;
        }
        let v = m.unwrap().checked_add(d);
        if v.is_none() {
            proof {
                assert(digits_value(t) > u64::MAX);
                lemma_digits_value_monotone(body, i - start + 1);
                assert(digits_value(body) > u64::MAX);
            }
            return None;
        }
        acc = v.unwrap();
        i = i + 1;
    }
    assert(body.take(i - start) =~= body);
    Some(acc)
}

/// Printing a number and reading it back gives the number.
pub proof fn lemma_parse_decimal(n: u64)
    ensures
        parse_u64(decimal(n as nat)) == Some(n),
{
    lemma_decimal_digits(n as nat);
    assert(unsigned_body(decimal(n as nat)) == decimal(n as nat));
}

proof fn lemma_decimal_digits(n: nat)
    ensures
        decimal(n).len() > 0,
        forall|i: int| 0 <= i < decimal(n).len() ==> is_digit(#[trigger] decimal(n)[i]),
        digits_value(decimal(n)) == n,
        decimal(n)[0] != '+',
    decreases n,
{
    if n >= 10 {
        lemma_decimal_digits(n / 10);
        let d = decimal(n / 10);
        assert(decimal(n).drop_last() =~= d);
        assert(n == (n / 10) * 10 + n % 10);
        assert(decimal(n)[0] == d[0]);
    } else {
        assert(digits_value(seq![digit_char(n)].drop_last()) == 0) by {
            assert(seq![digit_char(n)].drop_last() =~= Seq::<char>::empty());
        }
    }
}

} // verus!
