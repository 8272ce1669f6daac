//! Summaries of who follows which engine, and the difference between two summaries,
//! as they are posted to the log when the configuration is loaded or changes.
use vstd::prelude::*;
use vstd::multiset::Multiset;
use crate::order::{
    is_strictly_sorted, lemma_sorted_set, lemma_same_multiset_no_dup, lemma_sorted_no_dup_strict,
    lemma_sorted_of, lemma_sorted_of_distinct, lemma_strictly_sorted_is_sorted_set, sort_strings,
    sorted_of, sorted_set,
};
use crate::text::{chars_eq, chars_of, join, join_chars, lines, push_chars, push_str, split_lines};

verus! {

/// A sequence of views of character vectors.
pub open spec fn views(v: Seq<Vec<char>>) -> Seq<Seq<char>> {
    v.map_values(|c: Vec<char>| c@)
}

/// The map that a list of (key, value) entries describes; a later entry wins.
pub open spec fn entries_map<A>(s: Seq<(Seq<char>, A)>) -> Map<Seq<char>, A>
    decreases s.len(),
{
    if s.len() == 0 {
        Map::empty()
    } else {
        entries_map(s.drop_last()).insert(s.last().0, s.last().1)
    }
}

/// No key occurs twice.
pub open spec fn distinct_keys<A>(s: Seq<(Seq<char>, A)>) -> bool {
    forall|i: int, j: int| 0 <= i < j < s.len() ==> (#[trigger] s[i]).0 != (#[trigger] s[j]).0
}

/// The keys of a list of entries, in order.
pub open spec fn entry_keys<A>(s: Seq<(Seq<char>, A)>) -> Seq<Seq<char>> {
    s.map_values(|e: (Seq<char>, A)| e.0)
}

/// Entries with distinct keys: the map has exactly their keys, each with its entry's value.
pub proof fn lemma_entries_map<A>(s: Seq<(Seq<char>, A)>)
    requires
        distinct_keys(s),
    ensures
        entries_map(s).dom() == entry_keys(s).to_set(),
        forall|i: int| 0 <= i < s.len() ==> #[trigger] entries_map(s)[s[i].0] == s[i].1,
        entry_keys(s).no_duplicates(),
    decreases s.len(),
{
    if s.len() > 0 {
        let t = s.drop_last();
        assert(distinct_keys(t)) by {
            assert forall|i: int, j: int| 0 <= i < j < t.len() implies (#[trigger] t[i]).0 != (
            #[trigger] t[j]).0 by {
                assert(s[i].0 != s[j].0);
            }
        }
        lemma_entries_map(t);
        assert(entry_keys(s) =~= entry_keys(t).push(s.last().0));
        assert forall|x: Seq<char>| #[trigger] entry_keys(s).contains(x) <==> (entry_keys(t).contains(x)
            || x == s.last().0) by {
            if entry_keys(s).contains(x) {
                let i = choose|i: int| 0 <= i < entry_keys(s).len() && entry_keys(s)[i] == x;
                if i < t.len() {
                    assert(entry_keys(t)[i] == x);
                }
            }
            if entry_keys(t).contains(x) {
                let i = choose|i: int| 0 <= i < entry_keys(t).len() && entry_keys(t)[i] == x;
                assert(entry_keys(s)[i] == x);
            }
            if x == s.last().0 {
                assert(entry_keys(s)[s.len() - 1] == x);
            }
        }
        assert(entries_map(s).dom() =~= entry_keys(s).to_set());
        assert forall|i: int| 0 <= i < s.len() implies #[trigger] entries_map(s)[s[i].0] == s[i].1 by {
            if i < s.len() - 1 {
                assert(s[i].0 != s.last().0);
                assert(t[i] == s[i]);
            }
        }
        assert forall|i: int, j: int|
            0 <= i < j < entry_keys(s).len() implies entry_keys(s)[i] != entry_keys(s)[j] by {
            assert(s[i].0 != s[j].0);
        }
    } else {
        assert(entries_map(s).dom() =~= entry_keys(s).to_set());
    }
}

/// One line of a summary: the engine, then its followers in order, comma-separated.
pub open spec fn summary_line(engine: Seq<char>, followers: Seq<Seq<char>>) -> Seq<char> {
    engine + ": "@ + join(", "@, followers)
}

/// The lines of a summary, one per engine in ascending order, each with the engine's
/// followers in ascending order (a follower listed twice appears twice).
pub open spec fn group_summary(m: Map<Seq<char>, Multiset<Seq<char>>>) -> Seq<char> {
    join(
        "\n"@,
        sorted_set(m.dom()).map_values(|k: Seq<char>| summary_line(k, sorted_of(m[k]))),
    )
}

/// The (key, follower list) entries as a map to multisets of followers.
pub open spec fn followers_map(s: Seq<(Seq<char>, Seq<Seq<char>>)>) -> Map<
    Seq<char>,
    Multiset<Seq<char>>,
> {
    entries_map(s).map_values(|a: Seq<Seq<char>>| a.to_multiset())
}

/// The view of a list of (engine, followers) entries.
pub open spec fn group_view(v: Seq<(Vec<char>, Vec<Vec<char>>)>) -> Seq<(Seq<char>, Seq<Seq<char>>)> {
    v.map_values(|e: (Vec<char>, Vec<Vec<char>>)| (e.0@, views(e.1@)))
}

/// A copy of a character vector.
pub fn copy_chars(v: &Vec<char>) -> (r: Vec<char>)
    ensures
        r@ == v@,
{
    let mut r: Vec<char> = Vec::new();
    push_chars(&mut r, v);
    assert(r@ =~= v@);
    r
}

/// A copy of a vector of character vectors.
pub fn copy_all(v: &Vec<Vec<char>>) -> (r: Vec<Vec<char>>)
    ensures
        views(r@) == views(v@),
{
    let mut r: Vec<Vec<char>> = Vec::new();
    let mut i: usize = 0;
    while i < v.len()
        invariant
            i <= v.len(),
            r.len() == i,
            forall|t: int| 0 <= t < i ==> #[trigger] r@[t]@ == v@[t]@,
        decreases v.len() - i,
    {
        r.push(copy_chars(&v[i]));
        i = i + 1;
    }
    assert(views(r@) =~= views(v@));
    r
}

/// Whether `v` holds `x`.
pub fn contains_chars(v: &Vec<Vec<char>>, x: &Vec<char>) -> (r: bool)
    ensures
        r == views(v@).contains(x@),
{
    let mut i: usize = 0;
    while i < v.len()
        invariant
            i <= v.len(),
            forall|k: int| 0 <= k < i ==> views(v@)[k] != x@,
        decreases v.len() - i,
    {
        if chars_eq(&v[i], x) {
            assert(views(v@)[i as int] == x@);
            return true;
        }
        i = i + 1;
    }
    false
}

/// Sorts strings that are all different: the result is the set's ascending order.
pub fn sort_distinct(v: Vec<Vec<char>>) -> (r: Vec<Vec<char>>)
    requires
        views(v@).no_duplicates(),
    ensures
        views(r@) == sorted_set(views(v@).to_set()),
        is_strictly_sorted(views(r@)),
        views(r@).to_set() == views(v@).to_set(),
        views(r@).len() == views(v@).len(),
{
    let ghost input = views(v@);
    let r = sort_strings(v);
    proof {
        lemma_same_multiset_no_dup(input, views(r@));
        lemma_sorted_no_dup_strict(views(r@));
        lemma_strictly_sorted_is_sorted_set(views(r@));
        vstd::seq_lib::to_multiset_len(input);
        vstd::seq_lib::to_multiset_len(views(r@));
    }
    r
}

/// The summary of a group of engines, each with its followers.
pub fn format_group(entries: &Vec<(Vec<char>, Vec<Vec<char>>)>) -> (r: Vec<char>)
    requires
        distinct_keys(group_view(entries@)),
    ensures
        r@ == group_summary(followers_map(group_view(entries@))),
{
    let ghost g = group_view(entries@);
    let ghost m = followers_map(g);
    proof {
        lemma_entries_map(g);
    }
    let mut keys: Vec<Vec<char>> = Vec::new();
    let mut i: usize = 0;
    while i < entries.len()
        invariant
            i <= entries.len(),
            g == group_view(entries@),
            keys.len() == i,
            forall|t: int| 0 <= t < i ==> #[trigger] keys@[t]@ == g[t].0,
        decreases entries.len() - i,
    {
        keys.push(copy_chars(&entries[i].0));
        i = i + 1;
    }
    assert(views(keys@) =~= entry_keys(g));
    let keys = sort_distinct(keys);
    let ghost sk = views(keys@);
    assert(m.dom() =~= entry_keys(g).to_set());
    assert(sk == sorted_set(m.dom()));
    let mut out_lines: Vec<Vec<char>> = Vec::new();
    let mut k: usize = 0;
    while k < keys.len()
        invariant
            k <= keys.len(),
            sk == views(keys@),
            g == group_view(entries@),
            m == followers_map(g),
            sk == sorted_set(m.dom()),
            m.dom() == entry_keys(g).to_set(),
            sk.to_set() == m.dom(),
            forall|i: int| 0 <= i < g.len() ==> #[trigger] entries_map(g)[g[i].0] == g[i].1,
            out_lines.len() == k,
            forall|t: int| 0 <= t < k ==> #[trigger] out_lines@[t]@ == summary_line(sk[t], sorted_of(m[sk[t]])),
        decreases keys.len() - k,
    {
        let key = &keys[k];
        assert(m.dom().contains(sk[k as int])) by {
            assert(sk.to_set().contains(sk[k as int]));
        }
        // find the entry of this key
        let mut j: usize = 0;
        while j < entries.len() && !chars_eq(&entries[j].0, key)
            invariant
                j <= entries.len(),
                g == group_view(entries@),
                forall|t: int| 0 <= t < j ==> g[t].0 != key@,
            decreases entries.len() - j,
        {
            j = j + 1;
        }
        if j == entries.len() {
            proof {
                let w = choose|t: int| 0 <= t < entry_keys(g).len() && entry_keys(g)[t] == key@;
                assert(g[w].0 == key@);
            }
            assert(false);
        }
        let followers = sort_strings(copy_all(&entries[j].1));
        let mut line = copy_chars(key);
        push_str(&mut line, ": ");
        let sep = chars_of(", ");
        let joined = join_chars(&sep, &followers);
        push_chars(&mut line, &joined);
        proof {
            assert(g[j as int].0 == key@);
            assert(entries_map(g)[key@] == g[j as int].1);
            assert(m[key@] == g[j as int].1.to_multiset());
            assert(g[j as int].1 == views(entries@[j as int].1@));
            assert(line@ == summary_line(key@, sorted_of(m[key@])));
        }
        out_lines.push(line);
        k = k + 1;
    }
    assert(views(out_lines@) =~= sk.map_values(|key: Seq<char>| summary_line(key, sorted_of(m[key]))));
    let nl = chars_of("\n");
    join_chars(&nl, &out_lines)
}

/// What the log says when a summary changes: the lines that went, each after '-',
/// then the lines that came, each after '+', each group in ascending order; or
/// "No changes".
pub open spec fn diff_text(old_summary: Seq<char>, new_summary: Seq<char>) -> Seq<char> {
    let parts = diff_lines(old_summary, new_summary);
    if parts.len() == 0 {
        "No changes"@
    } else {
        join("\n"@, parts)
    }
}

/// The lines a diff is made of: the lines that went, each after '-', then the lines
/// that came, each after '+', each group in ascending order.
pub open spec fn diff_lines(old_summary: Seq<char>, new_summary: Seq<char>) -> Seq<Seq<char>> {
    let old_lines = lines(old_summary).to_set();
    let new_lines = lines(new_summary).to_set();
    sorted_set(old_lines.difference(new_lines)).map_values(|l: Seq<char>| "-"@ + l) + sorted_set(
        new_lines.difference(old_lines),
    ).map_values(|l: Seq<char>| "+"@ + l)
}

/// The lines of `a` that `b` lacks, each once.
fn lines_missing(a: &Vec<Vec<char>>, b: &Vec<Vec<char>>) -> (r: Vec<Vec<char>>)
    ensures
        views(r@).no_duplicates(),
        views(r@).to_set() == views(a@).to_set().difference(views(b@).to_set()),
{
    let ghost va = views(a@);
    let ghost vb = views(b@);
    let mut r: Vec<Vec<char>> = Vec::new();
    let mut i: usize = 0;
    while i < a.len()
        invariant
            i <= a.len(),
            va == views(a@),
            vb == views(b@),
            views(r@).no_duplicates(),
            forall|x: Seq<char>| #[trigger] views(r@).contains(x) <==> (va.take(i as int).contains(x)
                && !vb.contains(x)),
        decreases a.len() - i,
    {
        let x = &a[i];
        let ghost before = views(r@);
        let in_b = contains_chars(b, x);
        let in_r = contains_chars(&r, x);
        if !in_b && !in_r {
            r.push(copy_chars(x));
            assert(views(r@) =~= before.push(x@));
            assert(views(r@)[before.len() as int] == x@);
        } else {
            assert(views(r@) =~= before);
        }
        let ghost t1 = va.take(i + 1);
        let ghost t0 = va.take(i as int);
        let ghost after = views(r@);
        assert(t1 =~= t0.push(x@));
        assert forall|y: Seq<char>| #[trigger] after.contains(y) <==> (t1.contains(y)
            && !vb.contains(y)) by {
            assert(before.contains(y) <==> (t0.contains(y) && !vb.contains(y)));
            assert(before.contains(x@) <==> (t0.contains(x@) && !vb.contains(x@)));
            if t1.contains(y) && y != x@ {
                let t = choose|t: int| 0 <= t < t1.len() && t1[t] == y;
                assert(t0[t] == y);
            }
            if t0.contains(y) {
                let t = choose|t: int| 0 <= t < t0.len() && t0[t] == y;
                assert(t1[t] == y);
            }
            if after.contains(y) && y != x@ {
                let t = choose|t: int| 0 <= t < after.len() && after[t] == y;
                if !in_b && !in_r {
                    assert(t < before.len());
                }
                assert(before[t] == y);
            }
            if y == x@ && !in_b && !in_r {
                assert(after[before.len() as int] == y);
            }
            if before.contains(y) {
                let t = choose|t: int| 0 <= t < before.len() && before[t] == y;
                assert(after[t] == y);
            }
            if y == x@ {
                assert(t1[i as int] == y);
            }
        }
        i = i + 1;
    }
    assert(va.take(a.len() as int) =~= va);
    assert(views(r@).to_set() =~= va.to_set().difference(vb.to_set()));
    r
}

/// Each line after the given sign.
fn with_sign(sign: &str, v: &Vec<Vec<char>>) -> (r: Vec<Vec<char>>)
    ensures
        views(r@) == views(v@).map_values(|l: Seq<char>| sign@ + l),
{
    let mut r: Vec<Vec<char>> = Vec::new();
    let mut i: usize = 0;
    while i < v.len()
        invariant
            i <= v.len(),
            r.len() == i,
            forall|t: int| 0 <= t < i ==> #[trigger] r@[t]@ == sign@ + v@[t]@,
        decreases v.len() - i,
    {
        let mut line = chars_of(sign);
        push_chars(&mut line, &v[i]);
        r.push(line);
        i = i + 1;
    }
    assert(views(r@) =~= views(v@).map_values(|l: Seq<char>| sign@ + l));
    r
}

/// The difference between two summaries, as `diff_text` describes it.
pub fn diff_summaries(old_summary: &Vec<char>, new_summary: &Vec<char>) -> (r: Vec<char>)
    ensures
        r@ == diff_text(old_summary@, new_summary@),
{
    let old_lines = split_lines(old_summary);
    let new_lines = split_lines(new_summary);
    assert(views(old_lines@) =~= lines(old_summary@));
    assert(views(new_lines@) =~= lines(new_summary@));
    let removed = sort_distinct(lines_missing(&old_lines, &new_lines));
    let added = sort_distinct(lines_missing(&new_lines, &old_lines));
    let mut all = with_sign("-", &removed);
    let plus = with_sign("+", &added);
    let ghost first = views(all@);
    let n0 = all.len();
    let mut i: usize = 0;
    while i < plus.len()
        invariant
            i <= plus.len(),
            all.len() == n0 + i,
            n0 == first.len(),
            forall|t: int| 0 <= t < n0 ==> #[trigger] all@[t]@ == first[t],
            forall|t: int| n0 <= t < n0 + i ==> #[trigger] all@[t]@ == plus@[t - n0]@,
        decreases plus.len() - i,
    {
        all.push(copy_chars(&plus[i]));
        i = i + 1;
    }
    assert(views(all@) =~= first + views(plus@));
    if all.len() == 0 {
        chars_of("No changes")
    } else {
        let nl = chars_of("\n");
        join_chars(&nl, &all)
    }
}

/// A join of parts begins with the first part.
proof fn lemma_join_starts_with_first(sep: Seq<char>, parts: Seq<Seq<char>>)
    requires
        parts.len() > 0,
    ensures
        join(sep, parts).len() >= parts[0].len(),
        join(sep, parts).take(parts[0].len() as int) == parts[0],
    decreases parts.len(),
{
    if parts.len() == 1 {
        assert(join(sep, parts).take(parts[0].len() as int) =~= parts[0]);
    } else {
        let init = parts.drop_last();
        lemma_join_starts_with_first(sep, init);
        assert(init[0] == parts[0]);
        let j = join(sep, init);
        assert((j + sep + parts.last()).take(parts[0].len() as int) =~= j.take(parts[0].len() as int));
    }
}

/// Which signed lines a list of '-' lines then '+' lines holds.
proof fn lemma_signed_contains(minus: Seq<Seq<char>>, plus: Seq<Seq<char>>, l: Seq<char>)
    ensures
        (minus.map_values(|x: Seq<char>| "-"@ + x) + plus.map_values(|x: Seq<char>| "+"@ + x)).contains(
            "-"@ + l,
        ) <==> minus.contains(l),
        (minus.map_values(|x: Seq<char>| "-"@ + x) + plus.map_values(|x: Seq<char>| "+"@ + x)).contains(
            "+"@ + l,
        ) <==> plus.contains(l),
{
    reveal_strlit("-");
    reveal_strlit("+");
    let mm = minus.map_values(|x: Seq<char>| "-"@ + x);
    let pp = plus.map_values(|x: Seq<char>| "+"@ + x);
    let all = mm + pp;
    assert forall|x: Seq<char>| #[trigger] ("-"@ + x).drop_first() == x by {
        assert(("-"@ + x).drop_first() =~= x);
    }
    assert forall|x: Seq<char>| #[trigger] ("+"@ + x).drop_first() == x by {
        assert(("+"@ + x).drop_first() =~= x);
    }
    assert forall|x: Seq<char>| (#[trigger] ("-"@ + x))[0] == '-' && ("+"@ + x)[0] == '+' by {}
    if all.contains("-"@ + l) {
        let i = choose|i: int| 0 <= i < all.len() && all[i] == "-"@ + l;
        if i < mm.len() {
            assert(mm[i] == "-"@ + minus[i]);
            assert(("-"@ + minus[i]).drop_first() == ("-"@ + l).drop_first());
            assert(minus[i] == l);
        } else {
            assert(all[i] == pp[i - mm.len()]);
            assert(pp[i - mm.len()] == "+"@ + plus[i - mm.len()]);
            assert(all[i][0] == '+');
        }
    }
    if minus.contains(l) {
        let i = choose|i: int| 0 <= i < minus.len() && minus[i] == l;
        assert(all[i] == mm[i]);
    }
    if all.contains("+"@ + l) {
        let i = choose|i: int| 0 <= i < all.len() && all[i] == "+"@ + l;
        if i < mm.len() {
            assert(mm[i] == "-"@ + minus[i]);
            assert(all[i][0] == '-');
        } else {
            assert(all[i] == pp[i - mm.len()]);
            assert(pp[i - mm.len()] == "+"@ + plus[i - mm.len()]);
            assert(("+"@ + plus[i - mm.len()]).drop_first() == ("+"@ + l).drop_first());
        }
    }
    if plus.contains(l) {
        let i = choose|i: int| 0 <= i < plus.len() && plus[i] == l;
        assert(all[mm.len() + i] == pp[i]);
    }
}

/// Two summaries show "No changes" exactly when they have the same lines.
pub proof fn lemma_no_changes_iff_same_lines(old_summary: Seq<char>, new_summary: Seq<char>)
    ensures
        diff_text(old_summary, new_summary) == "No changes"@ <==> lines(old_summary).to_set() == lines(
            new_summary,
        ).to_set(),
{
    reveal_strlit("No changes");
    reveal_strlit("-");
    reveal_strlit("+");
    let a = lines(old_summary).to_set();
    let b = lines(new_summary).to_set();
    vstd::seq_lib::seq_to_set_is_finite(lines(old_summary));
    vstd::seq_lib::seq_to_set_is_finite(lines(new_summary));
    lemma_sorted_set(a.difference(b));
    lemma_sorted_set(b.difference(a));
    let parts = diff_lines(old_summary, new_summary);
    if a == b {
        assert(a.difference(b) =~= Set::<Seq<char>>::empty());
        assert(b.difference(a) =~= Set::<Seq<char>>::empty());
        assert(parts.len() == 0);
    } else {
        let removed = sorted_set(a.difference(b));
        let added = sorted_set(b.difference(a));
        if removed.len() == 0 && added.len() == 0 {
            assert(a =~= b) by {
                assert forall|x: Seq<char>| a.contains(x) <==> b.contains(x) by {
                    assert(!a.difference(b).contains(x));
                    assert(!b.difference(a).contains(x));
                }
            }
        }
        assert(parts.len() > 0);
        lemma_join_starts_with_first("\n"@, parts);
        if removed.len() > 0 {
            assert(parts[0] == "-"@ + removed[0]);
        } else {
            assert(parts[0] == "+"@ + added[0]);
        }
        assert(parts[0][0] == '-' || parts[0][0] == '+');
        let text = join("\n"@, parts);
        assert(text.take(parts[0].len() as int)[0] == parts[0][0]);
        assert(text[0] != "No changes"@[0]);
    }
}

/// Diffing the other way round swaps the signs: a line goes from the first summary to
/// the second exactly when it comes from the second to the first.
pub proof fn lemma_diff_swaps_signs(a: Seq<char>, b: Seq<char>, line: Seq<char>)
    ensures
        diff_lines(a, b).contains("-"@ + line) <==> diff_lines(b, a).contains("+"@ + line),
        diff_lines(a, b).contains("+"@ + line) <==> diff_lines(b, a).contains("-"@ + line),
{
    let la = lines(a).to_set();
    let lb = lines(b).to_set();
    vstd::seq_lib::seq_to_set_is_finite(lines(a));
    vstd::seq_lib::seq_to_set_is_finite(lines(b));
    lemma_sorted_set(la.difference(lb));
    lemma_sorted_set(lb.difference(la));
    lemma_signed_contains(sorted_set(la.difference(lb)), sorted_set(lb.difference(la)), line);
    lemma_signed_contains(sorted_set(lb.difference(la)), sorted_set(la.difference(lb)), line);
    assert(sorted_set(la.difference(lb)).contains(line) <==> sorted_set(la.difference(lb)).to_set().contains(line));
    assert(sorted_set(lb.difference(la)).contains(line) <==> sorted_set(lb.difference(la)).to_set().contains(line));
}

/// A summary compared with itself shows no changes.
pub proof fn lemma_diff_of_same_summary(summary: Seq<char>)
    ensures
        diff_text(summary, summary) == "No changes"@,
{
    let l = lines(summary).to_set();
    assert(l.difference(l) =~= Set::<Seq<char>>::empty());
    let e = Seq::<Seq<char>>::empty();
    assert(is_strictly_sorted(e) && e.to_set() =~= Set::<Seq<char>>::empty());
    lemma_strictly_sorted_is_sorted_set(e);
    assert(e.to_set() =~= Set::<Seq<char>>::empty());
}

/// The summary of engines whose followers form sets: one line per engine in ascending
/// order, each with its followers in ascending order.
pub open spec fn set_group_summary(m: Map<Seq<char>, Set<Seq<char>>>) -> Seq<char> {
    join(
        "\n"@,
        sorted_set(m.dom()).map_values(|k: Seq<char>| summary_line(k, sorted_set(m[k]))),
    )
}

/// Every entry's followers are without repeats.
pub open spec fn followers_distinct(s: Seq<(Seq<char>, Seq<Seq<char>>)>) -> bool {
    forall|i: int| 0 <= i < s.len() ==> (#[trigger] s[i]).1.no_duplicates()
}

/// When no follower repeats, the multiset summary is the set summary.
pub proof fn lemma_set_group_summary(g: Seq<(Seq<char>, Seq<Seq<char>>)>)
    requires
        distinct_keys(g),
        followers_distinct(g),
    ensures
        group_summary(followers_map(g)) == set_group_summary(
            entries_map(g).map_values(|a: Seq<Seq<char>>| a.to_set()),
        ),
{
    lemma_entries_map(g);
    let m1 = followers_map(g);
    let m2 = entries_map(g).map_values(|a: Seq<Seq<char>>| a.to_set());
    assert(m1.dom() =~= m2.dom());
    let keys = entry_keys(g);
    assert(m1.dom() =~= keys.to_set());
    lemma_sorted_of_distinct(keys);
    lemma_sorted_of(keys);
    let sk = sorted_set(m1.dom());
    assert(sk == sorted_of(keys.to_multiset()));
    lemma_same_multiset_no_dup(keys, sk);
    assert forall|i: int| 0 <= i < sk.len() implies #[trigger] sorted_of(m1[sk[i]]) == sorted_set(m2[sk[i]]) by {
        assert(sk.to_set().contains(sk[i]));
        let w = choose|w: int| 0 <= w < keys.len() && keys[w] == sk[i];
        assert(g[w].0 == sk[i]);
        assert(entries_map(g)[g[w].0] == g[w].1);
        lemma_sorted_of_distinct(g[w].1);
    }
    assert(sk.map_values(|k: Seq<char>| summary_line(k, sorted_of(m1[k]))) =~= sk.map_values(
        |k: Seq<char>| summary_line(k, sorted_set(m2[k])),
    ));
}

/// Mapping the values of entries maps the values of the map they describe.
pub proof fn lemma_entries_map_values<A, B>(s: Seq<(Seq<char>, A)>, t: Seq<(Seq<char>, B)>, f: spec_fn(A) -> B)
    requires
        t.len() == s.len(),
        forall|i: int| 0 <= i < s.len() ==> #[trigger] t[i] == (s[i].0, f(s[i].1)),
    ensures
        entries_map(t) == entries_map(s).map_values(f),
    decreases s.len(),
{
    if s.len() > 0 {
        let s1 = s.drop_last();
        let t1 = t.drop_last();
        assert forall|i: int| 0 <= i < s1.len() implies #[trigger] t1[i] == (s1[i].0, f(s1[i].1)) by {
            assert(t[i] == (s[i].0, f(s[i].1)));
        }
        lemma_entries_map_values(s1, t1, f);
        assert(t.last() == (s.last().0, f(s.last().1)));
        assert(entries_map(t) =~= entries_map(s).map_values(f));
    } else {
        assert(entries_map(t) =~= entries_map(s).map_values(f));
    }
}

/// Replacing the value of one entry replaces that key's value in the map.
pub proof fn lemma_entries_map_update<A>(s: Seq<(Seq<char>, A)>, j: int, v: A)
    requires
        distinct_keys(s),
        0 <= j < s.len(),
    ensures
        distinct_keys(s.update(j, (s[j].0, v))),
        entries_map(s.update(j, (s[j].0, v))) == entries_map(s).insert(s[j].0, v),
{
    let u = s.update(j, (s[j].0, v));
    assert(distinct_keys(u)) by {
        assert forall|a: int, b: int| 0 <= a < b < u.len() implies (#[trigger] u[a]).0 != (
        #[trigger] u[b]).0 by {
            assert(s[a].0 != s[b].0);
        }
    }
    lemma_entries_map(s);
    lemma_entries_map(u);
    assert forall|k: Seq<char>| #[trigger] entries_map(u).dom().contains(k) <==> entries_map(
        s,
    ).insert(s[j].0, v).dom().contains(k) by {
        if entry_keys(u).contains(k) {
            let i = choose|i: int| 0 <= i < u.len() && entry_keys(u)[i] == k;
            assert(entry_keys(s)[i] == k);
        }
        if entry_keys(s).contains(k) {
            let i = choose|i: int| 0 <= i < s.len() && entry_keys(s)[i] == k;
            assert(entry_keys(u)[i] == k);
        }
        assert(entry_keys(s)[j] == s[j].0);
    }
    assert forall|k: Seq<char>| #[trigger] entries_map(u).dom().contains(k) implies entries_map(u)[k]
        == entries_map(s).insert(s[j].0, v)[k] by {
        let i = choose|i: int| 0 <= i < u.len() && entry_keys(u)[i] == k;
        assert(entries_map(u)[u[i].0] == u[i].1);
        if i != j {
            assert(entries_map(s)[s[i].0] == s[i].1);
            assert(s[i].0 != s[j].0);
        }
    }
    assert(entries_map(u) =~= entries_map(s).insert(s[j].0, v));
}

} // verus!
