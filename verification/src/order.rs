//! Lexicographic order on strings (by code point, which is the order `Ord` gives
//! `String`), sorting, and the canonical sorted form of a multiset or a set of strings.
use vstd::prelude::*;
use vstd::multiset::Multiset;

verus! {

broadcast use vstd::seq_lib::group_to_multiset_ensures, vstd::multiset::group_multiset_axioms;

/// `a` comes no later than `b` in code-point lexicographic order.
pub open spec fn lex_le(a: Seq<char>, b: Seq<char>) -> bool
    decreases a.len(),
{
    if a.len() == 0 {
        true
    } else if b.len() == 0 {
        false
    } else if a[0] != b[0] {
        (a[0] as int) < (b[0] as int)
    } else {
        lex_le(a.drop_first(), b.drop_first())
    }
}

/// `a` comes strictly before `b`.
pub open spec fn lex_lt(a: Seq<char>, b: Seq<char>) -> bool {
    lex_le(a, b) && a != b
}

/// Every element is no later than every element after it.
pub open spec fn is_sorted(s: Seq<Seq<char>>) -> bool {
    forall|i: int, j: int| 0 <= i < j < s.len() ==> lex_le(#[trigger] s[i], #[trigger] s[j])
}

/// Every element is strictly before every element after it.
pub open spec fn is_strictly_sorted(s: Seq<Seq<char>>) -> bool {
    forall|i: int, j: int| 0 <= i < j < s.len() ==> lex_lt(#[trigger] s[i], #[trigger] s[j])
}

/// The elements of a multiset in ascending order, each as often as it occurs.
pub open spec fn sorted_of(m: Multiset<Seq<char>>) -> Seq<Seq<char>> {
    choose|s: Seq<Seq<char>>| is_sorted(s) && s.to_multiset() == m
}

/// The elements of a set in ascending order.
pub open spec fn sorted_set(m: Set<Seq<char>>) -> Seq<Seq<char>> {
    choose|s: Seq<Seq<char>>| is_strictly_sorted(s) && s.to_set() == m
}

/// The order is reflexive.
pub proof fn lemma_lex_le_refl(a: Seq<char>)
    ensures
        lex_le(a, a),
    decreases a.len(),
{
    if a.len() > 0 {
        lemma_lex_le_refl(a.drop_first());
    }
}

/// Any two strings are ordered one way or the other.
pub proof fn lemma_lex_le_total(a: Seq<char>, b: Seq<char>)
    ensures
        lex_le(a, b) || lex_le(b, a),
    decreases a.len(),
{
    if a.len() > 0 && b.len() > 0 && a[0] == b[0] {
        lemma_lex_le_total(a.drop_first(), b.drop_first());
    }
}

/// Strings ordered both ways are equal.
pub proof fn lemma_lex_le_antisym(a: Seq<char>, b: Seq<char>)
    requires
        lex_le(a, b),
        lex_le(b, a),
    ensures
        a == b,
    decreases a.len(),
{
    if a.len() > 0 {
        lemma_lex_le_antisym(a.drop_first(), b.drop_first());
        assert(a =~= seq![a[0]] + a.drop_first());
        assert(b =~= seq![b[0]] + b.drop_first());
    } else {
        assert(b.len() == 0);
        assert(a =~= b);
    }
}

/// The order is transitive.
pub proof fn lemma_lex_le_trans(a: Seq<char>, b: Seq<char>, c: Seq<char>)
    requires
        lex_le(a, b),
        lex_le(b, c),
    ensures
        lex_le(a, c),
    decreases a.len(),
{
    if a.len() > 0 && b.len() > 0 && c.len() > 0 && a[0] == b[0] && b[0] == c[0] {
        lemma_lex_le_trans(a.drop_first(), b.drop_first(), c.drop_first());
    }
}

/// Comparing two strings gives the same answer as comparing what follows a common prefix.
proof fn lemma_lex_le_skip(a: Seq<char>, b: Seq<char>, i: int)
    requires
        0 <= i <= a.len(),
        i <= b.len(),
        a.take(i) == b.take(i),
    ensures
        lex_le(a, b) == lex_le(a.skip(i), b.skip(i)),
    decreases i,
{
    if i > 0 {
        assert(a[0] == a.take(i)[0]);
        assert(b[0] == b.take(i)[0]);
        assert(a.drop_first().take(i - 1) =~= a.take(i).drop_first());
        assert(b.drop_first().take(i - 1) =~= b.take(i).drop_first());
        lemma_lex_le_skip(a.drop_first(), b.drop_first(), i - 1);
        assert(a.drop_first().skip(i - 1) =~= a.skip(i));
        assert(b.drop_first().skip(i - 1) =~= b.skip(i));
    } else {
        assert(a.skip(0) =~= a);
        assert(b.skip(0) =~= b);
    }
}

/// Decides `lex_le` on two character vectors.
pub fn lex_le_chars(a: &Vec<char>, b: &Vec<char>) -> (r: bool)
    ensures
        r == lex_le(a@, b@),
{
    let mut i: usize = 0;
    while i < a.len() && i < b.len() && a[i] == b[i]
        invariant
            i <= a.len(),
            i <= b.len(),
            a@.take(i as int) == b@.take(i as int),
        decreases a.len() - i,
    {
        assert(a@.take(i + 1) =~= a@.take(i as int).push(a@[i as int]));
        assert(b@.take(i + 1) =~= b@.take(i as int).push(b@[i as int]));
        i = i + 1;
    }
    proof {
        lemma_lex_le_skip(a@, b@, i as int);
    }
    if i == a.len() {
        true
    } else if i == b.len() {
        false
    } else {
        proof {
            assert(a@.skip(i as int)[0] == a@[i as int]);
            assert(b@.skip(i as int)[0] == b@[i as int]);
        }
        a[i] < b[i]
    }
}

/// Two sorted sequences with the same elements, counted with multiplicity, are equal.
pub proof fn lemma_sorted_unique(a: Seq<Seq<char>>, b: Seq<Seq<char>>)
    requires
        is_sorted(a),
        is_sorted(b),
        a.to_multiset() == b.to_multiset(),
    ensures
        a == b,
    decreases a.len(),
{
    assert(a.len() == b.len()) by {
        vstd::seq_lib::to_multiset_len(a);
        vstd::seq_lib::to_multiset_len(b);
    }
    if a.len() > 0 {
        let x = a[0];
        let y = b[0];
        assert(a.to_multiset().count(x) > 0);
        assert(b.contains(x));
        let j = choose|j: int| 0 <= j < b.len() && b[j] == x;
        if j > 0 {
            assert(lex_le(b[0], b[j]));
        } else {
            lemma_lex_le_refl(y);
        }
        assert(b.to_multiset().count(y) > 0);
        assert(a.contains(y));
        let k = choose|k: int| 0 <= k < a.len() && a[k] == y;
        if k > 0 {
            assert(lex_le(a[0], a[k]));
        } else {
            lemma_lex_le_refl(x);
        }
        lemma_lex_le_antisym(x, y);
        assert(a.remove(0).to_multiset() == a.to_multiset().remove(x));
        assert(b.remove(0).to_multiset() == b.to_multiset().remove(y));
        assert(a.remove(0) =~= a.drop_first());
        assert(b.remove(0) =~= b.drop_first());
        assert(is_sorted(a.drop_first())) by {
            assert forall|i: int, j: int| 0 <= i < j < a.drop_first().len() implies lex_le(
                #[trigger] a.drop_first()[i],
                #[trigger] a.drop_first()[j],
            ) by {
                assert(lex_le(a[i + 1], a[j + 1]));
            }
        }
        assert(is_sorted(b.drop_first())) by {
            assert forall|i: int, j: int| 0 <= i < j < b.drop_first().len() implies lex_le(
                #[trigger] b.drop_first()[i],
                #[trigger] b.drop_first()[j],
            ) by {
                assert(lex_le(b[i + 1], b[j + 1]));
            }
        }
        lemma_sorted_unique(a.drop_first(), b.drop_first());
        assert(a =~= seq![x] + a.drop_first());
        assert(b =~= seq![y] + b.drop_first());
    } else {
        assert(a =~= b);
    }
}

/// A sorted sequence is the canonical sorted form of its own multiset.
pub proof fn lemma_sorted_is_sorted_of(s: Seq<Seq<char>>)
    requires
        is_sorted(s),
    ensures
        sorted_of(s.to_multiset()) == s,
{
    let t = sorted_of(s.to_multiset());
    assert(is_sorted(s) && s.to_multiset() == s.to_multiset());
    lemma_sorted_unique(t, s);
}

/// Two strictly sorted sequences with the same elements are equal.
pub proof fn lemma_strictly_sorted_unique(a: Seq<Seq<char>>, b: Seq<Seq<char>>)
    requires
        is_strictly_sorted(a),
        is_strictly_sorted(b),
        a.to_set() == b.to_set(),
    ensures
        a == b,
    decreases a.len(),
{
    if a.len() == 0 {
        if b.len() > 0 {
            assert(b.to_set().contains(b[0]));
        }
        assert(a =~= b);
    } else if b.len() == 0 {
        assert(a.to_set().contains(a[0]));
    } else {
        let x = a[0];
        let y = b[0];
        assert(a.to_set().contains(x));
        let j = choose|j: int| 0 <= j < b.len() && b[j] == x;
        if j > 0 {
            assert(lex_le(b[0], b[j]));
        } else {
            lemma_lex_le_refl(y);
        }
        assert(b.to_set().contains(y));
        let k = choose|k: int| 0 <= k < a.len() && a[k] == y;
        if k > 0 {
            assert(lex_le(a[0], a[k]));
        } else {
            lemma_lex_le_refl(x);
        }
        lemma_lex_le_antisym(x, y);
        let a1 = a.drop_first();
        let b1 = b.drop_first();
        assert(is_strictly_sorted(a1)) by {
            assert forall|i: int, j: int| 0 <= i < j < a1.len() implies lex_lt(
                #[trigger] a1[i],
                #[trigger] a1[j],
            ) by {
                assert(lex_lt(a[i + 1], a[j + 1]));
            }
        }
        assert(is_strictly_sorted(b1)) by {
            assert forall|i: int, j: int| 0 <= i < j < b1.len() implies lex_lt(
                #[trigger] b1[i],
                #[trigger] b1[j],
            ) by {
                assert(lex_lt(b[i + 1], b[j + 1]));
            }
        }
        assert(a1.to_set() =~= b1.to_set()) by {
            assert forall|z: Seq<char>| a1.to_set().contains(z) implies b1.to_set().contains(z) by {
                let i = choose|i: int| 0 <= i < a1.len() && a1[i] == z;
                assert(lex_lt(a[0], a[i + 1]));
                assert(a.to_set().contains(z));
                let m = choose|m: int| 0 <= m < b.len() && b[m] == z;
                assert(m != 0);
                assert(b1[m - 1] == z);
            }
            assert forall|z: Seq<char>| b1.to_set().contains(z) implies a1.to_set().contains(z) by {
                let i = choose|i: int| 0 <= i < b1.len() && b1[i] == z;
                assert(lex_lt(b[0], b[i + 1]));
                assert(b.to_set().contains(z));
                let m = choose|m: int| 0 <= m < a.len() && a[m] == z;
                assert(m != 0);
                assert(a1[m - 1] == z);
            }
        }
        lemma_strictly_sorted_unique(a1, b1);
        assert(a =~= seq![x] + a1);
        assert(b =~= seq![y] + b1);
    }
}

/// A strictly sorted sequence is the canonical sorted form of its own set.
pub proof fn lemma_strictly_sorted_is_sorted_set(s: Seq<Seq<char>>)
    requires
        is_strictly_sorted(s),
    ensures
        sorted_set(s.to_set()) == s,
{
    let t = sorted_set(s.to_set());
    assert(is_strictly_sorted(s) && s.to_set() == s.to_set());
    lemma_strictly_sorted_unique(t, s);
}

/// A sorted sequence without repeated elements is strictly sorted.
pub proof fn lemma_sorted_no_dup_strict(s: Seq<Seq<char>>)
    requires
        is_sorted(s),
        s.no_duplicates(),
    ensures
        is_strictly_sorted(s),
{
}

/// Sorting keeps the multiset, so it keeps the absence of repeats.
pub proof fn lemma_same_multiset_no_dup(a: Seq<Seq<char>>, b: Seq<Seq<char>>)
    requires
        a.no_duplicates(),
        a.to_multiset() == b.to_multiset(),
    ensures
        b.no_duplicates(),
        a.to_set() == b.to_set(),
{
    a.lemma_multiset_has_no_duplicates();
    b.lemma_multiset_has_no_duplicates_conv();
    assert forall|z: Seq<char>| a.to_set().contains(z) <==> b.to_set().contains(z) by {
        assert(a.contains(z) <==> a.to_multiset().count(z) > 0);
        assert(b.contains(z) <==> b.to_multiset().count(z) > 0);
    }
    assert(a.to_set() =~= b.to_set());
}

/// Sorts character vectors into ascending lexicographic order.
pub fn sort_strings(v: Vec<Vec<char>>) -> (r: Vec<Vec<char>>)
    ensures
        r@.map_values(|s: Vec<char>| s@) == sorted_of(v@.map_values(|s: Vec<char>| s@).to_multiset()),
        r@.map_values(|s: Vec<char>| s@).to_multiset() == v@.map_values(|s: Vec<char>| s@).to_multiset(),
        is_sorted(r@.map_values(|s: Vec<char>| s@)),
{
    let ghost input = v@.map_values(|s: Vec<char>| s@);
    let mut r: Vec<Vec<char>> = Vec::new();
    let mut v = v;
    let n = v.len();
    let mut i: usize = 0;
    while v.len() > 0
        invariant
            v@.map_values(|s: Vec<char>| s@) == input.skip(i as int),
            i + v.len() == n,
            n == input.len(),
            is_sorted(r@.map_values(|s: Vec<char>| s@)),
            r@.map_values(|s: Vec<char>| s@).to_multiset() == input.take(i as int).to_multiset(),
        decreases v.len(),
    {
        let ghost before = v@;
        let x = v.remove(0);
        let ghost rv = r@.map_values(|s: Vec<char>| s@);
        assert(x@ == input[i as int]) by {
            assert(before.map_values(|s: Vec<char>| s@)[0] == input.skip(i as int)[0]);
        }
        // find the first position whose element is not before x
        let mut j: usize = 0;
        while j < r.len() && !lex_le_chars(&x, &r[j])
            invariant
                j <= r.len(),
                rv == r@.map_values(|s: Vec<char>| s@),
                forall|k: int| 0 <= k < j ==> !lex_le(x@, #[trigger] rv[k]),
            decreases r.len() - j,
        {
            j = j + 1;
        }
        r.insert(j, x);
        proof {
            let nv = r@.map_values(|s: Vec<char>| s@);
            assert(nv =~= rv.insert(j as int, x@));
            assert forall|a: int, b: int| 0 <= a < b < nv.len() implies lex_le(
                #[trigger] nv[a],
                #[trigger] nv[b],
            ) by {
                if a < j && b == j {
                    lemma_lex_le_total(x@, rv[a]);
                } else if a < j && b > j {
                    assert(lex_le(rv[a], rv[b - 1]));
                } else if a == j && b > j {
                    if j < rv.len() {
                        if b - 1 > j {
                            assert(lex_le(rv[j as int], rv[b - 1]));
                            lemma_lex_le_trans(x@, rv[j as int], rv[b - 1]);
                        }
                    }
                } else if a > j {
                    assert(lex_le(rv[a - 1], rv[b - 1]));
                } else {
                    assert(lex_le(rv[a], rv[b]));
                }
            }
            assert(input.take(i + 1) =~= input.take(i as int).push(input[i as int]));
            assert(input.skip(i as int).drop_first() =~= input.skip(i + 1));
            assert(v@ =~= before.drop_first());
            assert(v@.map_values(|s: Vec<char>| s@) =~= input.skip(i + 1));
        }
        i = i + 1;
    }
    proof {
        assert(input.take(n as int) =~= input);
        lemma_sorted_is_sorted_of(r@.map_values(|s: Vec<char>| s@));
    }
    r
}

/// `x` placed before the first element that it is not after.
pub open spec fn insert_sorted(x: Seq<char>, s: Seq<Seq<char>>) -> Seq<Seq<char>>
    decreases s.len(),
{
    if s.len() == 0 {
        seq![x]
    } else if lex_le(x, s[0]) {
        seq![x] + s
    } else {
        seq![s[0]] + insert_sorted(x, s.drop_first())
    }
}

/// Insertion sort, as a definition.
pub open spec fn insertion_sort(s: Seq<Seq<char>>) -> Seq<Seq<char>>
    decreases s.len(),
{
    if s.len() == 0 {
        s
    } else {
        insert_sorted(s.last(), insertion_sort(s.drop_last()))
    }
}

proof fn lemma_insert_sorted(x: Seq<char>, s: Seq<Seq<char>>)
    requires
        is_sorted(s),
    ensures
        is_sorted(insert_sorted(x, s)),
        insert_sorted(x, s).to_multiset() == s.to_multiset().insert(x),
        forall|z: Seq<char>| #[trigger] insert_sorted(x, s).contains(z) ==> z == x || s.contains(z),
    decreases s.len(),
{
    let r = insert_sorted(x, s);
    if s.len() == 0 {
        assert(r =~= Seq::<Seq<char>>::empty().push(x));
        assert(Seq::<Seq<char>>::empty().to_multiset() =~= Multiset::empty());
    } else if lex_le(x, s[0]) {
        assert(r =~= s.insert(0, x));
        assert forall|i: int, j: int| 0 <= i < j < r.len() implies lex_le(#[trigger] r[i], #[trigger] r[j]) by {
            if i == 0 {
                if j > 1 {
                    assert(lex_le(s[0], s[j - 1]));
                    lemma_lex_le_trans(x, s[0], s[j - 1]);
                }
            } else {
                assert(lex_le(s[i - 1], s[j - 1]));
            }
        }
        assert forall|z: Seq<char>| #[trigger] r.contains(z) implies z == x || s.contains(z) by {
            let i = choose|i: int| 0 <= i < r.len() && r[i] == z;
            if i > 0 {
                assert(s[i - 1] == z);
            }
        }
    } else {
        let t = s.drop_first();
        assert(is_sorted(t)) by {
            assert forall|i: int, j: int| 0 <= i < j < t.len() implies lex_le(#[trigger] t[i], #[trigger] t[j]) by {
                assert(lex_le(s[i + 1], s[j + 1]));
            }
        }
        lemma_insert_sorted(x, t);
        let it = insert_sorted(x, t);
        assert(r =~= seq![s[0]] + it);
        lemma_lex_le_total(x, s[0]);
        assert forall|i: int, j: int| 0 <= i < j < r.len() implies lex_le(#[trigger] r[i], #[trigger] r[j]) by {
            if i == 0 {
                assert(it.contains(r[j])) by {
                    assert(it[j - 1] == r[j]);
                }
                if r[j] != x {
                    assert(t.contains(r[j]));
                    let k = choose|k: int| 0 <= k < t.len() && t[k] == r[j];
                    assert(lex_le(s[0], s[k + 1]));
                }
            } else {
                assert(lex_le(it[i - 1], it[j - 1]));
            }
        }
        assert forall|z: Seq<char>| #[trigger] r.contains(z) implies z == x || s.contains(z) by {
            let i = choose|i: int| 0 <= i < r.len() && r[i] == z;
            if i > 0 {
                assert(it.contains(z)) by {
                    assert(it[i - 1] == z);
                }
                if z != x {
                    let k = choose|k: int| 0 <= k < t.len() && t[k] == z;
                    assert(s[k + 1] == z);
                }
            } else {
                assert(s[0] == z);
            }
        }
        assert(s =~= t.insert(0, s[0]));
        assert(r =~= it.insert(0, s[0]));
        assert(r.to_multiset() =~= s.to_multiset().insert(x));
    }
}

/// Insertion sort sorts, and keeps every element as often as it occurs.
pub proof fn lemma_insertion_sort(s: Seq<Seq<char>>)
    ensures
        is_sorted(insertion_sort(s)),
        insertion_sort(s).to_multiset() == s.to_multiset(),
    decreases s.len(),
{
    if s.len() > 0 {
        lemma_insertion_sort(s.drop_last());
        lemma_insert_sorted(s.last(), insertion_sort(s.drop_last()));
        assert(s =~= s.drop_last().push(s.last()));
    }
}

/// The canonical sorted form of a sequence's multiset is sorted and has that multiset.
pub proof fn lemma_sorted_of(s: Seq<Seq<char>>)
    ensures
        is_sorted(sorted_of(s.to_multiset())),
        sorted_of(s.to_multiset()).to_multiset() == s.to_multiset(),
{
    lemma_insertion_sort(s);
    let w = insertion_sort(s);
    assert(is_sorted(w) && w.to_multiset() == s.to_multiset());
}

/// For a sequence without repeats, sorting it as a multiset or as a set agrees.
pub proof fn lemma_sorted_of_distinct(s: Seq<Seq<char>>)
    requires
        s.no_duplicates(),
    ensures
        sorted_of(s.to_multiset()) == sorted_set(s.to_set()),
{
    lemma_sorted_of(s);
    let t = sorted_of(s.to_multiset());
    lemma_same_multiset_no_dup(s, t);
    lemma_sorted_no_dup_strict(t);
    lemma_strictly_sorted_is_sorted_set(t);
}

/// Every finite set is listed, each element once, by some sequence.
proof fn lemma_finite_set_listed(m: Set<Seq<char>>) -> (s: Seq<Seq<char>>)
    requires
        m.finite(),
    ensures
        s.no_duplicates(),
        s.to_set() == m,
    decreases m.len(),
{
    if m.len() == 0 {
        assert(m =~= Set::<Seq<char>>::empty());
        let e = Seq::<Seq<char>>::empty();
        assert(e.to_set() =~= m);
        e
    } else {
        let x = m.choose();
        let rest = lemma_finite_set_listed(m.remove(x));
        let s = rest.push(x);
        assert forall|i: int, j: int| 0 <= i < j < s.len() implies s[i] != s[j] by {
            if j == rest.len() {
                assert(rest.to_set().contains(rest[i]));
            } else {
                assert(rest[i] != rest[j]);
            }
        }
        assert forall|z: Seq<char>| s.to_set().contains(z) <==> m.contains(z) by {
            if s.contains(z) {
                let i = choose|i: int| 0 <= i < s.len() && s[i] == z;
                if i < rest.len() {
                    assert(rest.to_set().contains(z));
                }
            }
            if m.contains(z) && z != x {
                assert(rest.to_set().contains(z));
                let i = choose|i: int| 0 <= i < rest.len() && rest[i] == z;
                assert(s[i] == z);
            }
            if z == x {
                assert(s[rest.len() as int] == z);
            }
        }
        assert(s.to_set() =~= m);
        s
    }
}

/// The canonical sorted form of a finite set is strictly sorted and lists the set; it is
/// empty exactly when the set is.
pub proof fn lemma_sorted_set(m: Set<Seq<char>>)
    requires
        m.finite(),
    ensures
        is_strictly_sorted(sorted_set(m)),
        sorted_set(m).to_set() == m,
        sorted_set(m).len() == 0 <==> m == Set::<Seq<char>>::empty(),
{
    let s = lemma_finite_set_listed(m);
    lemma_sorted_of_distinct(s);
    lemma_sorted_of(s);
    let t = sorted_of(s.to_multiset());
    lemma_same_multiset_no_dup(s, t);
    lemma_sorted_no_dup_strict(t);
    if t.len() == 0 {
        assert(t.to_set() =~= Set::<Seq<char>>::empty());
    } else {
        assert(t.to_set().contains(t[0]));
    }
}

} // verus!
