//! Strings in lexicographic order (by code point, the order of `String`),
//! and sorted lists of distinct strings.
use vstd::prelude::*;

verus! {

/// `a` comes strictly before `b`.
pub open spec fn str_lt(a: Seq<char>, b: Seq<char>) -> bool
    decreases a.len(),
{
    if b.len() == 0 {
        false
    } else if a.len() == 0 {
        true
    } else if a[0] != b[0] {
        a[0] < b[0]
    } else {
        str_lt(a.drop_first(), b.drop_first())
    }
}

pub proof fn lemma_str_lt_irreflexive(a: Seq<char>)
    ensures
        !str_lt(a, a),
    decreases a.len(),
{
    if a.len() > 0 {
        lemma_str_lt_irreflexive(a.drop_first());
    }
}

pub proof fn lemma_str_lt_total(a: Seq<char>, b: Seq<char>)
    ensures
        a == b || str_lt(a, b) || str_lt(b, a),
    decreases a.len(),
{
    if a.len() > 0 && b.len() > 0 && a[0] == b[0] {
        lemma_str_lt_total(a.drop_first(), b.drop_first());
        if a.drop_first() == b.drop_first() {
            assert(a =~= seq![a[0]] + a.drop_first());
            assert(b =~= seq![b[0]] + b.drop_first());
        }
    } else if a.len() == 0 && b.len() == 0 {
        assert(a =~= b);
    }
}

pub proof fn lemma_str_lt_asymmetric(a: Seq<char>, b: Seq<char>)
    ensures
        !(str_lt(a, b) && str_lt(b, a)),
    decreases a.len(),
{
    if a.len() > 0 && b.len() > 0 && a[0] == b[0] {
        lemma_str_lt_asymmetric(a.drop_first(), b.drop_first());
    }
}

pub proof fn lemma_str_lt_transitive(a: Seq<char>, b: Seq<char>, c: Seq<char>)
    requires
        str_lt(a, b),
        str_lt(b, c),
    ensures
        str_lt(a, c),
    decreases a.len(),
{
    if a.len() > 0 && b.len() > 0 && c.len() > 0 && a[0] == b[0] && b[0] == c[0] {
        lemma_str_lt_transitive(a.drop_first(), b.drop_first(), c.drop_first());
    }
}

/// Executable [`str_lt`].
pub fn str_less(a: &[char], b: &[char]) -> (r: bool)
    ensures
        r == str_lt(a@, b@),
{
    let mut i: usize = 0;
    assert(a@.subrange(0, a@.len() as int) =~= a@);
    assert(b@.subrange(0, b@.len() as int) =~= b@);
    while i < a.len() && i < b.len() && a[i] == b[i]
        invariant
            i <= a@.len(),
            i <= b@.len(),
            str_lt(a@.subrange(i as int, a@.len() as int), b@.subrange(i as int, b@.len() as int))
                == str_lt(a@, b@),
        decreases a@.len() - i,
    {
        assert(a@.subrange(i as int, a@.len() as int).drop_first() =~= a@.subrange(i + 1, a@.len() as int));
        assert(b@.subrange(i as int, b@.len() as int).drop_first() =~= b@.subrange(i + 1, b@.len() as int));
        i += 1;
    }
    if i == b.len() {
        false
    } else if i == a.len() {
        true
    } else {
        a[i] < b[i]
    }
}

/// Strictly increasing, hence free of repetitions.
pub open spec fn strictly_sorted(s: Seq<Seq<char>>) -> bool {
    forall|i: int, j: int| 0 <= i < j < s.len() ==> #[trigger] str_lt(s[i], s[j])
}

pub open spec fn views(v: Seq<Vec<char>>) -> Seq<Seq<char>> {
    v.map_values(|x: Vec<char>| x@)
}

/// Adds `x` to a sorted list of distinct strings, in its place (nothing
/// happens when it is already there).
pub fn insert_sorted(list: &mut Vec<Vec<char>>, x: Vec<char>)
    requires
        strictly_sorted(views(old(list)@)),
    ensures
        strictly_sorted(views(final(list)@)),
        forall|y: Seq<char>| views(final(list)@).contains(y) <==> (views(old(list)@).contains(y) || y == x@),
{
    let ghost s0 = views(list@);
    let mut p: usize = 0;
    while p < list.len() && str_less(&list[p], &x)
        invariant
            p <= list@.len(),
            views(list@) == s0,
            forall|k: int| 0 <= k < p ==> #[trigger] str_lt(s0[k], x@),
        decreases list@.len() - p,
    {
        p += 1;
    }
    if p < list.len() {
        assert(!str_lt(s0[p as int], x@));
        proof {
            lemma_str_lt_total(s0[p as int], x@);
        }
        if !str_less(&x, &list[p]) {
            assert(s0[p as int] == x@);
            return;
        }
    }
    list.insert(p, x);
    proof {
        let s1 = views(list@);
        assert(s1 =~= s0.insert(p as int, x@));
        assert forall|i: int, j: int| 0 <= i < j < s1.len() implies #[trigger] str_lt(s1[i], s1[j]) by {
            if j < p {
            } else if j == p {
            } else if i <= p {
                if j - 1 > p {
                    lemma_str_lt_transitive(x@, s0[p as int], s0[j - 1]);
                }
                if i < p {
                    lemma_str_lt_transitive(s1[i], x@, s1[j]);
                }
            } else {
            }
        }
        assert forall|y: Seq<char>| s1.contains(y) <==> (s0.contains(y) || y == x@) by {
            if s1.contains(y) {
                let k = choose|k: int| 0 <= k < s1.len() && s1[k] == y;
                if k < p {
                    assert(s0[k] == y);
                } else if k > p {
                    assert(s0[k - 1] == y);
                }
            }
            if y == x@ {
                assert(s1[p as int] == y);
            } else if s0.contains(y) {
                let k = choose|k: int| 0 <= k < s0.len() && s0[k] == y;
                if k < p {
                    assert(s1[k] == y);
                } else {
                    assert(s1[k + 1] == y);
                }
            }
        }
    }
}

/// A sorted list without repetitions is determined by its members: two such
/// lists with the same members are equal.
pub proof fn lemma_sorted_unique(a: Seq<Seq<char>>, b: Seq<Seq<char>>)
    requires
        strictly_sorted(a),
        strictly_sorted(b),
        forall|x: Seq<char>| a.contains(x) <==> b.contains(x),
    ensures
        a == b,
    decreases a.len() + b.len(),
{
    if a.len() == 0 {
        if b.len() > 0 {
            assert(b.contains(b[0]));
        }
        assert(a =~= b);
    } else if b.len() == 0 {
        assert(a.contains(a[0]));
    } else {
        // the first elements are the least members of each list
        let x = a[0];
        let y = b[0];
        assert(a.contains(x));
        assert(b.contains(y));
        let j = choose|j: int| 0 <= j < b.len() && b[j] == x;
        let i = choose|i: int| 0 <= i < a.len() && a[i] == y;
        if x != y {
            if j > 0 {
                assert(str_lt(y, x));
            }
            if i > 0 {
                assert(str_lt(x, y));
            }
            if j > 0 && i > 0 {
                lemma_str_lt_asymmetric(x, y);
            }
            if j == 0 {
                assert(b[0] == x);
            }
            if i == 0 {
                assert(a[0] == y);
            }
        }
        assert(x == y);
        let a1 = a.drop_first();
        let b1 = b.drop_first();
        assert forall|z: Seq<char>| a1.contains(z) <==> b1.contains(z) by {
            if a1.contains(z) {
                let k = choose|k: int| 0 <= k < a1.len() && a1[k] == z;
                assert(a[k + 1] == z);
                assert(str_lt(a[0], a[k + 1]));
                lemma_str_lt_irreflexive(z);
                assert(b.contains(z));
                let m = choose|m: int| 0 <= m < b.len() && b[m] == z;
                if m == 0 {
                    assert(z == y);
                }
                assert(b1[m - 1] == z);
            }
            if b1.contains(z) {
                let k = choose|k: int| 0 <= k < b1.len() && b1[k] == z;
                assert(b[k + 1] == z);
                assert(str_lt(b[0], b[k + 1]));
                lemma_str_lt_irreflexive(z);
                assert(a.contains(z));
                let m = choose|m: int| 0 <= m < a.len() && a[m] == z;
                if m == 0 {
                    assert(z == x);
                }
                assert(a1[m - 1] == z);
            }
        }
        assert forall|p: int, q: int| 0 <= p < q < a1.len() implies #[trigger] str_lt(a1[p], a1[q]) by {
            assert(str_lt(a[p + 1], a[q + 1]));
        }
        assert forall|p: int, q: int| 0 <= p < q < b1.len() implies #[trigger] str_lt(b1[p], b1[q]) by {
            assert(str_lt(b[p + 1], b[q + 1]));
        }
        lemma_sorted_unique(a1, b1);
        assert(a =~= seq![x] + a1);
        assert(b =~= seq![y] + b1);
    }
}

} // verus!
