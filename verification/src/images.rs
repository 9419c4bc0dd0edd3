//! Names of images copied next to a TeX output: each source keeps its file
//! name unless another source already took it, in which case `_2`, `_3`, ...
//! go before the extension.

use vstd::prelude::*;
use crate::paths::{file_name_of, opt_string, path_file_name};
use crate::text::{chars_eq, chars_of, decimal, digits_value, lemma_decimal_digits, push_decimal, push_str};

verus! {

/// Name for `Path == Path` (paths compared by their components).
pub uninterp spec fn path_eq(a: Seq<char>, b: Seq<char>) -> bool;

/// `std::path::Path`'s equality, which compares paths component by
/// component. Only the name above is claimed.
#[verifier::external_body]
fn same_path(a: &str, b: &str) -> (r: bool)
    ensures
        r == path_eq(a@, b@),
{
    std::path::Path::new(a) == std::path::Path::new(b)
}

/// The position of the last `.` in `t[..i]`, or -1.
pub open spec fn last_dot(t: Seq<char>, i: int) -> int
    decreases i,
{
    if i <= 0 {
        -1
    } else if t[i - 1] == '.' {
        i - 1
    } else {
        last_dot(t, i - 1)
    }
}

proof fn lemma_last_dot(t: Seq<char>, i: int)
    requires
        0 <= i <= t.len(),
    ensures
        -1 <= last_dot(t, i) < i,
        last_dot(t, i) >= 0 ==> t[last_dot(t, i)] == '.',
    decreases i,
{
    if i > 0 && t[i - 1] != '.' {
        lemma_last_dot(t, i - 1);
    }
}

/// The file name split before its last dot, when something precedes the
/// dot; otherwise the whole name and no extension.
pub open spec fn split_ext(base: Seq<char>) -> (Seq<char>, Seq<char>) {
    let p = last_dot(base, base.len() as int);
    if p > 0 { (base.subrange(0, p), base.subrange(p, base.len() as int)) } else { (base, Seq::empty()) }
}

/// The `n`-th name tried for a file name: the name itself first, then
/// `stem_n.ext`.
pub open spec fn candidate(base: Seq<char>, n: nat) -> Seq<char> {
    if n <= 1 {
        base
    } else {
        split_ext(base).0 + seq!['_'] + decimal(n) + split_ext(base).1
    }
}

/// The file name of a source, `image.png` when it has none.
pub open spec fn base_of(src: Seq<char>) -> Seq<char> {
    match path_file_name(src) {
        Some(n) => n,
        None => "image.png"@,
    }
}

pub open spec fn names_of(es: Seq<(Seq<char>, Seq<char>)>) -> Seq<Seq<char>> {
    es.map_values(|e: (Seq<char>, Seq<char>)| e.0)
}

/// The source that a name was given to.
pub open spec fn owner_of(es: Seq<(Seq<char>, Seq<char>)>, name: Seq<char>) -> Option<Seq<char>> {
    if exists|j: int| 0 <= j < es.len() && (#[trigger] es[j]).0 == name {
        Some(es[choose|j: int| 0 <= j < es.len() && (#[trigger] es[j]).0 == name].1)
    } else {
        None
    }
}

/// A name is taken by a different source.
pub open spec fn blocked(es: Seq<(Seq<char>, Seq<char>)>, name: Seq<char>, src: Seq<char>) -> bool {
    match owner_of(es, name) {
        Some(o) => !path_eq(o, src),
        None => false,
    }
}

/// No name is given twice.
pub open spec fn names_unique(es: Seq<(Seq<char>, Seq<char>)>) -> bool {
    forall|i: int, j: int| 0 <= i < j < es.len() ==> (#[trigger] es[i]).0 != (#[trigger] es[j]).0
}

pub open spec fn entries_view(v: Seq<(String, String)>) -> Seq<(Seq<char>, Seq<char>)> {
    v.map_values(|e: (String, String)| (e.0@, e.1@))
}

// ---------------------------------------------------------------------------
// Distinct candidates
// ---------------------------------------------------------------------------

proof fn lemma_candidates_distinct(base: Seq<char>, k: nat, n: nat)
    requires
        1 <= k < n,
    ensures
        candidate(base, k) != candidate(base, n),
{
    let (stem, ext) = split_ext(base);
    let p = last_dot(base, base.len() as int);
    lemma_last_dot(base, base.len() as int);
    lemma_decimal_digits(n);
    lemma_decimal_digits(k);
    assert(stem.len() + ext.len() == base.len());
    if k == 1 {
        assert(candidate(base, n).len() == stem.len() + 1 + decimal(n).len() + ext.len());
    } else {
        if candidate(base, k) == candidate(base, n) {
            let ck = candidate(base, k);
            let cn = candidate(base, n);
            assert(ck == stem + seq!['_'] + decimal(k) + ext);
            assert(cn == stem + seq!['_'] + decimal(n) + ext);
            assert(ck.len() == stem.len() + 1 + decimal(k).len() + ext.len());
            assert(cn.len() == stem.len() + 1 + decimal(n).len() + ext.len());
            assert(decimal(k).len() == decimal(n).len());
            let lo: int = stem.len() as int + 1;
            assert(ck.subrange(lo, lo + decimal(k).len()) =~= decimal(k));
            assert(cn.subrange(lo, lo + decimal(n).len()) =~= decimal(n));
            assert(decimal(k) == decimal(n));
            assert(digits_value(decimal(k)) == digits_value(decimal(n)));
        }
    }
}

/// Whether entry `j`'s name is one of the first `n - 1` candidates.
pub open spec fn seen(names: Seq<Seq<char>>, base: Seq<char>, j: int, n: nat) -> bool {
    exists|k: nat| 1 <= k < n && names[j] == candidate(base, k)
}

/// Entries among the first `m` whose names are none of the first `n - 1`
/// candidates.
pub open spec fn unseen(names: Seq<Seq<char>>, base: Seq<char>, n: nat, m: int) -> nat
    decreases m,
{
    if m <= 0 {
        0
    } else {
        unseen(names, base, n, m - 1) + if seen(names, base, m - 1, n) { 0nat } else { 1nat }
    }
}

proof fn lemma_unseen_bound(names: Seq<Seq<char>>, base: Seq<char>, n: nat, m: int)
    ensures
        unseen(names, base, n, m) <= if m < 0 { 0 } else { m },
    decreases m,
{
    if m > 0 {
        lemma_unseen_bound(names, base, n, m - 1);
    }
}

proof fn lemma_unseen_all(names: Seq<Seq<char>>, base: Seq<char>, m: int)
    requires
        m >= 0,
    ensures
        unseen(names, base, 1, m) == m,
    decreases m,
{
    if m > 0 {
        lemma_unseen_all(names, base, m - 1);
        assert(!seen(names, base, m - 1, 1));
    }
}

/// Trying one more candidate never makes an entry unseen again, and the
/// entry holding that candidate becomes seen.
proof fn lemma_unseen_step(names: Seq<Seq<char>>, base: Seq<char>, n: nat, m: int, j: int)
    requires
        n >= 1,
        0 <= j < m,
        names[j] == candidate(base, n),
    ensures
        unseen(names, base, n + 1, m) < unseen(names, base, n, m),
    decreases m,
{
    assert(seen(names, base, j, (n + 1) as nat)) by {
        assert(1 <= n < n + 1 && names[j] == candidate(base, n));
    }
    assert(!seen(names, base, j, n)) by {
        if seen(names, base, j, n) {
            let k = choose|k: nat| 1 <= k < n && names[j] == candidate(base, k);
            lemma_candidates_distinct(base, k, n);
        }
    }
    if j < m - 1 {
        lemma_unseen_step(names, base, n, m - 1, j);
        lemma_seen_grows(names, base, m - 1, n);
    } else {
        lemma_unseen_mono(names, base, n, m - 1);
    }
}

proof fn lemma_seen_grows(names: Seq<Seq<char>>, base: Seq<char>, j: int, n: nat)
    ensures
        seen(names, base, j, n) ==> seen(names, base, j, n + 1),
{
    if seen(names, base, j, n) {
        let k = choose|k: nat| 1 <= k < n && names[j] == candidate(base, k);
        assert(1 <= k < n + 1 && names[j] == candidate(base, k));
    }
}

proof fn lemma_unseen_mono(names: Seq<Seq<char>>, base: Seq<char>, n: nat, m: int)
    ensures
        unseen(names, base, n + 1, m) <= unseen(names, base, n, m),
    decreases m,
{
    if m > 0 {
        lemma_unseen_mono(names, base, n, m - 1);
        lemma_seen_grows(names, base, m - 1, n);
    }
}

// ---------------------------------------------------------------------------
// The name of a copied image
// ---------------------------------------------------------------------------

proof fn lemma_unique_witness(es: Seq<(Seq<char>, Seq<char>)>, src: Seq<char>, base: Seq<char>, n: nat, name: Seq<char>)
    requires
        base == base_of(src),
        1 <= n,
        name == candidate(base, n),
        !blocked(es, name, src),
        forall|k: nat| 1 <= k < n ==> #[trigger] blocked(es, candidate(base, k), src),
    ensures
        is_unique_name(es, src, name),
{
    assert(name == candidate(base_of(src), n));
    assert(forall|k: nat| 1 <= k < n ==> #[trigger] blocked(es, candidate(base_of(src), k), src));
}

/// The name chosen for `src`: the first candidate not taken by another
/// source.
pub open spec fn is_unique_name(es: Seq<(Seq<char>, Seq<char>)>, src: Seq<char>, r: Seq<char>) -> bool {
    exists|n: nat| #![trigger candidate(base_of(src), n)]
        1 <= n && r == candidate(base_of(src), n) && !blocked(es, r, src)
            && forall|k: nat| 1 <= k < n ==> #[trigger] blocked(es, candidate(base_of(src), k), src)
}

fn find_owner(owners: &Vec<(String, String)>, name: &Vec<char>) -> (r: Option<usize>)
    ensures
        match r {
            Some(j) => j < owners@.len() && owners@[j as int].0@ == name@,
            None => forall|j: int| 0 <= j < owners@.len() ==> owners@[j].0@ != name@,
        },
{
    let mut j: usize = 0;
    while j < owners.len()
        invariant
            j <= owners@.len(),
            forall|i: int| 0 <= i < j ==> owners@[i].0@ != name@,
        decreases owners@.len() - j,
    {
        if chars_eq(&chars_of(owners[j].0.as_str()), name) {
            return Some(j);
        }
        j += 1;
    }
    None
}

fn split_ext_exec(base: &str) -> (r: (String, String))
    ensures
        (r.0@, r.1@) == split_ext(base@),
{
    let b = chars_of(base);
    let mut i: usize = b.len();
    proof {
        lemma_last_dot(b@, b@.len() as int);
    }
    while i > 0 && b[i - 1] != '.'
        invariant
            i <= b@.len(),
            last_dot(b@, i as int) == last_dot(b@, b@.len() as int),
        decreases i,
    {
        i -= 1;
    }
    if i > 1 {
        let p = i - 1;
        assert(last_dot(b@, b@.len() as int) == p);
        (
            crate::text::string_from_chars(&crate::text::slice_of(&b, 0, p)),
            crate::text::string_from_chars(&crate::text::slice_of(&b, p, b.len())),
        )
    } else {
        assert(last_dot(b@, b@.len() as int) <= 0);
        (base.to_owned(), String::new())
    }
}

/// Chooses the name under which `src` is copied (see [`is_unique_name`])
/// and records a name given for the first time.
pub fn unique_name(src: &str, owners: &mut Vec<(String, String)>) -> (r: String)
    requires
        names_unique(entries_view(old(owners)@)),
        old(owners)@.len() < usize::MAX,
    ensures
        is_unique_name(entries_view(old(owners)@), src@, r@),
        names_unique(entries_view(final(owners)@)),
        entries_view(final(owners)@) == if owner_of(entries_view(old(owners)@), r@) is None {
            entries_view(old(owners)@).push((r@, src@))
        } else {
            entries_view(old(owners)@)
        },
{
    let ghost o0 = owners@;
    let ghost es = entries_view(owners@);
    let ghost names = names_of(es);
    let base = match file_name_of(src) {
        Some(n) => n,
        None => "image.png".to_owned(),
    };
    assert(base@ == base_of(src@));
    let (stem, ext) = split_ext_exec(base.as_str());
    let mut candidate_name = base.clone();
    let mut n: usize = 1;
    proof {
        lemma_unseen_all(names, base@, es.len() as int);
    }
    loop
        invariant
            owners@ == o0,
            o0 == old(owners)@,
            es == entries_view(owners@),
            names == names_of(es),
            names_unique(es),
            owners@.len() < usize::MAX,
            base@ == base_of(src@),
            (stem@, ext@) == split_ext(base@),
            1 <= n,
            candidate_name@ == candidate(base@, n as nat),
            n + unseen(names, base@, n as nat, es.len() as int) <= es.len() + 1,
            forall|k: nat| 1 <= k < n ==> #[trigger] blocked(es, candidate(base@, k), src@),
        decreases unseen(names, base@, n as nat, es.len() as int),
    {
        let cc = chars_of(candidate_name.as_str());
        match find_owner(owners, &cc) {
            None => {
                proof {
                    assert(owner_of(es, candidate_name@) is None) by {
                        if exists|j: int| 0 <= j < es.len() && (#[trigger] es[j]).0 == candidate_name@ {
                            let j = choose|j: int| 0 <= j < es.len() && (#[trigger] es[j]).0 == candidate_name@;
                            assert(owners@[j].0@ == es[j].0);
                        }
                    }
                    assert(!blocked(es, candidate_name@, src@));
                    lemma_unique_witness(es, src@, base@, n as nat, candidate_name@);
                }
                let ghost before = owners@;
                owners.push((candidate_name.clone(), src.to_owned()));
                proof {
                    assert(entries_view(owners@) =~= es.push((candidate_name@, src@)));
                    assert forall|i: int, j: int| 0 <= i < j < entries_view(owners@).len() implies
                        (#[trigger] entries_view(owners@)[i]).0 != (#[trigger] entries_view(owners@)[j]).0 by {
                        if j == es.len() {
                            assert(owners@[i].0@ == es[i].0);
                        }
                    }
                }
                return candidate_name;
            },
            Some(j) => {
                let same = same_path(owners[j].1.as_str(), src);
                proof {
                    assert(es[j as int].0 == candidate_name@);
                    assert(owner_of(es, candidate_name@) == Some(es[j as int].1)) by {
                        let c = choose|i: int| 0 <= i < es.len() && (#[trigger] es[i]).0 == candidate_name@;
                        if c != j as int {
                            if c < j as int {
                                assert(es[c].0 != es[j as int].0);
                            } else {
                                assert(es[j as int].0 != es[c].0);
                            }
                        }
                    }
                }
                if same {
                    proof {
                        assert(!blocked(es, candidate_name@, src@));
                        lemma_unique_witness(es, src@, base@, n as nat, candidate_name@);
                    }
                    return candidate_name;
                }
                proof {
                    assert(blocked(es, candidate(base@, n as nat), src@));
                    assert(names[j as int] == candidate(base@, n as nat));
                    lemma_unseen_step(names, base@, n as nat, es.len() as int, j as int);
                    lemma_unseen_bound(names, base@, (n + 1) as nat, es.len() as int);
                }
                n = n + 1;
                let mut next = String::new();
                push_str(&mut next, stem.as_str());
                crate::text::push_char(&mut next, '_');
                push_decimal(&mut next, n);
                push_str(&mut next, ext.as_str());
                assert(next@ =~= candidate(base@, n as nat));
                candidate_name = next;
            },
        }
    }
}

} // verus!
