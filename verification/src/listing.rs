//! The sorted list of files a batch processes.

use vstd::prelude::*;
use vstd::multiset::Multiset;
use vstd::relations::{sorted_by, total_ordering};
use crate::routing::{is_scan_candidate, spec_is_scan_candidate, string_views};
use crate::text::chars_of;

verus! {

broadcast use {vstd::string::group_string_axioms, vstd::seq_lib::group_to_multiset_ensures};

/// `a` sorts before or equal to `b` in the order of `String`: compared character by
/// character by code point (for UTF-8 text the same as comparing the bytes), a proper
/// prefix sorting first.
pub open spec fn lex_le(a: Seq<char>, b: Seq<char>) -> bool
    decreases a.len(),
{
    if a.len() == 0 {
        true
    } else if b.len() == 0 {
        false
    } else if a[0] != b[0] {
        a[0] < b[0]
    } else {
        lex_le(a.drop_first(), b.drop_first())
    }
}

/// The order is total.
pub proof fn lemma_lex_total(a: Seq<char>, b: Seq<char>)
    ensures
        lex_le(a, b) || lex_le(b, a),
    decreases a.len(),
{
    if a.len() > 0 && b.len() > 0 {
        if a[0] == b[0] {
            lemma_lex_total(a.drop_first(), b.drop_first());
        }
    }
}

/// The order is transitive.
pub proof fn lemma_lex_transitive(a: Seq<char>, b: Seq<char>, c: Seq<char>)
    requires
        lex_le(a, b),
        lex_le(b, c),
    ensures
        lex_le(a, c),
    decreases a.len(),
{
    if a.len() > 0 && b.len() > 0 && c.len() > 0 && a[0] == b[0] && b[0] == c[0] {
        lemma_lex_transitive(a.drop_first(), b.drop_first(), c.drop_first());
    }
}

/// The order is antisymmetric.
pub proof fn lemma_lex_antisymmetric(a: Seq<char>, b: Seq<char>)
    requires
        lex_le(a, b),
        lex_le(b, a),
    ensures
        a == b,
    decreases a.len(),
{
    if a.len() > 0 && b.len() > 0 {
        lemma_lex_antisymmetric(a.drop_first(), b.drop_first());
        assert(a =~= seq![a[0]] + a.drop_first());
        assert(b =~= seq![b[0]] + b.drop_first());
    } else {
        assert(a.len() == 0 && b.len() == 0);
        assert(a =~= b);
    }
}

proof fn lemma_lex_skip(a: Seq<char>, b: Seq<char>, k: int)
    requires
        0 <= k <= a.len(),
        k <= b.len(),
        a.take(k) == b.take(k),
    ensures
        lex_le(a, b) == lex_le(a.skip(k), b.skip(k)),
    decreases k,
{
    if k > 0 {
        assert(a[0] == a.take(k)[0]);
        assert(b[0] == b.take(k)[0]);
        assert(a.drop_first().take(k - 1) =~= a.take(k).drop_first());
        assert(b.drop_first().take(k - 1) =~= b.take(k).drop_first());
        lemma_lex_skip(a.drop_first(), b.drop_first(), k - 1);
        assert(a.drop_first().skip(k - 1) =~= a.skip(k));
        assert(b.drop_first().skip(k - 1) =~= b.skip(k));
    } else {
        assert(a.skip(0) =~= a);
        assert(b.skip(0) =~= b);
    }
}

/// Whether `a` sorts before or equal to `b`.
pub fn lex_le_exec(a: &str, b: &str) -> (r: bool)
    ensures
        r == lex_le(a@, b@),
{
    let x = chars_of(a);
    let y = chars_of(b);
    let mut k: usize = 0;
    while k < x.len() && k < y.len() && x[k] == y[k]
        invariant
            x@ == a@,
            y@ == b@,
            k <= x@.len(),
            k <= y@.len(),
            x@.take(k as int) == y@.take(k as int),
        decreases x@.len() - k,
    {
        assert(x@.take(k + 1) =~= x@.take(k as int).push(x@[k as int]));
        assert(y@.take(k + 1) =~= y@.take(k as int).push(y@[k as int]));
        k = k + 1;
    }
    proof {
        lemma_lex_skip(x@, y@, k as int);
    }
    if k == x.len() {
        true
    } else if k == y.len() {
        false
    } else {
        assert(x@.skip(k as int)[0] == x@[k as int]);
        assert(y@.skip(k as int)[0] == y@[k as int]);
        x[k] < y[k]
    }
}

/// Every element of `s` sorts before or equal to every later one.
pub open spec fn sorted(s: Seq<Seq<char>>) -> bool {
    forall|i: int, j: int| 0 <= i < j < s.len() ==> lex_le(#[trigger] s[i], #[trigger] s[j])
}

/// The displayed paths of the walked entries (display text, file name) that a batch
/// in `mode` picks up, in walking order.
pub open spec fn spec_selected(entries: Seq<(Seq<char>, Seq<char>)>, mode: Seq<char>) -> Seq<Seq<char>>
    decreases entries.len(),
{
    if entries.len() == 0 {
        seq![]
    } else {
        let acc = spec_selected(entries.drop_last(), mode);
        if spec_is_scan_candidate(entries.last().1, mode) {
            acc.push(entries.last().0)
        } else {
            acc
        }
    }
}

/// The views of walked entries.
pub open spec fn entry_views(v: Seq<(String, String)>) -> Seq<(Seq<char>, Seq<char>)> {
    v.map_values(|e: (String, String)| (e.0@, e.1@))
}

/// Inserts `x` into the sorted `v` at its place.
fn insert_sorted(v: &mut Vec<String>, x: String)
    requires
        sorted(string_views(old(v)@)),
    ensures
        sorted(string_views(final(v)@)),
        string_views(final(v)@).to_multiset() == string_views(old(v)@).to_multiset().insert(x@),
{
    let mut p: usize = 0;
    while p < v.len() && lex_le_exec(v[p].as_str(), x.as_str())
        invariant
            p <= v@.len(),
            forall|i: int| 0 <= i < p ==> lex_le(#[trigger] v@[i]@, x@),
        decreases v@.len() - p,
    {
        p = p + 1;
    }
    let ghost before = string_views(v@);
    proof {
        assert forall|j: int| p <= j < before.len() implies lex_le(x@, #[trigger] before[j]) by {
            assert(lex_le(before[p as int], before[j]) || p == j);
            assert(!lex_le(before[p as int], x@));
            lemma_lex_total(before[p as int], x@);
            if p < j {
                lemma_lex_transitive(x@, before[p as int], before[j]);
            }
        }
    }
    let ghost xv = x@;
    v.insert(p, x);
    proof {
        assert(string_views(v@) =~= before.insert(p as int, xv));
        let after = string_views(v@);
        assert forall|i: int, j: int| 0 <= i < j < after.len() implies lex_le(#[trigger] after[i], #[trigger] after[j]) by {
            if j < p {
                assert(after[i] == before[i] && after[j] == before[j]);
            } else if j == p {
                assert(after[i] == before[i]);
            } else if i == p {
                assert(after[j] == before[j - 1]);
            } else if i < p {
                assert(after[i] == before[i] && after[j] == before[j - 1]);
            } else {
                assert(after[i] == before[i - 1] && after[j] == before[j - 1]);
            }
        }
    }
}

/// The files a batch in `mode` processes, in sorted order: of the walked `entries`
/// (the displayed path and the file name of each regular file), those whose
/// extension the mode picks up.
pub fn select_files(entries: &Vec<(String, String)>, mode: &str) -> (files: Vec<String>)
    ensures
        sorted(string_views(files@)),
        string_views(files@).to_multiset() == spec_selected(entry_views(entries@), mode@).to_multiset(),
{
    let mut files: Vec<String> = Vec::new();
    let mut i: usize = 0;
    while i < entries.len()
        invariant
            i <= entries@.len(),
            sorted(string_views(files@)),
            string_views(files@).to_multiset() == spec_selected(
                entry_views(entries@).take(i as int),
                mode@,
            ).to_multiset(),
        decreases entries@.len() - i,
    {
        assert(entry_views(entries@).take(i + 1).drop_last() =~= entry_views(entries@).take(i as int));
        assert(entry_views(entries@).take(i + 1).last() == (entries@[i as int].0@, entries@[i as int].1@));
        let (display, name) = &entries[i];
        if is_scan_candidate(name.as_str(), mode) {
            insert_sorted(&mut files, display.clone());
        }
        i = i + 1;
    }
    assert(entry_views(entries@).take(entries@.len() as int) =~= entry_views(entries@));
    files
}


proof fn lemma_lex_reflexive(a: Seq<char>)
    ensures
        lex_le(a, a),
    decreases a.len(),
{
    if a.len() > 0 {
        lemma_lex_reflexive(a.drop_first());
    }
}

proof fn lemma_lex_total_ordering()
    ensures
        total_ordering(|a: Seq<char>, b: Seq<char>| lex_le(a, b)),
{
    let leq = |a: Seq<char>, b: Seq<char>| lex_le(a, b);
    assert forall|x: Seq<char>| #[trigger] leq(x, x) by {
        lemma_lex_reflexive(x);
    }
    assert forall|x: Seq<char>, y: Seq<char>| #[trigger] leq(x, y) && #[trigger] leq(y, x) implies x == y by {
        lemma_lex_antisymmetric(x, y);
    }
    assert forall|x: Seq<char>, y: Seq<char>, z: Seq<char>| #[trigger] leq(x, y) && #[trigger] leq(y, z) implies leq(x, z) by {
        lemma_lex_transitive(x, y, z);
    }
    assert forall|x: Seq<char>, y: Seq<char>| #[trigger] leq(x, y) || #[trigger] leq(y, x) by {
        lemma_lex_total(x, y);
    }
}

/// One step of selecting the walked entries, counted in a multiset.
spec fn select_step(mode: Seq<char>) -> spec_fn(Multiset<Seq<char>>, (Seq<char>, Seq<char>)) -> Multiset<Seq<char>> {
    |acc: Multiset<Seq<char>>, e: (Seq<char>, Seq<char>)|
        if spec_is_scan_candidate(e.1, mode) {
            acc.insert(e.0)
        } else {
            acc
        }
}

proof fn lemma_selected_is_fold(entries: Seq<(Seq<char>, Seq<char>)>, mode: Seq<char>)
    ensures
        spec_selected(entries, mode).to_multiset() == entries.fold_left(Multiset::empty(), select_step(mode)),
    decreases entries.len(),
{
    if entries.len() == 0 {
        assert(spec_selected(entries, mode).to_multiset() =~= Multiset::empty());
    } else {
        lemma_selected_is_fold(entries.drop_last(), mode);
    }
}

/// The list of files a batch processes does not depend on the order in which the
/// directory walk yields them: two walks that yield the same entries, in any order,
/// give the same sorted list.
pub proof fn law_listing_ignores_walk_order(
    e1: Seq<(Seq<char>, Seq<char>)>,
    e2: Seq<(Seq<char>, Seq<char>)>,
    mode: Seq<char>,
    files1: Seq<Seq<char>>,
    files2: Seq<Seq<char>>,
)
    requires
        e1.to_multiset() == e2.to_multiset(),
        sorted(files1),
        sorted(files2),
        files1.to_multiset() == spec_selected(e1, mode).to_multiset(),
        files2.to_multiset() == spec_selected(e2, mode).to_multiset(),
    ensures
        files1 == files2,
{
    let f = select_step(mode);
    assert(vstd::seq_lib::commutative_foldl(f)) by {
        assert forall|x: (Seq<char>, Seq<char>), y: (Seq<char>, Seq<char>), v: Multiset<Seq<char>>| #[trigger] f(f(v, x), y) == f(f(v, y), x) by {
            broadcast use vstd::multiset::group_multiset_axioms;
            assert(f(f(v, x), y) =~= f(f(v, y), x));
        }
    }
    vstd::seq_lib::lemma_fold_left_permutation(e1, e2, f, Multiset::empty());
    lemma_selected_is_fold(e1, mode);
    lemma_selected_is_fold(e2, mode);
    let leq = |a: Seq<char>, b: Seq<char>| lex_le(a, b);
    lemma_lex_total_ordering();
    assert(sorted_by(files1, leq));
    assert(sorted_by(files2, leq));
    vstd::seq_lib::lemma_sorted_unique(files1, files2, leq);
}

} // verus!
