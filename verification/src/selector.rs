//! Choosing the packages to build: the candidates in the order of path
//! strings, narrowed to those whose path starts with the configured prefix.
use crate::paths::{
    has_prefix, lemma_path_le_connected, lemma_path_le_transitive, lemma_path_order_total, path_le,
    path_order, sorts_before,
};
use vstd::multiset::Multiset;
use vstd::prelude::*;
use vstd::relations::sorted_by;
use vstd::seq_lib::{lemma_multiset_commutative, lemma_sorted_unique};

verus! {

/// The key under which the prefix is configured.
pub const PACKAGE_PREFIX_KEY: &'static str = "PACKAGE_PREFIX";

/// The prefix that is used where none is configured.
pub const DEFAULT_PACKAGE_PREFIX: &'static str = "contracts/";

/// Decides membership in the set of packages to build by a prefix of the
/// path string.
#[derive(Debug, PartialEq, Eq)]
pub struct BuildFilter {
    pub prefix: String,
}

/// The predicate that holds of the path strings that start with `prefix`.
pub open spec fn starts_with(prefix: Seq<char>) -> spec_fn(Seq<char>) -> bool {
    |path: Seq<char>| prefix.is_prefix_of(path)
}

/// The packages to build: the candidates sorted by the order of path
/// strings, without those whose path string does not start with `prefix`.
/// A candidate that occurs twice stays twice.
pub open spec fn selection(candidates: Seq<Seq<char>>, prefix: Seq<char>) -> Seq<Seq<char>> {
    candidates.sort_by(path_order()).filter(starts_with(prefix))
}

/// The prefix to filter by: the configured one, or the default where none
/// is configured.
pub fn get_package_prefix(configured: Option<String>) -> (prefix: String)
    ensures
        prefix@ == match configured {
            Some(p) => p@,
            None => DEFAULT_PACKAGE_PREFIX@,
        },
{
    match configured {
        Some(p) => p,
        None => DEFAULT_PACKAGE_PREFIX.to_owned(),
    }
}

impl Default for BuildFilter {
    /// The filter with the default prefix.
    fn default() -> (r: Self)
        ensures
            r.prefix@ == DEFAULT_PACKAGE_PREFIX@,
    {
        BuildFilter { prefix: get_package_prefix(None) }
    }
}

impl BuildFilter {
    /// Whether the filter keeps `path`: a test on the text alone, so the
    /// prefix `contracts` also keeps `contracts-extra/foo`.
    pub fn keeps(&self, path: &str) -> (r: bool)
        ensures
            r == self.prefix@.is_prefix_of(path@),
    {
        has_prefix(path, self.prefix.as_str())
    }
}

/// Inserting an element into a sequence adds it to the sequence's elements
/// and changes no other count.
proof fn lemma_insert_to_multiset<A>(s: Seq<A>, i: int, a: A)
    requires
        0 <= i <= s.len(),
    ensures
        s.insert(i, a).to_multiset() == s.to_multiset().insert(a),
{
    let t = s.insert(i, a);
    t.to_multiset_ensures();
    assert(t[i] == a);
    assert(t.remove(i) =~= s);
    assert(t.contains(a));
    assert(t.to_multiset() =~= s.to_multiset().insert(a));
}

/// Puts `path` into the sorted vector at its place.
fn insert_sorted(sorted: &mut Vec<String>, path: String)
    requires
        sorted_by(old(sorted).deep_view(), path_order()),
    ensures
        sorted_by(final(sorted).deep_view(), path_order()),
        final(sorted).deep_view().to_multiset() == old(sorted).deep_view().to_multiset().insert(
            path@,
        ),
{
    let ghost before = sorted.deep_view();
    let mut i: usize = 0;
    while i < sorted.len() && sorts_before(sorted[i].as_str(), path.as_str())
        invariant
            0 <= i <= sorted.len(),
            sorted.deep_view() == before,
            forall|j: int| 0 <= j < i ==> path_le(#[trigger] before[j], path@),
        decreases sorted.len() - i,
    {
        i += 1;
    }
    assert(i < sorted.len() ==> !path_le(before[i as int], path@));
    sorted.insert(i, path);
    proof {
        let after = sorted.deep_view();
        let order = path_order();
        assert(after =~= before.insert(i as int, path@));
        lemma_insert_to_multiset(before, i as int, path@);
        assert forall|x: int, y: int| 0 <= x < y < after.len() implies order(
            after[x],
            after[y],
        ) by {
            if y == i {
            } else if x == i {
                lemma_path_le_connected(before[i as int], path@);
                if y - 1 > i {
                    assert(order(before[i as int], before[y - 1]));
                    lemma_path_le_transitive(path@, before[i as int], before[y - 1]);
                }
            } else if x < i {
                if y > i {
                    assert(order(before[x], before[y - 1]));
                } else {
                    assert(order(before[x], before[y]));
                }
            } else {
                assert(order(before[x - 1], before[y - 1]));
            }
        }
    }
}

/// Sorts path strings into their order.
pub fn sort_paths(paths: Vec<String>) -> (sorted: Vec<String>)
    ensures
        sorted.deep_view() == paths.deep_view().sort_by(path_order()),
        sorted_by(sorted.deep_view(), path_order()),
        sorted.deep_view().to_multiset() == paths.deep_view().to_multiset(),
{
    let ghost given = paths.deep_view();
    let mut rest = paths;
    let mut sorted: Vec<String> = Vec::new();
    proof {
        assert(sorted.deep_view() + given =~= given);
        lemma_multiset_commutative(sorted.deep_view(), given);
    }
    while rest.len() > 0
        invariant
            sorted_by(sorted.deep_view(), path_order()),
            sorted.deep_view().to_multiset().add(rest.deep_view().to_multiset())
                == given.to_multiset(),
        decreases rest.len(),
    {
        let ghost rest_before = rest.deep_view();
        let ghost sorted_before = sorted.deep_view();
        let path = rest.pop().unwrap();
        proof {
            assert(rest_before =~= rest.deep_view().push(path@));
            rest.deep_view().to_multiset_ensures();
        }
        insert_sorted(&mut sorted, path);
        assert(sorted.deep_view().to_multiset().add(rest.deep_view().to_multiset())
            =~= sorted_before.to_multiset().add(rest_before.to_multiset()));
    }
    proof {
        assert(sorted.deep_view() + rest.deep_view() =~= sorted.deep_view());
        lemma_multiset_commutative(sorted.deep_view(), rest.deep_view());
        lemma_path_order_total();
        given.lemma_sort_by_ensures(path_order());
        lemma_sorted_unique(sorted.deep_view(), given.sort_by(path_order()), path_order());
    }
    sorted
}

/// Selects the packages to build among the candidate directories: those
/// whose path string starts with the filter's prefix, each as often as it
/// occurs, in the order of path strings.
pub fn select(all_candidates: Vec<String>, filter: &BuildFilter) -> (selected: Vec<String>)
    ensures
        selected.deep_view() == selection(all_candidates.deep_view(), filter.prefix@),
        sorted_by(selected.deep_view(), path_order()),
        selected.deep_view().to_multiset() == all_candidates.deep_view().to_multiset().filter(
            starts_with(filter.prefix@),
        ),
{
    proof {
        lemma_selection_sorted(all_candidates.deep_view(), filter.prefix@);
        lemma_selection_elements(all_candidates.deep_view(), filter.prefix@);
    }
    let ghost ordered = all_candidates.deep_view().sort_by(path_order());
    let sorted = sort_paths(all_candidates);
    let mut selected: Vec<String> = Vec::new();
    let mut i: usize = 0;
    while i < sorted.len()
        invariant
            0 <= i <= sorted.len(),
            sorted.deep_view() == ordered,
            selected.deep_view() == ordered.take(i as int).filter(starts_with(filter.prefix@)),
        decreases sorted.len() - i,
    {
        let ghost before = selected.deep_view();
        let ghost seen = ordered.take(i as int);
        if filter.keeps(sorted[i].as_str()) {
            selected.push(sorted[i].clone());
            assert(selected.deep_view() =~= before.push(ordered[i as int]));
        }
        proof {
            assert(ordered.take(i + 1) =~= seen.push(ordered[i as int]));
            seen.lemma_filter_push(ordered[i as int], starts_with(filter.prefix@));
        }
        i += 1;
    }
    assert(ordered.take(i as int) =~= ordered);
    selected
}

/// Filtering a sorted sequence leaves it sorted.
proof fn lemma_filter_sorted<A>(s: Seq<A>, keep: spec_fn(A) -> bool, leq: spec_fn(A, A) -> bool)
    requires
        sorted_by(s, leq),
    ensures
        sorted_by(s.filter(keep), leq),
    decreases s.len(),
{
    reveal(Seq::filter);
    if s.len() > 0 {
        let front = s.drop_last();
        lemma_filter_sorted(front, keep, leq);
        let kept = front.filter(keep);
        if keep(s.last()) {
            assert forall|i: int, j: int| 0 <= i < j < kept.len() + 1 implies leq(
                kept.push(s.last())[i],
                kept.push(s.last())[j],
            ) by {
                if j == kept.len() {
                    assert(kept.contains(kept[i]));
                    front.lemma_filter_contains_rev(keep, kept[i]);
                    let k = choose|k: int| 0 <= k < front.len() && front[k] == kept[i];
                    assert(leq(s[k], s[s.len() - 1]));
                } else {
                    assert(leq(kept[i], kept[j]));
                }
            }
        }
    }
}

/// Filtering a sequence filters its elements: what is kept keeps its
/// count, what is dropped has none.
proof fn lemma_filter_to_multiset<A>(s: Seq<A>, keep: spec_fn(A) -> bool)
    ensures
        s.filter(keep).to_multiset() == s.to_multiset().filter(keep),
    decreases s.len(),
{
    reveal(Seq::filter);
    if s.len() == 0 {
        s.to_multiset_ensures();
        assert(s.to_multiset().len() == 0);
        assert forall|a: A| s.to_multiset().count(a) == 0 by {
            if s.to_multiset().count(a) > 0 {
                assert(s.contains(a));
            }
        }
        assert(s.filter(keep).to_multiset() =~= s.to_multiset().filter(keep));
    } else {
        let front = s.drop_last();
        lemma_filter_to_multiset(front, keep);
        assert(s =~= front.push(s.last()));
        front.to_multiset_ensures();
        front.filter(keep).to_multiset_ensures();
        assert(s.to_multiset() =~= front.to_multiset().insert(s.last()));
        assert(s.filter(keep).to_multiset() =~= s.to_multiset().filter(keep));
    }
}

/// Filtering twice by one predicate is filtering once.
proof fn lemma_multiset_filter_twice<A>(m: Multiset<A>, keep: spec_fn(A) -> bool)
    ensures
        m.filter(keep).filter(keep) == m.filter(keep),
{
    assert(m.filter(keep).filter(keep) =~= m.filter(keep));
}

/// The selection comes in lexicographic order.
pub proof fn lemma_selection_sorted(candidates: Seq<Seq<char>>, prefix: Seq<char>)
    ensures
        sorted_by(selection(candidates, prefix), path_order()),
{
    lemma_path_order_total();
    candidates.lemma_sort_by_ensures(path_order());
    lemma_filter_sorted(candidates.sort_by(path_order()), starts_with(prefix), path_order());
}

/// The selection holds exactly the candidates whose path string starts with
/// the prefix, each as often as it occurs among the candidates.
pub proof fn lemma_selection_elements(candidates: Seq<Seq<char>>, prefix: Seq<char>)
    ensures
        selection(candidates, prefix).to_multiset() == candidates.to_multiset().filter(
            starts_with(prefix),
        ),
        forall|path: Seq<char>|
            #[trigger] selection(candidates, prefix).to_multiset().count(path) == if prefix.is_prefix_of(
                path,
            ) {
                candidates.to_multiset().count(path)
            } else {
                0
            },
{
    lemma_path_order_total();
    candidates.lemma_sort_by_ensures(path_order());
    lemma_filter_to_multiset(candidates.sort_by(path_order()), starts_with(prefix));
}

/// The selection does not depend on the order in which the candidates were
/// found: two candidate sequences with the same elements select the same
/// packages in the same order.
pub proof fn lemma_selection_order_independent(
    first: Seq<Seq<char>>,
    second: Seq<Seq<char>>,
    prefix: Seq<char>,
)
    requires
        first.to_multiset() == second.to_multiset(),
    ensures
        selection(first, prefix) == selection(second, prefix),
{
    lemma_selection_sorted(first, prefix);
    lemma_selection_sorted(second, prefix);
    lemma_selection_elements(first, prefix);
    lemma_selection_elements(second, prefix);
    lemma_path_order_total();
    lemma_sorted_unique(selection(first, prefix), selection(second, prefix), path_order());
}

/// Selecting again from a selection, with the same prefix, changes nothing.
pub proof fn lemma_selection_idempotent(candidates: Seq<Seq<char>>, prefix: Seq<char>)
    ensures
        selection(selection(candidates, prefix), prefix) == selection(candidates, prefix),
{
    let once = selection(candidates, prefix);
    lemma_selection_sorted(candidates, prefix);
    lemma_selection_sorted(once, prefix);
    lemma_selection_elements(candidates, prefix);
    lemma_selection_elements(once, prefix);
    lemma_multiset_filter_twice(candidates.to_multiset(), starts_with(prefix));
    lemma_path_order_total();
    lemma_sorted_unique(selection(once, prefix), once, path_order());
}

} // verus!
