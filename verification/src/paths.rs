//! Path strings: their order, which is lexicographic with the separator
//! before every other character, and the literal prefix test.
use vstd::prelude::*;
use vstd::relations::total_ordering;
use vstd::std_specs::iter::IteratorSpec;

verus! {

/// `a` and `b` hold the same characters at every position below `i`.
pub open spec fn agree_before(a: Seq<char>, b: Seq<char>, i: int) -> bool {
    forall|j: int| 0 <= j < i ==> a[j] == b[j]
}

/// The character that separates the components of a path.
pub const SEPARATOR: char = '/';

/// The order of two different characters in a path: the separator comes
/// before every other character, and those go by their code points. So a
/// component that ends comes before one that goes on.
pub open spec fn char_before(c: char, d: char) -> bool {
    if c == SEPARATOR {
        d != SEPARATOR
    } else {
        d != SEPARATOR && (c as int) < (d as int)
    }
}

/// `a` comes before `b` because of position `i`: the two agree before it,
/// and there the character of `a` comes before that of `b`.
pub open spec fn smaller_at(a: Seq<char>, b: Seq<char>, i: int) -> bool {
    &&& 0 <= i < a.len()
    &&& i < b.len()
    &&& agree_before(a, b, i)
    &&& char_before(a[i], b[i])
}

/// The order of path strings: lexicographic, character by character, so
/// that paths compare component by component. A path comes at or before
/// another if it is a prefix of it, or comes before it at the first
/// position where the two differ.
pub open spec fn path_le(a: Seq<char>, b: Seq<char>) -> bool {
    a.is_prefix_of(b) || exists|i: int| smaller_at(a, b, i)
}

/// Whether `c` comes before `d` in a path.
pub fn comes_before(c: char, d: char) -> (r: bool)
    ensures
        r == char_before(c, d),
{
    if c == SEPARATOR {
        d != SEPARATOR
    } else {
        d != SEPARATOR && c < d
    }
}

/// The order of path strings as a relation, for sorting.
pub open spec fn path_order() -> spec_fn(Seq<char>, Seq<char>) -> bool {
    |a: Seq<char>, b: Seq<char>| path_le(a, b)
}

/// Every path string sorts at or before itself.
pub proof fn lemma_path_le_reflexive(a: Seq<char>)
    ensures
        path_le(a, a),
{
    assert(a =~= a.subrange(0, a.len() as int));
}

/// Two path strings that each sort at or before the other are the same.
pub proof fn lemma_path_le_antisymmetric(a: Seq<char>, b: Seq<char>)
    requires
        path_le(a, b),
        path_le(b, a),
    ensures
        a == b,
{
    if a.is_prefix_of(b) {
        if b.is_prefix_of(a) {
            assert(a =~= b);
        } else {
            let j = choose|j: int| smaller_at(b, a, j);
            assert(b.subrange(0, a.len() as int)[j] == b[j]);
        }
    } else {
        let i = choose|i: int| smaller_at(a, b, i);
        if b.is_prefix_of(a) {
            assert(a.subrange(0, b.len() as int)[i] == a[i]);
        } else {
            let j = choose|j: int| smaller_at(b, a, j);
            if i < j {
                assert(b[i] == a[i]);
            } else if j < i {
                assert(a[j] == b[j]);
            }
        }
    }
}

/// The order of path strings is transitive.
pub proof fn lemma_path_le_transitive(a: Seq<char>, b: Seq<char>, c: Seq<char>)
    requires
        path_le(a, b),
        path_le(b, c),
    ensures
        path_le(a, c),
{
    if a.is_prefix_of(b) {
        assert(forall|j: int| 0 <= j < a.len() ==> b.subrange(0, a.len() as int)[j] == b[j]);
        if b.is_prefix_of(c) {
            assert(forall|j: int| 0 <= j < b.len() ==> c.subrange(0, b.len() as int)[j] == c[j]);
            assert(a =~= c.subrange(0, a.len() as int));
        } else {
            let j = choose|j: int| smaller_at(b, c, j);
            if j < a.len() {
                assert(smaller_at(a, c, j));
            } else {
                assert(a =~= c.subrange(0, a.len() as int));
            }
        }
    } else {
        let i = choose|i: int| smaller_at(a, b, i);
        if b.is_prefix_of(c) {
            assert(forall|j: int| 0 <= j < b.len() ==> c.subrange(0, b.len() as int)[j] == c[j]);
            assert(smaller_at(a, c, i));
        } else {
            let j = choose|j: int| smaller_at(b, c, j);
            if i <= j {
                assert(smaller_at(a, c, i));
            } else {
                assert(smaller_at(a, c, j));
            }
        }
    }
}

/// Two path strings that agree on their first `k` characters are ordered
/// one way or the other.
proof fn lemma_path_le_connected_from(a: Seq<char>, b: Seq<char>, k: int)
    requires
        0 <= k <= a.len(),
        k <= b.len(),
        agree_before(a, b, k),
    ensures
        path_le(a, b) || path_le(b, a),
    decreases a.len() - k,
{
    if k == a.len() {
        assert(a =~= b.subrange(0, a.len() as int));
    } else if k == b.len() {
        assert(b =~= a.subrange(0, b.len() as int));
    } else if a[k] == b[k] {
        lemma_path_le_connected_from(a, b, k + 1);
    } else if char_before(a[k], b[k]) {
        assert(smaller_at(a, b, k));
    } else {
        assert(smaller_at(b, a, k));
    }
}

/// Any two path strings are ordered one way or the other.
pub proof fn lemma_path_le_connected(a: Seq<char>, b: Seq<char>)
    ensures
        path_le(a, b) || path_le(b, a),
{
    lemma_path_le_connected_from(a, b, 0);
}

/// A path whose component ends comes before any path whose component goes
/// on at that place: `contracts/a` comes before `contracts-extra/b`.
pub proof fn lemma_component_end_sorts_first(
    stem: Seq<char>,
    below: Seq<char>,
    next: char,
    beside: Seq<char>,
)
    requires
        next != SEPARATOR,
    ensures
        path_le(stem.push(SEPARATOR) + below, stem.push(next) + beside),
{
    assert(smaller_at(stem.push(SEPARATOR) + below, stem.push(next) + beside, stem.len() as int));
}

/// The order of path strings is a total order.
pub proof fn lemma_path_order_total()
    ensures
        total_ordering(path_order()),
{
    let r = path_order();
    assert forall|a: Seq<char>| #[trigger] r(a, a) by {
        lemma_path_le_reflexive(a);
    }
    assert forall|a: Seq<char>, b: Seq<char>| #[trigger] r(a, b) && #[trigger] r(b, a) implies a
        == b by {
        lemma_path_le_antisymmetric(a, b);
    }
    assert forall|a: Seq<char>, b: Seq<char>, c: Seq<char>| #[trigger]
        r(a, b) && #[trigger] r(b, c) implies r(a, c) by {
        lemma_path_le_transitive(a, b, c);
    }
    assert forall|a: Seq<char>, b: Seq<char>| #[trigger] r(a, b) || #[trigger] r(b, a) by {
        lemma_path_le_connected(a, b);
    }
}

/// Whether `a` sorts at or before `b`.
pub fn sorts_before(a: &str, b: &str) -> (r: bool)
    ensures
        r == path_le(a@, b@),
{
    let mut left = a.chars();
    let mut right = b.chars();
    let ghost mut k: int = 0;
    loop
        invariant
            0 <= k <= a@.len(),
            k <= b@.len(),
            agree_before(a@, b@, k),
            left.remaining() == a@.skip(k),
            right.remaining() == b@.skip(k),
        decreases a@.len() - k,
    {
        let x = left.next();
        let y = right.next();
        match (x, y) {
            (None, _) => {
                assert(a@ =~= b@.subrange(0, a@.len() as int));
                return true;
            },
            (Some(_), None) => {
                return false;
            },
            (Some(c), Some(d)) => {
                if c != d {
                    assert(a@[k] == c && b@[k] == d);
                    let before = comes_before(c, d);
                    proof {
                        if before {
                            assert(smaller_at(a@, b@, k));
                        } else {
                            assert(!a@.is_prefix_of(b@)) by {
                                if a@.is_prefix_of(b@) {
                                    assert(b@.subrange(0, a@.len() as int)[k] == b@[k]);
                                }
                            }
                            assert forall|i: int| !smaller_at(a@, b@, i) by {
                                if smaller_at(a@, b@, i) && i > k {
                                    assert(a@[k] == b@[k]);
                                }
                            }
                        }
                    }
                    return before;
                }
                proof {
                    k = k + 1;
                }
            },
        }
    }
}

/// Whether `path` starts with `prefix`, read as plain text: no path
/// component is taken into account.
pub fn has_prefix(path: &str, prefix: &str) -> (r: bool)
    ensures
        r == prefix@.is_prefix_of(path@),
{
    let mut wanted = prefix.chars();
    let mut given = path.chars();
    let ghost mut k: int = 0;
    loop
        invariant
            0 <= k <= prefix@.len(),
            k <= path@.len(),
            agree_before(prefix@, path@, k),
            wanted.remaining() == prefix@.skip(k),
            given.remaining() == path@.skip(k),
        decreases prefix@.len() - k,
    {
        let x = wanted.next();
        let y = given.next();
        match (x, y) {
            (None, _) => {
                assert(prefix@ =~= path@.subrange(0, prefix@.len() as int));
                return true;
            },
            (Some(_), None) => {
                return false;
            },
            (Some(c), Some(d)) => {
                if c != d {
                    assert(prefix@[k] == c && path@[k] == d);
                    assert(!prefix@.is_prefix_of(path@)) by {
                        if prefix@.is_prefix_of(path@) {
                            assert(path@.subrange(0, prefix@.len() as int)[k] == path@[k]);
                        }
                    }
                    return false;
                }
                proof {
                    k = k + 1;
                }
            },
        }
    }
}

} // verus!
