//! Turning the matches of a member pattern into candidate package
//! directories.
use vstd::prelude::*;

verus! {

/// What a matched path turned out to be on disk.
#[derive(Clone, Copy, Debug, PartialEq, Eq, Structural)]
pub enum EntryKind {
    /// A directory, or a link that leads to one.
    Directory,
    /// Anything that exists and is no directory.
    File,
    /// Nothing that could be examined, such as a broken link.
    Unresolved,
}

/// One path that a member pattern matched.
#[derive(Debug, PartialEq, Eq)]
pub struct PathMatch {
    pub path: String,
    pub kind: EntryKind,
}

/// The predicate that holds of the matches that are directories.
pub open spec fn directory_matches() -> spec_fn(PathMatch) -> bool {
    |m: PathMatch| m.kind == EntryKind::Directory
}

/// The path string of a match.
pub open spec fn match_path() -> spec_fn(PathMatch) -> Seq<char> {
    |m: PathMatch| m.path@
}

/// The candidate directories among `matches`: the paths of those that are
/// directories, in the order of the matches.
pub open spec fn candidates_of(matches: Seq<PathMatch>) -> Seq<Seq<char>> {
    matches.filter(directory_matches()).map_values(match_path())
}

/// Whether a matched path can hold a package: whether it is a directory.
pub fn is_cargo_project(entry: &PathMatch) -> (r: bool)
    ensures
        r == (entry.kind == EntryKind::Directory),
{
    entry.kind == EntryKind::Directory
}

/// Keeps the directories among the matches of a pattern; files and
/// unresolved paths are dropped without complaint.
pub fn keep_directories(matches: &[PathMatch]) -> (r: Vec<String>)
    ensures
        r.deep_view() == candidates_of(matches@),
{
    let mut kept: Vec<String> = Vec::new();
    let mut i: usize = 0;
    while i < matches.len()
        invariant
            0 <= i <= matches.len(),
            kept.deep_view() == candidates_of(matches@.take(i as int)),
        decreases matches.len() - i,
    {
        let ghost before = kept.deep_view();
        let ghost seen = matches@.take(i as int);
        if is_cargo_project(&matches[i]) {
            kept.push(matches[i].path.clone());
            assert(kept.deep_view() =~= before.push(matches@[i as int].path@));
        }
        proof {
            assert(matches@.take(i + 1) =~= seen.push(matches@[i as int]));
            seen.lemma_filter_push(matches@[i as int], directory_matches());
            assert(candidates_of(seen.push(matches@[i as int])) =~= kept.deep_view());
        }
        i += 1;
    }
    assert(matches@.take(i as int) =~= matches@);
    kept
}

} // verus!
