use bob_the_builder::expander::{is_cargo_project, keep_directories, EntryKind, PathMatch};
use bob_the_builder::paths::{comes_before, has_prefix, sorts_before, SEPARATOR};
use bob_the_builder::selector::{
    get_package_prefix, select, sort_paths, BuildFilter, DEFAULT_PACKAGE_PREFIX,
    PACKAGE_PREFIX_KEY,
};

use std::path::{Path, PathBuf};

fn strings(items: &[&str]) -> Vec<String> {
    items.iter().map(|s| s.to_string()).collect()
}

fn filter(prefix: &str) -> BuildFilter {
    BuildFilter { prefix: prefix.to_string() }
}

fn found(path: &str, kind: EntryKind) -> PathMatch {
    PathMatch { path: path.to_string(), kind }
}

#[test]
fn prefix_with_separator_keeps_only_the_directory() {
    let candidates = strings(&["contracts/a", "contracts-extra/b", "other/c"]);
    assert_eq!(select(candidates, &filter("contracts/")), strings(&["contracts/a"]));
}

#[test]
fn prefix_without_separator_is_a_plain_text_prefix() {
    let candidates = strings(&["contracts/a", "contracts-extra/b", "other/c"]);
    assert_eq!(
        select(candidates, &filter("contracts")),
        strings(&["contracts/a", "contracts-extra/b"])
    );
}

#[test]
fn prefix_boundary_holds_whatever_the_order_of_discovery() {
    let candidates = strings(&["other/c", "contracts-extra/b", "contracts/a"]);
    assert_eq!(select(candidates.clone(), &filter("contracts/")), strings(&["contracts/a"]));
    assert_eq!(
        select(candidates, &filter("contracts")),
        strings(&["contracts/a", "contracts-extra/b"])
    );
}

#[test]
fn selecting_twice_gives_the_same_result() {
    let candidates = strings(&["contracts/b", "other/x", "contracts/a", "contracts/c"]);
    let first = select(candidates.clone(), &filter("contracts/"));
    let second = select(candidates, &filter("contracts/"));
    assert_eq!(first, second);
    assert_eq!(first, strings(&["contracts/a", "contracts/b", "contracts/c"]));
}

#[test]
fn selecting_from_a_selection_changes_nothing() {
    let candidates = strings(&["contracts/b", "other/x", "contracts/a"]);
    let once = select(candidates, &filter("contracts/"));
    let twice = select(once.clone(), &filter("contracts/"));
    assert_eq!(once, twice);
}

#[test]
fn selection_does_not_depend_on_the_order_of_discovery() {
    let one = select(strings(&["contracts/b", "contracts/a", "zeta"]), &filter("contracts/"));
    let other = select(strings(&["zeta", "contracts/a", "contracts/b"]), &filter("contracts/"));
    assert_eq!(one, other);
}

#[test]
fn duplicates_are_kept() {
    let candidates = strings(&["contracts/a", "contracts/b", "contracts/a"]);
    assert_eq!(
        select(candidates, &filter("contracts/")),
        strings(&["contracts/a", "contracts/a", "contracts/b"])
    );
}

#[test]
fn nothing_selected_is_a_valid_result() {
    assert_eq!(select(strings(&["other/a", "tools/b"]), &filter("contracts/")), strings(&[]));
    assert_eq!(select(strings(&[]), &filter("contracts/")), strings(&[]));
}

#[test]
fn empty_prefix_keeps_everything_in_order() {
    assert_eq!(select(strings(&["b", "a", "c"]), &filter("")), strings(&["a", "b", "c"]));
}

#[test]
fn sorting_agrees_with_the_order_of_paths() {
    let paths = strings(&[
        "b/z", "a", "a/b", "B", "a-b", "é", "a-b/c", "zz", "z", "a.b", "contracts", "a/b/c",
        "contracts-extra/b", "contracts/a", "a b/c", "a/ b",
    ]);
    let mut as_paths: Vec<PathBuf> = paths.iter().map(PathBuf::from).collect();
    as_paths.sort();
    let expected: Vec<String> =
        as_paths.iter().map(|p| p.to_str().unwrap().to_string()).collect();
    assert_eq!(sort_paths(paths), expected);
}

#[test]
fn sorting_goes_component_by_component() {
    assert_eq!(
        sort_paths(strings(&["a.b/x", "a-b/x", "a/x", "a", "a/x/y", "a b/x"])),
        strings(&["a", "a/x", "a/x/y", "a b/x", "a-b/x", "a.b/x"])
    );
}

#[test]
fn sorting_orders_by_code_point_within_a_component() {
    let paths = strings(&["\u{10000}", "\u{ff5e}", "~", "a\u{e9}", "ab", "B", "a"]);
    assert_eq!(
        sort_paths(paths),
        strings(&["B", "a", "ab", "a\u{e9}", "~", "\u{ff5e}", "\u{10000}"])
    );
}

#[test]
fn sorts_before_is_the_order_of_paths() {
    let samples =
        ["", "a", "a/b", "a-b", "a-b/c", "a.b", "b", "contracts", "contracts/x", "é", "z", "a/b/c"];
    for x in samples {
        for y in samples {
            assert_eq!(
                sorts_before(x, y),
                Path::new(x) <= Path::new(y),
                "{:?} against {:?}",
                x,
                y
            );
        }
    }
}

#[test]
fn separator_comes_before_any_other_character() {
    assert!(comes_before('/', '-'));
    assert!(comes_before('/', ' '));
    assert!(comes_before('/', 'a'));
    assert!(!comes_before('-', '/'));
    assert!(!comes_before('/', '/'));
    assert!(comes_before('-', '.'));
    assert!(comes_before('a', 'b'));
    assert!(!comes_before('b', 'a'));
    assert!(!comes_before('a', 'a'));
    assert_eq!(SEPARATOR, '/');
}

#[test]
fn a_proper_prefix_sorts_first() {
    assert!(sorts_before("contracts", "contracts/a"));
    assert!(!sorts_before("contracts/a", "contracts"));
    assert!(sorts_before("same", "same"));
    assert!(sorts_before("a", "a/"));
}

#[test]
fn a_component_that_ends_sorts_first() {
    assert!(sorts_before("contracts/a", "contracts-extra/b"));
    assert!(!sorts_before("contracts-extra/b", "contracts/a"));
    assert!(sorts_before("contracts/z", "contracts-extra/a"));
}

#[test]
fn has_prefix_is_a_test_on_the_text() {
    assert!(has_prefix("contracts/a", "contracts/"));
    assert!(has_prefix("contracts-extra/b", "contracts"));
    assert!(!has_prefix("contracts-extra/b", "contracts/"));
    assert!(has_prefix("anything", ""));
    assert!(has_prefix("", ""));
    assert!(!has_prefix("", "c"));
    assert!(!has_prefix("contract", "contracts"));
    assert!(has_prefix("équipe/a", "é"));
    assert!(!has_prefix("equipe/a", "é"));
}

#[test]
fn filter_keeps_by_prefix() {
    assert!(filter("contracts/").keeps("contracts/foo"));
    assert!(!filter("contracts/").keeps("./contracts/foo"));
    assert!(filter("contracts").keeps("contracts-extra/foo"));
}

#[test]
fn unset_prefix_is_the_default() {
    assert_eq!(get_package_prefix(None), "contracts/");
    assert_eq!(DEFAULT_PACKAGE_PREFIX, "contracts/");
    assert_eq!(PACKAGE_PREFIX_KEY, "PACKAGE_PREFIX");
}

#[test]
fn configured_prefix_is_taken_as_it_is() {
    assert_eq!(get_package_prefix(Some("examples/".to_string())), "examples/");
    assert_eq!(get_package_prefix(Some(String::new())), "");
}

#[test]
fn only_directories_are_projects() {
    assert!(is_cargo_project(&found("contracts/foo", EntryKind::Directory)));
    assert!(!is_cargo_project(&found("contracts/readme.md", EntryKind::File)));
    assert!(!is_cargo_project(&found("contracts/dangling", EntryKind::Unresolved)));
}

#[test]
fn files_and_broken_links_are_dropped() {
    let matches = vec![
        found("contracts/foo", EntryKind::Directory),
        found("contracts/readme.md", EntryKind::File),
        found("contracts/dangling", EntryKind::Unresolved),
        found("contracts/bar", EntryKind::Directory),
    ];
    assert_eq!(keep_directories(&matches), strings(&["contracts/foo", "contracts/bar"]));
}

#[test]
fn a_pattern_without_matches_gives_no_candidates() {
    assert_eq!(keep_directories(&[]), strings(&[]));
    assert_eq!(keep_directories(&[found("a.txt", EntryKind::File)]), strings(&[]));
}
