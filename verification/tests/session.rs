use bob_the_builder::expander::{EntryKind, PathMatch};
use bob_the_builder::manifest::{ManifestError, PackageDescriptor};
use bob_the_builder::orchestrator::{
    build, build_workspace, run, Action, BuildError, BuildReport, Event, Outcome, Phase,
    Session, MANIFEST_FILE, ROOT_DIRECTORY,
};
use bob_the_builder::selector::{get_package_prefix, BuildFilter};

fn default_filter() -> BuildFilter {
    BuildFilter { prefix: get_package_prefix(None) }
}

fn package(name: &str, directory: &str) -> PackageDescriptor {
    PackageDescriptor { name: name.to_string(), directory: directory.to_string() }
}

fn manifest_of(name: &str) -> Event {
    Event::ManifestRead { text: format!("[package]\nname = \"{}\"\nversion = \"0.1.0\"\n", name) }
}

fn found(path: &str, kind: EntryKind) -> PathMatch {
    PathMatch { path: path.to_string(), kind }
}

fn read(directory: &str) -> Action {
    Action::ReadManifest { directory: directory.to_string() }
}

fn built(packages: Vec<PackageDescriptor>) -> Action {
    Action::Finish { outcome: Outcome::Built { report: BuildReport { built: packages } } }
}

fn failed(error: BuildError) -> Action {
    Action::Finish { outcome: Outcome::Failed { error } }
}

fn workspace_of(members: &[&str]) -> (Session, Action) {
    let members: Vec<String> = members.iter().map(|m| m.to_string()).collect();
    build_workspace(&members, default_filter())
}

#[test]
fn build_starts_with_the_root_manifest() {
    let (session, action) = build(default_filter());
    assert_eq!(action, read("."));
    assert_eq!(ROOT_DIRECTORY, ".");
    assert_eq!(MANIFEST_FILE, "Cargo.toml");
    assert_eq!(session.phase, Phase::Root);
}

#[test]
fn scenario_single_project_builds_the_root_package() {
    let (session, action) = build(default_filter());
    assert_eq!(action, read("."));
    let (session, action) = session.step(manifest_of("widget"));
    assert_eq!(action, Action::Build { package: package("widget", ".") });
    let (session, action) = session.step(Event::ToolExited { success: true });
    assert_eq!(action, built(vec![package("widget", ".")]));
    assert!(matches!(session.phase, Phase::Finished { .. }));
}

#[test]
fn scenario_workspace_builds_the_matched_directory() {
    let (session, action) = build(default_filter());
    assert_eq!(action, read("."));
    let root = Event::ManifestRead { text: "[workspace]\nmembers = [\"contracts/*\"]\n".to_string() };
    let (session, action) = session.step(root);
    assert_eq!(action, Action::Expand { pattern: "contracts/*".to_string() });
    let matches = vec![
        found("contracts/foo", EntryKind::Directory),
        found("contracts/readme.md", EntryKind::File),
    ];
    let (session, action) = session.step(Event::Expanded { matches });
    assert_eq!(action, read("contracts/foo"));
    assert!(session.queue.is_empty());
    let (session, action) = session.step(manifest_of("foo"));
    assert_eq!(action, Action::Build { package: package("foo", "contracts/foo") });
    let (_, action) = session.step(Event::ToolExited { success: true });
    assert_eq!(action, built(vec![package("foo", "contracts/foo")]));
}

#[test]
fn scenario_missing_manifest_aborts_the_run() {
    let (session, action) = workspace_of(&["contracts/*"]);
    assert_eq!(action, Action::Expand { pattern: "contracts/*".to_string() });
    let matches = vec![
        found("contracts/a", EntryKind::Directory),
        found("contracts/b", EntryKind::Directory),
        found("contracts/c", EntryKind::Directory),
    ];
    let (session, action) = session.step(Event::Expanded { matches });
    assert_eq!(action, read("contracts/a"));
    let (session, action) = session.step(manifest_of("a"));
    assert_eq!(action, Action::Build { package: package("a", "contracts/a") });
    let (session, action) = session.step(Event::ToolExited { success: true });
    assert_eq!(action, read("contracts/b"));
    let (session, action) = session.step(Event::ManifestUnreadable);
    assert_eq!(action, failed(BuildError::ManifestUnreadable));
    assert_eq!(session.queue, vec!["contracts/c".to_string()]);
    assert_eq!(session.built, vec![package("a", "contracts/a")]);
    let (session, action) = session.step(manifest_of("b"));
    assert_eq!(action, failed(BuildError::ManifestUnreadable));
    let (_, action) = session.step(Event::ToolExited { success: true });
    assert_eq!(action, failed(BuildError::ManifestUnreadable));
}

#[test]
fn workspace_without_members_builds_nothing() {
    let (session, _) = build(default_filter());
    let root = Event::ManifestRead { text: "[workspace]\nmembers = []\n".to_string() };
    let (session, action) = session.step(root);
    assert_eq!(action, Action::Finish { outcome: Outcome::NoMembers });
    assert!(session.built.is_empty());
    let (session, action) = session.step(Event::ToolExited { success: true });
    assert_eq!(action, Action::Finish { outcome: Outcome::NoMembers });
    let (_, action) = session.step(Event::Expanded { matches: vec![] });
    assert_eq!(action, Action::Finish { outcome: Outcome::NoMembers });
}

#[test]
fn workspace_table_without_members_key_builds_nothing() {
    let (session, _) = build(default_filter());
    let root = Event::ManifestRead { text: "[workspace]\n".to_string() };
    let (_, action) = session.step(root);
    assert_eq!(action, Action::Finish { outcome: Outcome::NoMembers });
}

#[test]
fn unreadable_root_manifest_aborts() {
    let (session, _) = build(default_filter());
    let (_, action) = session.step(Event::ManifestUnreadable);
    assert_eq!(action, failed(BuildError::ManifestUnreadable));
}

#[test]
fn malformed_root_manifest_aborts() {
    let (session, _) = build(default_filter());
    let (_, action) = session.step(Event::ManifestRead { text: "[workspace".to_string() });
    assert_eq!(action, failed(BuildError::Manifest(ManifestError::Malformed)));
}

#[test]
fn single_project_without_a_name_aborts() {
    let (session, _) = build(default_filter());
    let (_, action) = session.step(Event::ManifestRead { text: "[dependencies]\n".to_string() });
    assert_eq!(action, failed(BuildError::Manifest(ManifestError::MissingField)));
}

#[test]
fn failed_tool_stops_the_queue() {
    let (session, _) = workspace_of(&["contracts/*"]);
    let matches = vec![
        found("contracts/b", EntryKind::Directory),
        found("contracts/a", EntryKind::Directory),
    ];
    let (session, action) = session.step(Event::Expanded { matches });
    assert_eq!(action, read("contracts/a"));
    let (session, _) = session.step(manifest_of("a"));
    let (session, action) = session.step(Event::ToolExited { success: false });
    assert_eq!(action, failed(BuildError::ToolInvocationFailed));
    assert_eq!(session.queue, vec!["contracts/b".to_string()]);
    assert!(session.built.is_empty());
    let (_, action) = session.step(Event::ToolExited { success: true });
    assert_eq!(action, failed(BuildError::ToolInvocationFailed));
}

#[test]
fn bad_package_manifest_stops_the_queue() {
    let (session, _) = workspace_of(&["contracts/*"]);
    let matches = vec![
        found("contracts/a", EntryKind::Directory),
        found("contracts/b", EntryKind::Directory),
    ];
    let (session, _) = session.step(Event::Expanded { matches });
    let (session, action) =
        session.step(Event::ManifestRead { text: "[package]\nversion = \"1\"\n".to_string() });
    assert_eq!(action, failed(BuildError::Manifest(ManifestError::MissingField)));
    let (_, action) = session.step(manifest_of("b"));
    assert_eq!(action, failed(BuildError::Manifest(ManifestError::MissingField)));
}

#[test]
fn packages_are_built_in_sorted_order_across_patterns() {
    let (session, action) = workspace_of(&["contracts/z*", "contracts/a*", "tools/*"]);
    assert_eq!(action, Action::Expand { pattern: "contracts/z*".to_string() });
    let (session, action) =
        session.step(Event::Expanded { matches: vec![found("contracts/zeta", EntryKind::Directory)] });
    assert_eq!(action, Action::Expand { pattern: "contracts/a*".to_string() });
    let (session, action) = session.step(Event::Expanded {
        matches: vec![
            found("contracts/alpha", EntryKind::Directory),
            found("contracts/a.txt", EntryKind::File),
        ],
    });
    assert_eq!(action, Action::Expand { pattern: "tools/*".to_string() });
    let (session, action) =
        session.step(Event::Expanded { matches: vec![found("tools/x", EntryKind::Directory)] });
    assert_eq!(action, read("contracts/alpha"));
    assert_eq!(session.queue, vec!["contracts/zeta".to_string()]);
    let (session, _) = session.step(manifest_of("alpha"));
    let (session, action) = session.step(Event::ToolExited { success: true });
    assert_eq!(action, read("contracts/zeta"));
    let (session, _) = session.step(manifest_of("zeta"));
    let (_, action) = session.step(Event::ToolExited { success: true });
    assert_eq!(
        action,
        built(vec![package("alpha", "contracts/alpha"), package("zeta", "contracts/zeta")])
    );
}

#[test]
fn overlapping_patterns_build_a_directory_twice() {
    let (session, _) = workspace_of(&["contracts/*", "contracts/f*"]);
    let (session, _) =
        session.step(Event::Expanded { matches: vec![found("contracts/foo", EntryKind::Directory)] });
    let (session, action) =
        session.step(Event::Expanded { matches: vec![found("contracts/foo", EntryKind::Directory)] });
    assert_eq!(action, read("contracts/foo"));
    assert_eq!(session.queue, vec!["contracts/foo".to_string()]);
}

#[test]
fn workspace_without_patterns_ends_at_once() {
    let (_, action) = workspace_of(&[]);
    assert_eq!(action, built(vec![]));
}

#[test]
fn workspace_with_nothing_selected_runs_no_build() {
    let (session, _) = workspace_of(&["tools/*"]);
    let (_, action) =
        session.step(Event::Expanded { matches: vec![found("tools/x", EntryKind::Directory)] });
    assert_eq!(action, built(vec![]));
}

#[test]
fn configured_prefix_decides_the_selection() {
    let members = vec!["*/*".to_string()];
    let filter = BuildFilter { prefix: get_package_prefix(Some("tools/".to_string())) };
    let (session, _) = build_workspace(&members, filter);
    let matches = vec![
        found("contracts/foo", EntryKind::Directory),
        found("tools/x", EntryKind::Directory),
    ];
    let (_, action) = session.step(Event::Expanded { matches });
    assert_eq!(action, read("tools/x"));
}

#[test]
fn an_event_that_is_not_awaited_changes_nothing() {
    let (session, action) = build(default_filter());
    let (session, again) = session.step(Event::ToolExited { success: true });
    assert_eq!(again, action);
    assert_eq!(session.phase, Phase::Root);
    let (session, again) = session.step(Event::Expanded { matches: vec![] });
    assert_eq!(again, action);
    let (session, action) = session.step(manifest_of("widget"));
    let (session, again) = session.step(manifest_of("other"));
    assert_eq!(again, action);
    assert_eq!(session.pending(), action);
    let (_, action) = session.step(Event::ToolExited { success: true });
    assert_eq!(action, built(vec![package("widget", ".")]));
}

#[test]
fn pending_repeats_the_last_request() {
    let (session, action) = workspace_of(&["contracts/*"]);
    assert_eq!(session.pending(), action);
    let (session, action) =
        session.step(Event::Expanded { matches: vec![found("contracts/foo", EntryKind::Directory)] });
    assert_eq!(session.pending(), action);
    let (session, action) = session.step(Event::ManifestUnreadable);
    assert_eq!(session.pending(), action);
}

#[test]
fn outcomes_clone_to_equal_values() {
    let outcome = Outcome::Built { report: BuildReport { built: vec![package("a", "contracts/a")] } };
    assert_eq!(outcome.clone(), outcome);
    assert_eq!(Outcome::NoMembers.clone(), Outcome::NoMembers);
    let failure = Outcome::Failed { error: BuildError::ToolInvocationFailed };
    assert_eq!(failure.clone(), failure);
}

#[test]
fn run_takes_the_selection_in_the_given_order() {
    let (session, action) = run(vec!["contracts/b".to_string(), "contracts/a".to_string()]);
    assert_eq!(action, read("contracts/b"));
    let (session, action) = session.step(manifest_of("b"));
    assert_eq!(action, Action::Build { package: package("b", "contracts/b") });
    let (session, action) = session.step(Event::ToolExited { success: true });
    assert_eq!(action, read("contracts/a"));
    let (session, _) = session.step(manifest_of("a"));
    let (_, action) = session.step(Event::ToolExited { success: true });
    assert_eq!(
        action,
        built(vec![package("b", "contracts/b"), package("a", "contracts/a")])
    );
}

#[test]
fn run_of_nothing_ends_at_once() {
    let (session, action) = run(vec![]);
    assert_eq!(action, built(vec![]));
    assert_eq!(session.pending(), built(vec![]));
}

#[test]
fn run_stops_at_the_first_unreadable_manifest() {
    let (session, _) = run(vec!["x".to_string(), "y".to_string()]);
    let (session, action) = session.step(Event::ManifestUnreadable);
    assert_eq!(action, failed(BuildError::ManifestUnreadable));
    assert_eq!(session.queue, vec!["y".to_string()]);
}

#[test]
fn default_filter_has_the_default_prefix() {
    assert_eq!(BuildFilter::default(), BuildFilter { prefix: "contracts/".to_string() });
}
