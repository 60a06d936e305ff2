//! The build run as a state machine: the caller reads files, expands
//! patterns and runs the build tool, and reports each result as an event;
//! the session decides what happens next.
use crate::expander::{candidates_of, keep_directories, PathMatch};
use crate::manifest::{
    classification_of_text, classify_document, package_of, package_of_document,
    package_of_text, parse_manifest, Classification, ManifestDocument, ManifestError, Package,
    PackageDescriptor, WorkspaceClassification,
};
use crate::selector::{select, selection, BuildFilter};
use vstd::prelude::*;

verus! {

/// The directory of the root manifest.
pub const ROOT_DIRECTORY: &'static str = ".";

/// The name of the manifest file in the directory of a package.
pub const MANIFEST_FILE: &'static str = "Cargo.toml";

/// Why a run was aborted.
#[derive(Clone, Copy, Debug, PartialEq, Eq, Structural)]
pub enum BuildError {
    /// A manifest could not be read from disk.
    ManifestUnreadable,
    /// A manifest was read and could not be interpreted.
    Manifest(ManifestError),
    /// The build tool exited without success.
    ToolInvocationFailed,
}

/// The packages that a run built, in the order in which it built them.
#[derive(Debug, PartialEq, Eq)]
pub struct BuildReport {
    pub built: Vec<PackageDescriptor>,
}

/// How a run ended.
#[derive(Debug, PartialEq, Eq)]
pub enum Outcome {
    /// Every selected package was built.
    Built { report: BuildReport },
    /// The root manifest declares a workspace without members: nothing was
    /// built, and nothing went wrong.
    NoMembers,
    /// The run was aborted at the first failure.
    Failed { error: BuildError },
}

/// The mathematical value of an `Outcome`.
pub enum OutcomeView {
    Built { built: Seq<Package> },
    NoMembers,
    Failed { error: BuildError },
}

/// What the caller reports back to the session.
#[derive(Debug, PartialEq, Eq)]
pub enum Event {
    /// The manifest that was asked for has this text.
    ManifestRead { text: String },
    /// The manifest that was asked for is missing or cannot be read.
    ManifestUnreadable,
    /// The member pattern that was to be expanded matched these paths.
    Expanded { matches: Vec<PathMatch> },
    /// The build tool has exited.
    ToolExited { success: bool },
}

/// The mathematical value of an `Event`.
pub enum EventView {
    ManifestRead { text: Seq<char> },
    ManifestUnreadable,
    Expanded { candidates: Seq<Seq<char>> },
    ToolExited { success: bool },
}

/// What the session asks the caller to do next.
#[derive(Debug, PartialEq, Eq)]
pub enum Action {
    /// Read the manifest file in `directory` and report its text.
    ReadManifest { directory: String },
    /// Expand the member pattern and report the paths that it matches.
    Expand { pattern: String },
    /// Run the build tool in the package's directory and report how it
    /// exited.
    Build { package: PackageDescriptor },
    /// Stop: the run is over.
    Finish { outcome: Outcome },
}

/// The mathematical value of an `Action`.
pub enum ActionView {
    ReadManifest { directory: Seq<char> },
    Expand { pattern: Seq<char> },
    Build { package: Package },
    Finish { outcome: OutcomeView },
}

/// Where a session stands: what it is waiting for.
#[derive(Debug, PartialEq, Eq)]
pub enum Phase {
    /// For the text of the root manifest.
    Root,
    /// For the matches of a member pattern.
    Expanding { pattern: String },
    /// For the text of the manifest in a selected directory: the package
    /// there is pending.
    Reading { directory: String },
    /// For the build tool, at work on a package whose manifest was read
    /// and interpreted.
    Building { package: PackageDescriptor },
    /// For nothing: the run is over.
    Finished { outcome: Outcome },
}

/// The mathematical value of a `Phase`.
pub enum PhaseView {
    Root,
    Expanding { pattern: Seq<char> },
    Reading { directory: Seq<char> },
    Building { package: Package },
    Finished { outcome: OutcomeView },
}

/// One build run.
#[derive(Debug, PartialEq, Eq)]
pub struct Session {
    /// Decides which candidate directories are built.
    pub filter: BuildFilter,
    /// What the session is waiting for.
    pub phase: Phase,
    /// The member patterns that are still to be expanded.
    pub patterns: Vec<String>,
    /// The candidate directories found so far.
    pub candidates: Vec<String>,
    /// The selected directories that are still to be built.
    pub queue: Vec<String>,
    /// The packages built so far.
    pub built: Vec<PackageDescriptor>,
}

/// The mathematical value of a `Session`.
pub struct SessionView {
    pub prefix: Seq<char>,
    pub phase: PhaseView,
    pub patterns: Seq<Seq<char>>,
    pub candidates: Seq<Seq<char>>,
    pub queue: Seq<Seq<char>>,
    pub built: Seq<Package>,
}

/// The values of a sequence of package descriptors.
pub open spec fn packages(descriptors: Seq<PackageDescriptor>) -> Seq<Package> {
    Seq::new(descriptors.len(), |i: int| descriptors[i]@)
}

impl View for Outcome {
    type V = OutcomeView;

    open spec fn view(&self) -> OutcomeView {
        match self {
            Outcome::Built { report } => OutcomeView::Built { built: packages(report.built@) },
            Outcome::NoMembers => OutcomeView::NoMembers,
            Outcome::Failed { error } => OutcomeView::Failed { error: *error },
        }
    }
}

impl View for Event {
    type V = EventView;

    open spec fn view(&self) -> EventView {
        match self {
            Event::ManifestRead { text } => EventView::ManifestRead { text: text@ },
            Event::ManifestUnreadable => EventView::ManifestUnreadable,
            Event::Expanded { matches } => EventView::Expanded {
                candidates: candidates_of(matches@),
            },
            Event::ToolExited { success } => EventView::ToolExited { success: *success },
        }
    }
}

impl View for Action {
    type V = ActionView;

    open spec fn view(&self) -> ActionView {
        match self {
            Action::ReadManifest { directory } => ActionView::ReadManifest {
                directory: directory@,
            },
            Action::Expand { pattern } => ActionView::Expand { pattern: pattern@ },
            Action::Build { package } => ActionView::Build { package: package@ },
            Action::Finish { outcome } => ActionView::Finish { outcome: outcome@ },
        }
    }
}

impl View for Phase {
    type V = PhaseView;

    open spec fn view(&self) -> PhaseView {
        match self {
            Phase::Root => PhaseView::Root,
            Phase::Expanding { pattern } => PhaseView::Expanding { pattern: pattern@ },
            Phase::Reading { directory } => PhaseView::Reading { directory: directory@ },
            Phase::Building { package } => PhaseView::Building { package: package@ },
            Phase::Finished { outcome } => PhaseView::Finished { outcome: outcome@ },
        }
    }
}

impl View for Session {
    type V = SessionView;

    open spec fn view(&self) -> SessionView {
        SessionView {
            prefix: self.filter.prefix@,
            phase: self.phase@,
            patterns: self.patterns.deep_view(),
            candidates: self.candidates.deep_view(),
            queue: self.queue.deep_view(),
            built: packages(self.built@),
        }
    }
}

impl Clone for BuildReport {
    fn clone(&self) -> (r: Self)
        ensures
            packages(r.built@) == packages(self.built@),
    {
        let mut built: Vec<PackageDescriptor> = Vec::new();
        let mut i: usize = 0;
        while i < self.built.len()
            invariant
                0 <= i <= self.built.len(),
                packages(built@) == packages(self.built@.take(i as int)),
            decreases self.built.len() - i,
        {
            let ghost before = packages(built@);
            let package = self.built[i].clone();
            assert(package@ == self.built@[i as int]@);
            built.push(package);
            assert(packages(built@) =~= before.push(package@));
            assert(packages(self.built@.take(i + 1)) =~= before.push(package@));
            i += 1;
        }
        assert(self.built@.take(i as int) =~= self.built@);
        BuildReport { built }
    }
}

impl Clone for Outcome {
    fn clone(&self) -> (r: Self)
        ensures
            r@ == self@,
    {
        match self {
            Outcome::Built { report } => Outcome::Built { report: report.clone() },
            Outcome::NoMembers => Outcome::NoMembers,
            Outcome::Failed { error } => Outcome::Failed { error: *error },
        }
    }
}

impl SessionView {
    /// The session once the run is over, and the action that says so.
    pub open spec fn finish(self, outcome: OutcomeView) -> (SessionView, ActionView) {
        (
            SessionView { phase: PhaseView::Finished { outcome }, ..self },
            ActionView::Finish { outcome },
        )
    }

    /// Turns to the next selected directory, or ends the run where none is
    /// left.
    pub open spec fn next_package(self) -> (SessionView, ActionView) {
        if self.queue.len() > 0 {
            (
                SessionView {
                    phase: PhaseView::Reading { directory: self.queue[0] },
                    queue: self.queue.drop_first(),
                    ..self
                },
                ActionView::ReadManifest { directory: self.queue[0] },
            )
        } else {
            self.finish(OutcomeView::Built { built: self.built })
        }
    }

    /// Turns to the next member pattern, or, where none is left, selects
    /// among the candidates and turns to the first selected directory.
    pub open spec fn next_pattern(self) -> (SessionView, ActionView) {
        if self.patterns.len() > 0 {
            (
                SessionView {
                    phase: PhaseView::Expanding { pattern: self.patterns[0] },
                    patterns: self.patterns.drop_first(),
                    ..self
                },
                ActionView::Expand { pattern: self.patterns[0] },
            )
        } else {
            SessionView {
                candidates: Seq::empty(),
                queue: selection(self.candidates, self.prefix),
                ..self
            }.next_package()
        }
    }

    /// Starts the build of the package that a manifest describes, or ends
    /// the run where the manifest describes none.
    pub open spec fn build_described(self, described: Result<Package, ManifestError>) -> (
        SessionView,
        ActionView,
    ) {
        match described {
            Ok(package) => (
                SessionView { phase: PhaseView::Building { package }, ..self },
                ActionView::Build { package },
            ),
            Err(e) => self.finish(OutcomeView::Failed { error: BuildError::Manifest(e) }),
        }
    }

    /// Acts on the text of the manifest found in `directory`.
    pub open spec fn build_package(self, manifest: Seq<char>, directory: Seq<char>) -> (
        SessionView,
        ActionView,
    ) {
        self.build_described(package_of_text(manifest, directory))
    }

    /// Acts on the text of the root manifest.
    pub open spec fn root_read(self, manifest: Seq<char>) -> (SessionView, ActionView) {
        match classification_of_text(manifest) {
            Ok(Classification::SingleProject) => self.build_package(manifest, ROOT_DIRECTORY@),
            Ok(Classification::WorkspaceNoMembers) => self.finish(OutcomeView::NoMembers),
            Ok(Classification::Workspace { member_patterns }) => SessionView {
                patterns: member_patterns,
                ..self
            }.next_pattern(),
            Err(e) => self.finish(OutcomeView::Failed { error: BuildError::Manifest(e) }),
        }
    }

    /// The action that the session is waiting on.
    pub open spec fn pending(self) -> ActionView {
        match self.phase {
            PhaseView::Root => ActionView::ReadManifest { directory: ROOT_DIRECTORY@ },
            PhaseView::Expanding { pattern } => ActionView::Expand { pattern },
            PhaseView::Reading { directory } => ActionView::ReadManifest { directory },
            PhaseView::Building { package } => ActionView::Build { package },
            PhaseView::Finished { outcome } => ActionView::Finish { outcome },
        }
    }

    /// The transition of a session: the state after `event`, and what the
    /// caller is to do next. An event that the session is not waiting for
    /// changes nothing, and the pending action is asked for again.
    pub open spec fn step(self, event: EventView) -> (SessionView, ActionView) {
        match (self.phase, event) {
            (PhaseView::Root, EventView::ManifestRead { text }) => self.root_read(text),
            (PhaseView::Root, EventView::ManifestUnreadable) => self.finish(
                OutcomeView::Failed { error: BuildError::ManifestUnreadable },
            ),
            (PhaseView::Expanding { pattern }, EventView::Expanded { candidates }) => SessionView {
                candidates: self.candidates + candidates,
                ..self
            }.next_pattern(),
            (PhaseView::Reading { directory }, EventView::ManifestRead { text }) => self.build_package(
                text,
                directory,
            ),
            (PhaseView::Reading { directory }, EventView::ManifestUnreadable) => self.finish(
                OutcomeView::Failed { error: BuildError::ManifestUnreadable },
            ),
            (PhaseView::Building { package }, EventView::ToolExited { success }) => if success {
                SessionView { built: self.built.push(package), ..self }.next_package()
            } else {
                self.finish(OutcomeView::Failed { error: BuildError::ToolInvocationFailed })
            },
            _ => (self, self.pending()),
        }
    }
}

impl Session {
    fn finish(self, outcome: Outcome) -> (r: (Session, Action))
        ensures
            (r.0@, r.1@) == self@.finish(outcome@),
    {
        let mut session = self;
        session.phase = Phase::Finished { outcome: outcome.clone() };
        (session, Action::Finish { outcome })
    }

    fn next_package(self) -> (r: (Session, Action))
        ensures
            (r.0@, r.1@) == self@.next_package(),
    {
        let mut session = self;
        if session.queue.len() > 0 {
            let ghost queue = session.queue.deep_view();
            let directory = session.queue.remove(0);
            assert(session.queue.deep_view() =~= queue.drop_first());
            session.phase = Phase::Reading { directory: directory.clone() };
            (session, Action::ReadManifest { directory })
        } else {
            let report = BuildReport { built: session.built };
            let kept = report.clone();
            session.built = kept.built;
            session.finish(Outcome::Built { report })
        }
    }

    fn next_pattern(self) -> (r: (Session, Action))
        ensures
            (r.0@, r.1@) == self@.next_pattern(),
    {
        let mut session = self;
        if session.patterns.len() > 0 {
            let ghost patterns = session.patterns.deep_view();
            let pattern = session.patterns.remove(0);
            assert(session.patterns.deep_view() =~= patterns.drop_first());
            session.phase = Phase::Expanding { pattern: pattern.clone() };
            (session, Action::Expand { pattern })
        } else {
            session.queue = select(session.candidates, &session.filter);
            session.candidates = Vec::new();
            assert(session.candidates.deep_view() =~= Seq::empty());
            session.next_package()
        }
    }

    fn build_package(self, manifest: &ManifestDocument, directory: &str) -> (r: (Session, Action))
        ensures
            (r.0@, r.1@) == self@.build_described(package_of(manifest@, directory@)),
    {
        match package_of_document(manifest, directory) {
            Ok(package) => {
                let mut session = self;
                session.phase = Phase::Building { package: package.clone() };
                (session, Action::Build { package })
            },
            Err(e) => self.finish(Outcome::Failed { error: BuildError::Manifest(e) }),
        }
    }

    fn package_read(self, manifest: &str, directory: &str) -> (r: (Session, Action))
        ensures
            (r.0@, r.1@) == self@.build_package(manifest@, directory@),
    {
        match parse_manifest(manifest) {
            Ok(document) => self.build_package(&document, directory),
            Err(e) => self.finish(Outcome::Failed { error: BuildError::Manifest(e) }),
        }
    }

    fn root_read(self, manifest: &str) -> (r: (Session, Action))
        ensures
            (r.0@, r.1@) == self@.root_read(manifest@),
    {
        let document = match parse_manifest(manifest) {
            Ok(document) => document,
            Err(e) => {
                return self.finish(Outcome::Failed { error: BuildError::Manifest(e) });
            },
        };
        match classify_document(&document) {
            Ok(WorkspaceClassification::SingleProject) => self.build_package(
                &document,
                ROOT_DIRECTORY,
            ),
            Ok(WorkspaceClassification::WorkspaceNoMembers) => self.finish(Outcome::NoMembers),
            Ok(WorkspaceClassification::Workspace { member_patterns }) => {
                let mut session = self;
                session.patterns = member_patterns;
                session.next_pattern()
            },
            Err(e) => self.finish(Outcome::Failed { error: BuildError::Manifest(e) }),
        }
    }

    /// The action that the session is waiting on.
    pub fn pending(&self) -> (action: Action)
        ensures
            action@ == self@.pending(),
    {
        match &self.phase {
            Phase::Root => Action::ReadManifest { directory: ROOT_DIRECTORY.to_owned() },
            Phase::Expanding { pattern } => Action::Expand { pattern: pattern.clone() },
            Phase::Reading { directory } => Action::ReadManifest { directory: directory.clone() },
            Phase::Building { package } => Action::Build { package: package.clone() },
            Phase::Finished { outcome } => Action::Finish { outcome: outcome.clone() },
        }
    }

    /// Takes the session one step on: acts on `event` and says what the
    /// caller is to do next.
    pub fn step(self, event: Event) -> (r: (Session, Action))
        ensures
            (r.0@, r.1@) == self@.step(event@),
    {
        let mut session = self;
        match (&session.phase, event) {
            (Phase::Root, Event::ManifestRead { text }) => session.root_read(text.as_str()),
            (Phase::Root, Event::ManifestUnreadable) => session.finish(
                Outcome::Failed { error: BuildError::ManifestUnreadable },
            ),
            (Phase::Expanding { .. }, Event::Expanded { matches }) => {
                let ghost found = session.candidates.deep_view();
                let mut directories = keep_directories(matches.as_slice());
                let ghost added = directories.deep_view();
                session.candidates.append(&mut directories);
                assert(session.candidates.deep_view() =~= found + added);
                session.next_pattern()
            },
            (Phase::Reading { directory }, Event::ManifestRead { text }) => {
                let directory = directory.clone();
                session.package_read(text.as_str(), directory.as_str())
            },
            (Phase::Reading { .. }, Event::ManifestUnreadable) => session.finish(
                Outcome::Failed { error: BuildError::ManifestUnreadable },
            ),
            (Phase::Building { package }, Event::ToolExited { success }) => {
                if success {
                    let ghost built = packages(session.built@);
                    let package = package.clone();
                    session.built.push(package);
                    assert(packages(session.built@) =~= built.push(package@));
                    session.next_package()
                } else {
                    session.finish(Outcome::Failed { error: BuildError::ToolInvocationFailed })
                }
            },
            _ => {
                let action = session.pending();
                (session, action)
            },
        }
    }
}

/// The run for a root manifest that is still to be read.
pub open spec fn root_session(prefix: Seq<char>) -> SessionView {
    SessionView {
        prefix,
        phase: PhaseView::Root,
        patterns: Seq::empty(),
        candidates: Seq::empty(),
        queue: Seq::empty(),
        built: Seq::empty(),
    }
}

/// The run for the members of a workspace, and its first action.
pub open spec fn workspace_session(members: Seq<Seq<char>>, prefix: Seq<char>) -> (
    SessionView,
    ActionView,
) {
    SessionView { patterns: members, ..root_session(prefix) }.next_pattern()
}

/// The run over the selected directories, and its first action.
pub open spec fn run_session(selected: Seq<Seq<char>>) -> (SessionView, ActionView) {
    SessionView { queue: selected, ..root_session(Seq::empty()) }.next_package()
}

/// Begins the run over the selected directories, in their order: the
/// session asks for the manifest in the first of them, or ends at once
/// where nothing is selected.
pub fn run(selected: Vec<String>) -> (r: (Session, Action))
    ensures
        (r.0@, r.1@) == run_session(selected.deep_view()),
{
    let session = Session {
        filter: BuildFilter { prefix: String::new() },
        phase: Phase::Root,
        patterns: Vec::new(),
        candidates: Vec::new(),
        queue: selected,
        built: Vec::new(),
    };
    assert(session@.patterns =~= Seq::empty() && session@.candidates =~= Seq::empty()
        && session@.built =~= Seq::empty());
    session.next_package()
}

/// Begins the build of the project in the current directory: the session
/// asks for the root manifest.
pub fn build(filter: BuildFilter) -> (r: (Session, Action))
    ensures
        r.0@ == root_session(filter.prefix@),
        r.1@ == r.0@.pending(),
{
    let session = Session {
        filter,
        phase: Phase::Root,
        patterns: Vec::new(),
        candidates: Vec::new(),
        queue: Vec::new(),
        built: Vec::new(),
    };
    assert(session@.patterns =~= Seq::empty() && session@.candidates =~= Seq::empty()
        && session@.queue =~= Seq::empty() && session@.built =~= Seq::empty());
    let action = session.pending();
    (session, action)
}

/// Begins the build of the members of a workspace: the session asks for
/// the expansion of the first member pattern, or ends at once where there
/// is none.
pub fn build_workspace(workspace_members: &[String], filter: BuildFilter) -> (r: (
    Session,
    Action,
))
    ensures
        (r.0@, r.1@) == workspace_session(workspace_members.deep_view(), filter.prefix@),
{
    let mut patterns: Vec<String> = Vec::new();
    let mut i: usize = 0;
    while i < workspace_members.len()
        invariant
            0 <= i <= workspace_members.len(),
            patterns.deep_view() == workspace_members.deep_view().take(i as int),
        decreases workspace_members.len() - i,
    {
        let ghost before = patterns.deep_view();
        patterns.push(workspace_members[i].clone());
        assert(patterns.deep_view() =~= before.push(workspace_members@[i as int]@));
        assert(workspace_members.deep_view().take(i + 1) =~= before.push(
            workspace_members@[i as int]@,
        ));
        i += 1;
    }
    assert(patterns.deep_view() =~= workspace_members.deep_view());
    let session = Session {
        filter,
        phase: Phase::Root,
        patterns,
        candidates: Vec::new(),
        queue: Vec::new(),
        built: Vec::new(),
    };
    assert(session@.candidates =~= Seq::empty() && session@.queue =~= Seq::empty()
        && session@.built =~= Seq::empty());
    session.next_pattern()
}

/// A session whose run is over stays as it is, whatever is reported to it,
/// and asks for nothing more.
pub proof fn lemma_finished_stays(session: SessionView, event: EventView)
    requires
        session.phase is Finished,
    ensures
        session.step(event) == (
            session,
            ActionView::Finish { outcome: session.phase->Finished_outcome },
        ),
{
}

/// A manifest that cannot be read ends the run with `ManifestUnreadable`:
/// no build is asked for, and what was queued stays queued.
pub proof fn lemma_unreadable_manifest_aborts(session: SessionView)
    requires
        session.phase is Root || session.phase is Reading,
    ensures
        session.step(EventView::ManifestUnreadable) == session.finish(
            OutcomeView::Failed { error: BuildError::ManifestUnreadable },
        ),
        session.step(EventView::ManifestUnreadable).0.queue == session.queue,
        session.step(EventView::ManifestUnreadable).0.built == session.built,
{
}

/// A root manifest that declares a workspace without members ends the run
/// at once: nothing is expanded and nothing is built.
pub proof fn lemma_no_members_builds_nothing(prefix: Seq<char>, manifest: Seq<char>)
    requires
        classification_of_text(manifest) == Ok::<_, ManifestError>(
            Classification::WorkspaceNoMembers,
        ),
    ensures
        root_session(prefix).step(EventView::ManifestRead { text: manifest }).1
            == (ActionView::Finish { outcome: OutcomeView::NoMembers }),
        root_session(prefix).step(EventView::ManifestRead { text: manifest }).0.phase
            == (PhaseView::Finished { outcome: OutcomeView::NoMembers }),
        root_session(prefix).step(EventView::ManifestRead { text: manifest }).0.built.len() == 0,
{
}

} // verus!
