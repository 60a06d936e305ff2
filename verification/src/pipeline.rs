//! The whole build stated directly, as a function of what the caller finds
//! on disk and of how the build tool exits, and the proof that a session
//! whose requests are answered from there ends with exactly that outcome.
use crate::manifest::{
    classification_of_text, package_of_text, Classification, ManifestError, Package,
};
use crate::orchestrator::{
    root_session, run_session, workspace_session, ActionView, BuildError, EventView,
    OutcomeView, PhaseView, SessionView, ROOT_DIRECTORY,
};
use crate::selector::selection;
use vstd::prelude::*;

verus! {

/// What the caller finds for one selected directory: the text of its
/// manifest, unless that cannot be read, and whether the build tool
/// succeeds there.
pub struct Reply {
    pub manifest: Option<Seq<char>>,
    pub tool_succeeds: bool,
}

/// What the caller finds in the course of one build: the root manifest,
/// the candidate directories of each member pattern in turn, and a reply
/// for each selected directory in turn.
pub struct World {
    pub root: Option<Seq<char>>,
    pub expansions: Seq<Seq<Seq<char>>>,
    pub replies: Seq<Reply>,
}

/// The build of one package: its manifest is read, then interpreted, then
/// the tool runs; the first of these that fails is the error.
pub open spec fn build_one(directory: Seq<char>, reply: Reply) -> Result<Package, BuildError> {
    match reply.manifest {
        None => Err(BuildError::ManifestUnreadable),
        Some(text) => match package_of_text(text, directory) {
            Err(e) => Err(BuildError::Manifest(e)),
            Ok(package) => if reply.tool_succeeds {
                Ok(package)
            } else {
                Err(BuildError::ToolInvocationFailed)
            },
        },
    }
}

/// The run over the selected directories, in their order, after `built`
/// were built: it ends at the first package that fails, and reports all of
/// them where none does.
pub open spec fn run_outcome(
    selected: Seq<Seq<char>>,
    replies: Seq<Reply>,
    built: Seq<Package>,
) -> OutcomeView
    recommends
        replies.len() == selected.len(),
    decreases selected.len(),
{
    if selected.len() == 0 {
        OutcomeView::Built { built }
    } else {
        match build_one(selected[0], replies[0]) {
            Ok(package) => run_outcome(selected.drop_first(), replies.drop_first(), built.push(package)),
            Err(error) => OutcomeView::Failed { error },
        }
    }
}

/// A run ends at the first package that fails, with that package's error,
/// whatever would have become of the packages queued behind it.
pub proof fn lemma_run_stops_at_first_failure(
    selected: Seq<Seq<char>>,
    replies: Seq<Reply>,
    built: Seq<Package>,
    i: int,
)
    requires
        replies.len() == selected.len(),
        0 <= i < selected.len(),
        forall|j: int| 0 <= j < i ==> (#[trigger] build_one(selected[j], replies[j])) is Ok,
        build_one(selected[i], replies[i]) is Err,
    ensures
        run_outcome(selected, replies, built) == (OutcomeView::Failed {
            error: build_one(selected[i], replies[i])->Err_0,
        }),
    decreases i,
{
    if i > 0 {
        let package = build_one(selected[0], replies[0])->Ok_0;
        assert forall|j: int| 0 <= j < i - 1 implies (#[trigger] build_one(
            selected.drop_first()[j],
            replies.drop_first()[j],
        )) is Ok by {
            assert(build_one(selected[j + 1], replies[j + 1]) is Ok);
        }
        lemma_run_stops_at_first_failure(
            selected.drop_first(),
            replies.drop_first(),
            built.push(package),
            i - 1,
        );
    }
}

/// The packages that a run builds where none fails.
pub open spec fn all_built(selected: Seq<Seq<char>>, replies: Seq<Reply>) -> Seq<Package> {
    Seq::new(selected.len(), |j: int| build_one(selected[j], replies[j])->Ok_0)
}

/// A run in which no package fails reports every selected package, after
/// those built before, in the order of the selection.
pub proof fn lemma_run_builds_all(
    selected: Seq<Seq<char>>,
    replies: Seq<Reply>,
    built: Seq<Package>,
)
    requires
        replies.len() == selected.len(),
        forall|j: int| 0 <= j < selected.len() ==> (#[trigger] build_one(selected[j], replies[j])) is Ok,
    ensures
        run_outcome(selected, replies, built) == (OutcomeView::Built {
            built: built + all_built(selected, replies),
        }),
    decreases selected.len(),
{
    if selected.len() == 0 {
        assert(built + all_built(selected, replies) =~= built);
    } else {
        let package = build_one(selected[0], replies[0])->Ok_0;
        assert forall|j: int| 0 <= j < selected.len() - 1 implies (#[trigger] build_one(
            selected.drop_first()[j],
            replies.drop_first()[j],
        )) is Ok by {
            assert(build_one(selected[j + 1], replies[j + 1]) is Ok);
        }
        lemma_run_builds_all(selected.drop_first(), replies.drop_first(), built.push(package));
        assert(built.push(package) + all_built(selected.drop_first(), replies.drop_first())
            =~= built + all_built(selected, replies));
    }
}

/// A run builds a package only in the directory in which its manifest was
/// read, and under the name that the manifest declares.
pub proof fn lemma_built_package_is_declared(directory: Seq<char>, reply: Reply)
    requires
        build_one(directory, reply) is Ok,
    ensures
        reply.manifest is Some,
        reply.tool_succeeds,
        package_of_text(reply.manifest->0, directory) == Ok::<_, ManifestError>(
            build_one(directory, reply)->Ok_0,
        ),
        build_one(directory, reply)->Ok_0.directory == directory,
{
}

/// The build of a workspace: the candidates of all member patterns are
/// selected from, and the selection is run.
pub open spec fn workspace_outcome(
    prefix: Seq<char>,
    expansions: Seq<Seq<Seq<char>>>,
    replies: Seq<Reply>,
) -> OutcomeView {
    run_outcome(selection(expansions.flatten(), prefix), replies, Seq::empty())
}

/// The build of the project in the current directory.
pub open spec fn build_outcome(prefix: Seq<char>, world: World) -> OutcomeView {
    match world.root {
        None => OutcomeView::Failed { error: BuildError::ManifestUnreadable },
        Some(text) => match classification_of_text(text) {
            Err(e) => OutcomeView::Failed { error: BuildError::Manifest(e) },
            Ok(Classification::WorkspaceNoMembers) => OutcomeView::NoMembers,
            Ok(Classification::SingleProject) => run_outcome(
                seq![ROOT_DIRECTORY@],
                seq![Reply { manifest: Some(text), tool_succeeds: world.replies[0].tool_succeeds }],
                Seq::empty(),
            ),
            Ok(Classification::Workspace { member_patterns }) => workspace_outcome(
                prefix,
                world.expansions,
                world.replies,
            ),
        },
    }
}

/// Whether `world` holds an answer to each request of the build: a
/// candidate list for each member pattern and a reply for each package.
pub open spec fn answers_build(prefix: Seq<char>, world: World) -> bool {
    world.root matches Some(text) ==> match classification_of_text(text) {
        Ok(Classification::SingleProject) => world.replies.len() >= 1,
        Ok(Classification::Workspace { member_patterns }) => {
            &&& world.expansions.len() == member_patterns.len()
            &&& world.replies.len() == selection(world.expansions.flatten(), prefix).len()
        },
        _ => true,
    }
}

/// The event that reports a manifest.
pub open spec fn manifest_event(manifest: Option<Seq<char>>) -> EventView {
    match manifest {
        Some(text) => EventView::ManifestRead { text },
        None => EventView::ManifestUnreadable,
    }
}

/// The events that report the replies, package by package: the manifest,
/// then the exit of the tool. A caller stops reporting once the run is
/// over; the events are listed in full here, since a session whose run is
/// over takes no notice of them.
pub open spec fn package_events(replies: Seq<Reply>) -> Seq<EventView>
    decreases replies.len(),
{
    if replies.len() == 0 {
        Seq::empty()
    } else {
        seq![
            manifest_event(replies[0].manifest),
            EventView::ToolExited { success: replies[0].tool_succeeds },
        ] + package_events(replies.drop_first())
    }
}

/// The events that report the expansions, pattern by pattern.
pub open spec fn expansion_events(expansions: Seq<Seq<Seq<char>>>) -> Seq<EventView>
    decreases expansions.len(),
{
    if expansions.len() == 0 {
        Seq::empty()
    } else {
        seq![EventView::Expanded { candidates: expansions[0] }] + expansion_events(
            expansions.drop_first(),
        )
    }
}

/// The events that report all of `world`, in the order of the requests.
pub open spec fn build_events(world: World) -> Seq<EventView> {
    seq![manifest_event(world.root)] + expansion_events(world.expansions) + package_events(
        world.replies,
    )
}

/// The session after the events, taken one after another.
pub open spec fn after(session: SessionView, events: Seq<EventView>) -> SessionView
    decreases events.len(),
{
    if events.len() == 0 {
        session
    } else {
        after(session.step(events[0]).0, events.drop_first())
    }
}

/// What a session asks for is what it then waits on: the action of a step
/// can be read off the state that the step leads to.
pub proof fn lemma_action_is_pending(session: SessionView, event: EventView)
    ensures
        session.step(event).1 == session.step(event).0.pending(),
{
}

/// A build is asked for only by a session that then waits for the tool.
pub proof fn lemma_build_only_while_building(session: SessionView, event: EventView)
    ensures
        session.step(event).1 is Build <==> session.step(event).0.phase is Building,
{
}

/// Taking the events of a concatenation is taking the first part, then
/// the second.
pub proof fn lemma_after_concat(session: SessionView, first: Seq<EventView>, second: Seq<EventView>)
    ensures
        after(session, first + second) == after(after(session, first), second),
    decreases first.len(),
{
    if first.len() == 0 {
        assert(first + second =~= second);
    } else {
        assert((first + second).drop_first() =~= first.drop_first() + second);
        lemma_after_concat(session.step(first[0]).0, first.drop_first(), second);
    }
}

/// Taking two or more events is taking the first two, then the others.
proof fn lemma_after_two(session: SessionView, events: Seq<EventView>)
    requires
        events.len() >= 2,
    ensures
        after(session, events) == after(
            session.step(events[0]).0.step(events[1]).0,
            events.drop_first().drop_first(),
        ),
{
    let first = session.step(events[0]).0;
    assert(after(session, events) == after(first, events.drop_first()));
    assert(events.drop_first()[0] == events[1]);
    assert(after(first, events.drop_first()) == after(
        first.step(events[1]).0,
        events.drop_first().drop_first(),
    ));
}

/// A session whose run is over stays as it is through any events.
pub proof fn lemma_after_finished(session: SessionView, events: Seq<EventView>)
    requires
        session.phase is Finished,
    ensures
        after(session, events) == session,
    decreases events.len(),
{
    if events.len() > 0 {
        lemma_after_finished(session, events.drop_first());
    }
}

/// Once a run is over, whatever is reported and however often, every
/// action that follows says that it is over: nothing more is read,
/// expanded or built.
pub proof fn lemma_nothing_asked_once_finished(
    session: SessionView,
    events: Seq<EventView>,
    i: int,
)
    requires
        session.phase is Finished,
        0 <= i < events.len(),
    ensures
        after(session, events.take(i)).step(events[i]).1 == (ActionView::Finish {
            outcome: session.phase->Finished_outcome,
        }),
{
    lemma_after_finished(session, events.take(i));
}

/// Reports of expansions are ignored by a session that waits for the tool.
proof fn lemma_after_expansions_while_building(session: SessionView, expansions: Seq<Seq<Seq<char>>>)
    requires
        session.phase is Building,
    ensures
        after(session, expansion_events(expansions)) == session,
    decreases expansions.len(),
{
    if expansions.len() > 0 {
        let events = expansion_events(expansions);
        assert(events.drop_first() =~= expansion_events(expansions.drop_first()));
        lemma_after_expansions_while_building(session, expansions.drop_first());
    }
}

/// A session that has turned to a selected directory ends with the outcome
/// of the run over that directory and the queued ones.
pub proof fn lemma_packages_refine(session: SessionView, replies: Seq<Reply>)
    requires
        session.phase is Reading,
        replies.len() == session.queue.len() + 1,
    ensures
        after(session, package_events(replies)).phase == (PhaseView::Finished {
            outcome: run_outcome(
                seq![session.phase->Reading_directory] + session.queue,
                replies,
                session.built,
            ),
        }),
    decreases replies.len(),
{
    let directory = session.phase->Reading_directory;
    let selected = seq![directory] + session.queue;
    let events = package_events(replies);
    let rest = package_events(replies.drop_first());
    let read = session.step(events[0]).0;
    let done = read.step(events[1]).0;
    assert(events.drop_first().drop_first() =~= rest);
    lemma_after_two(session, events);
    assert(selected.drop_first() =~= session.queue);
    match build_one(directory, replies[0]) {
        Ok(package) => {
            if session.queue.len() > 0 {
                assert(done.phase is Reading);
                lemma_packages_refine(done, replies.drop_first());
                assert(seq![done.phase->Reading_directory] + done.queue =~= session.queue);
            } else {
                assert(replies.drop_first().len() == 0);
                assert(run_outcome(session.queue, replies.drop_first(), session.built.push(package))
                    == (OutcomeView::Built { built: session.built.push(package) }));
                lemma_after_finished(done, rest);
            }
        },
        Err(error) => {
            if read.phase is Finished {
                lemma_finished(read, events[1]);
            }
            lemma_after_finished(done, rest);
        },
    }
}

/// A session whose run is over takes no step.
proof fn lemma_finished(session: SessionView, event: EventView)
    requires
        session.phase is Finished,
    ensures
        session.step(event).0 == session,
{
}

/// A session that has selected its packages ends with the outcome of the
/// run over the selection.
proof fn lemma_selected_refines(session: SessionView, replies: Seq<Reply>)
    requires
        !(session.phase is Finished),
        replies.len() == session.queue.len(),
    ensures
        after(session.next_package().0, package_events(replies)).phase == (PhaseView::Finished {
            outcome: run_outcome(session.queue, replies, session.built),
        }),
{
    let next = session.next_package().0;
    if session.queue.len() > 0 {
        lemma_packages_refine(next, replies);
        assert(seq![next.phase->Reading_directory] + next.queue =~= session.queue);
    } else {
        lemma_after_finished(next, package_events(replies));
    }
}

/// The run over a selection, begun with `run` and answered from what the
/// caller finds, ends with the outcome of that run.
pub proof fn lemma_run_refines(selected: Seq<Seq<char>>, replies: Seq<Reply>)
    requires
        replies.len() == selected.len(),
    ensures
        after(run_session(selected).0, package_events(replies)).phase == (PhaseView::Finished {
            outcome: run_outcome(selected, replies, Seq::empty()),
        }),
{
    lemma_selected_refines(
        SessionView { queue: selected, ..root_session(Seq::empty()) },
        replies,
    );
}

/// A session that expands member patterns ends with the outcome of the run
/// over what is selected from the candidates found before and after.
proof fn lemma_expansions_refine(
    session: SessionView,
    expansions: Seq<Seq<Seq<char>>>,
    replies: Seq<Reply>,
)
    requires
        !(session.phase is Finished),
        expansions.len() == session.patterns.len(),
        replies.len() == selection(
            session.candidates + expansions.flatten(),
            session.prefix,
        ).len(),
    ensures
        after(
            session.next_pattern().0,
            expansion_events(expansions) + package_events(replies),
        ).phase == (PhaseView::Finished {
            outcome: run_outcome(
                selection(session.candidates + expansions.flatten(), session.prefix),
                replies,
                session.built,
            ),
        }),
    decreases expansions.len(),
{
    let next = session.next_pattern().0;
    let events = expansion_events(expansions) + package_events(replies);
    if expansions.len() == 0 {
        assert(events =~= package_events(replies));
        assert(session.candidates + expansions.flatten() =~= session.candidates);
        let selected = SessionView {
            candidates: Seq::empty(),
            queue: selection(session.candidates, session.prefix),
            ..session
        };
        lemma_selected_refines(selected, replies);
    } else {
        let found = SessionView { candidates: next.candidates + expansions[0], ..next };
        assert(next.step(events[0]).0 == found.next_pattern().0);
        assert(events.drop_first() =~= expansion_events(expansions.drop_first())
            + package_events(replies));
        assert(found.candidates + expansions.drop_first().flatten() =~= session.candidates
            + expansions.flatten());
        lemma_expansions_refine(found, expansions.drop_first(), replies);
    }
}

/// The build of a workspace's members, begun with `build_workspace` and
/// answered from what the caller finds, ends with the outcome of the run
/// over the selection among all candidates.
pub proof fn lemma_build_workspace_refines(
    members: Seq<Seq<char>>,
    prefix: Seq<char>,
    expansions: Seq<Seq<Seq<char>>>,
    replies: Seq<Reply>,
)
    requires
        expansions.len() == members.len(),
        replies.len() == selection(expansions.flatten(), prefix).len(),
    ensures
        after(
            workspace_session(members, prefix).0,
            expansion_events(expansions) + package_events(replies),
        ).phase == (PhaseView::Finished { outcome: workspace_outcome(prefix, expansions, replies) }),
{
    let start = SessionView { patterns: members, ..root_session(prefix) };
    assert(start.candidates + expansions.flatten() =~= expansions.flatten());
    lemma_expansions_refine(start, expansions, replies);
}

/// The build of the project in the current directory, begun with `build`
/// and answered from what the caller finds, ends with the outcome that the
/// root manifest, the expansions and the replies determine.
pub proof fn lemma_build_refines(prefix: Seq<char>, world: World)
    requires
        answers_build(prefix, world),
    ensures
        after(root_session(prefix), build_events(world)).phase == (PhaseView::Finished {
            outcome: build_outcome(prefix, world),
        }),
{
    let start = root_session(prefix);
    let events = build_events(world);
    let rest = expansion_events(world.expansions) + package_events(world.replies);
    let read = start.step(events[0]).0;
    assert(events.drop_first() =~= rest);
    assert(after(start, events) == after(read, rest));
    match world.root {
        None => {
            lemma_after_finished(read, rest);
        },
        Some(text) => match classification_of_text(text) {
            Ok(Classification::SingleProject) => {
                let reply = Reply {
                    manifest: Some(text),
                    tool_succeeds: world.replies[0].tool_succeeds,
                };
                let one = seq![ROOT_DIRECTORY@];
                assert(one.drop_first() =~= Seq::<Seq<char>>::empty());
                match package_of_text(text, ROOT_DIRECTORY@) {
                    Ok(package) => {
                        assert(read.phase is Building);
                        lemma_after_concat(
                            read,
                            expansion_events(world.expansions),
                            package_events(world.replies),
                        );
                        lemma_after_expansions_while_building(read, world.expansions);
                        let tail = package_events(world.replies);
                        let ignored = read.step(tail[0]).0;
                        assert(ignored == read);
                        let done = read.step(tail[1]).0;
                        assert(tail.drop_first().drop_first() =~= package_events(
                            world.replies.drop_first(),
                        ));
                        lemma_after_two(read, tail);
                        lemma_after_finished(done, tail.drop_first().drop_first());
                        assert(Seq::<Package>::empty().push(package) =~= read.built.push(package));
                        if reply.tool_succeeds {
                            assert(run_outcome(
                                one.drop_first(),
                                seq![reply].drop_first(),
                                Seq::<Package>::empty().push(package),
                            ) == (OutcomeView::Built {
                                built: Seq::<Package>::empty().push(package),
                            }));
                        }
                    },
                    Err(e) => {
                        lemma_after_finished(read, rest);
                    },
                }
            },
            Ok(Classification::Workspace { member_patterns }) => {
                let begun = SessionView { patterns: member_patterns, ..start };
                assert(begun.candidates + world.expansions.flatten() =~= world.expansions.flatten());
                lemma_expansions_refine(begun, world.expansions, world.replies);
            },
            _ => {
                lemma_after_finished(read, rest);
            },
        },
    }
}

} // verus!
