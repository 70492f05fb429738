//! What moving between tasks, opening and removing them comes to, said of the
//! tasks, the projects and the ways back and forward alone.
use crate::model::Id;
use crate::paths;
use crate::session::SessionView;
use crate::sidebar::Project;
use crate::tasks;
use crate::tasks::{
    ActivationStep, AddedProject, HydrationStep, NavigationView, PendingSessionActivation,
    ProjectKind, Removal, SelectionView, SessionActivationTransition, Successor,
};
use vstd::prelude::*;

verus! {

// ── Going back and forward ─────────────────────────────────────────────────

/// Whether the way back from a task leads to another.
pub open spec fn leads_back(selection: SelectionView, from: Id, to: Id) -> bool {
    &&& selection.selected_session == Some(from)
    &&& selection.navigation.back.len() > 0
    &&& selection.navigation.back.last() == to
}

/// Whether the way forward from a task leads to another.
pub open spec fn leads_forward(selection: SelectionView, from: Id, to: Id) -> bool {
    &&& selection.selected_session == Some(from)
    &&& selection.navigation.forward.len() > 0
    &&& selection.navigation.forward.last() == to
}

/// Whether two selections differ in nothing but the ways back and forward.
pub open spec fn same_but_ways(left: SelectionView, right: SelectionView) -> bool {
    &&& left.selected_session == right.selected_session
    &&& left.selected_project == right.selected_project
    &&& left.pending == right.pending
    &&& left.hydrating == right.hydrating
    &&& left.navigation.new_task == right.navigation.new_task
}

/// Going back is taken where the way back leads there from the task on screen,
/// and changes nothing elsewhere. The task gone to leaves the end of the way
/// back, and the one left becomes what going forward leads to. Going forward
/// from there restores both ways.
pub proof fn going_back_can_be_undone(selection: SelectionView, from: Id, to: Id)
    ensures
        ({
            let back = SessionActivationTransition::Back { from };
            let forward = SessionActivationTransition::Forward { from: to };
            let (after, opened) = selection.finished(to, back);
            let there = SelectionView { selected_session: Some(to), ..after };
            let (again, reopened) = there.finished(from, forward);
            &&& opened <==> leads_back(selection, from, to)
            &&& !opened ==> after == selection
            &&& opened ==> {
                &&& same_but_ways(after, selection)
                &&& selection.navigation.back == after.navigation.back.push(to)
                &&& after.navigation.forward == selection.navigation.forward.push(from)
                &&& after.navigation.forward_to() == Some(from)
                &&& reopened
                &&& again.navigation == selection.navigation
            }
        }),
{
    let back = SessionActivationTransition::Back { from };
    let forward = SessionActivationTransition::Forward { from: to };
    let (after, opened) = selection.finished(to, back);
    let there = SelectionView { selected_session: Some(to), ..after };
    let (again, reopened) = there.finished(from, forward);
    if opened {
        assert(after.navigation.back.push(to) =~= selection.navigation.back);
        assert(again.navigation =~= selection.navigation);
    }
}

/// Going forward is taken where the way forward leads there from the task on
/// screen, and changes nothing elsewhere. The task gone to leaves the end of
/// the way forward, and the one left becomes what going back leads to. Going
/// back from there restores both ways.
pub proof fn going_forward_can_be_undone(selection: SelectionView, from: Id, to: Id)
    ensures
        ({
            let forward = SessionActivationTransition::Forward { from };
            let back = SessionActivationTransition::Back { from: to };
            let (after, opened) = selection.finished(to, forward);
            let there = SelectionView { selected_session: Some(to), ..after };
            let (again, reopened) = there.finished(from, back);
            &&& opened <==> leads_forward(selection, from, to)
            &&& !opened ==> after == selection
            &&& opened ==> {
                &&& same_but_ways(after, selection)
                &&& selection.navigation.forward == after.navigation.forward.push(to)
                &&& after.navigation.back == selection.navigation.back.push(from)
                &&& after.navigation.back_to() == Some(from)
                &&& reopened
                &&& again.navigation == selection.navigation
            }
        }),
{
    let forward = SessionActivationTransition::Forward { from };
    let back = SessionActivationTransition::Back { from: to };
    let (after, opened) = selection.finished(to, forward);
    let there = SelectionView { selected_session: Some(to), ..after };
    let (again, reopened) = there.finished(from, back);
    if opened {
        assert(after.navigation.forward.push(to) =~= selection.navigation.forward);
        assert(again.navigation =~= selection.navigation);
    }
}

/// A visit always succeeds. What had been gone back from is forgotten, and the
/// task left, where there was one and it is another, is what going back leads
/// to: going back from there restores the way back, and going forward again
/// leads to the task visited.
pub proof fn a_visit_can_be_gone_back_from(selection: SelectionView, to: Id)
    ensures
        ({
            let (after, opened) = selection.finished(to, SessionActivationTransition::Visit);
            &&& opened
            &&& same_but_ways(after, selection)
            &&& after.navigation.forward.len() == 0
            &&& selection.selected_session is None || selection.selected_session == Some(to)
                ==> after.navigation.back == selection.navigation.back
            &&& selection.selected_session is Some && selection.selected_session != Some(to) ==> {
                let from = selection.selected_session->0;
                let there = SelectionView { selected_session: Some(to), ..after };
                let back = SessionActivationTransition::Back { from: to };
                let (again, reopened) = there.finished(from, back);
                &&& after.navigation.back == selection.navigation.back.push(from)
                &&& reopened
                &&& again.navigation.back == selection.navigation.back
                &&& again.navigation.forward == seq![to]
            }
        }),
{
    let (after, opened) = selection.finished(to, SessionActivationTransition::Visit);
    if let Some(from) = selection.selected_session {
        if from != to {
            assert(after.navigation.back.drop_last() =~= selection.navigation.back);
            assert(Seq::<Id>::empty().push(to) =~= seq![to]);
        }
    }
}

/// Where a way is empty it leads nowhere, and taking it changes nothing.
pub proof fn an_empty_way_leads_nowhere(navigation: NavigationView, current: Id)
    ensures
        navigation.back_to() is None <==> navigation.back.len() == 0,
        navigation.forward_to() is None <==> navigation.forward.len() == 0,
        navigation.back.len() == 0 ==> navigation.went_back(current) == navigation,
        navigation.forward.len() == 0 ==> navigation.went_forward(current) == navigation,
{
}

/// The new task begun last is taken up again as long as it stands unstarted in
/// the project it is asked for, and only then.
pub proof fn a_new_task_is_resumed_until_started(
    navigation: NavigationView,
    sessions: Seq<SessionView>,
    project_id: Id,
    begun: Id,
)
    ensures
        navigation.new_task is None ==> navigation.remembered(sessions, project_id) is None,
        ({
            let noted = (NavigationView { new_task: Some(begun), ..navigation });
            let remembered = noted.remembered(sessions, project_id);
            &&& remembered is None || remembered == Some(begun)
            &&& forall|i: int|
                0 <= i < sessions.len() && (#[trigger] sessions[i]).id == begun
                    && sessions[i].project_id == project_id && !sessions[i].started
                    ==> remembered == Some(begun)
            &&& (forall|i: int|
                0 <= i < sessions.len() && (#[trigger] sessions[i]).id == begun
                    ==> sessions[i].started || sessions[i].project_id != project_id)
                ==> remembered is None
        }),
{
}

// ── Asking for a task ──────────────────────────────────────────────────────

proof fn lemma_first_of(sessions: Seq<SessionView>, id: Id, at: int)
    requires
        0 <= at < sessions.len(),
        sessions[at].id == id,
        forall|k: int| 0 <= k < at ==> (#[trigger] sessions[k]).id != id,
    ensures
        crate::streaming::session_index(sessions, id) == Some(at),
{
    crate::streaming_laws::a_session_is_found_by_its_identity(sessions, id);
}

proof fn lemma_none_of(sessions: Seq<SessionView>, id: Id)
    requires
        forall|k: int| 0 <= k < sessions.len() ==> (#[trigger] sessions[k]).id != id,
    ensures
        crate::streaming::session_index(sessions, id) is None,
{
    crate::streaming_laws::a_session_is_found_by_its_identity(sessions, id);
}

/// Asking for a task that is not there changes nothing.
pub proof fn an_unknown_task_is_not_opened(
    selection: SelectionView,
    sessions: Seq<SessionView>,
    id: Id,
    transition: SessionActivationTransition,
)
    requires
        forall|k: int| 0 <= k < sessions.len() ==> (#[trigger] sessions[k]).id != id,
    ensures
        selection.requested(sessions, id, transition) == (selection, ActivationStep::Ignored),
{
    lemma_none_of(sessions, id);
}

/// A task that is not in memory is waited for: it is loaded once, the task on
/// screen stays there, and no way is taken yet.
pub proof fn a_task_is_loaded_before_it_is_opened(
    selection: SelectionView,
    sessions: Seq<SessionView>,
    at: int,
    transition: SessionActivationTransition,
)
    requires
        0 <= at < sessions.len(),
        forall|k: int| 0 <= k < at ==> (#[trigger] sessions[k]).id != sessions[at].id,
        !sessions[at].detail_loaded,
    ensures
        ({
            let id = sessions[at].id;
            let (after, step) = selection.requested(sessions, id, transition);
            let under_way = selection.hydrating.contains(id);
            &&& step == ActivationStep::Waiting { load: !under_way }
            &&& after.pending == Some(PendingSessionActivation { session_id: id, transition })
            &&& after.selected_session == selection.selected_session
            &&& after.selected_project == selection.selected_project
            &&& after.navigation == selection.navigation
            &&& after.hydrating.contains(id)
            &&& under_way ==> after.hydrating == selection.hydrating
            &&& !under_way ==> after.hydrating == selection.hydrating.push(id)
        }),
{
    lemma_first_of(sessions, sessions[at].id, at);
    let id = sessions[at].id;
    let (after, step) = selection.requested(sessions, id, transition);
    if !selection.hydrating.contains(id) {
        assert(after.hydrating[selection.hydrating.len() as int] == id);
    }
}

/// A task in memory is opened at once, by the way that was asked for, and
/// nothing is waited for any more. Where that way no longer leads there,
/// nothing is opened.
pub proof fn a_task_in_memory_is_opened_at_once(
    selection: SelectionView,
    sessions: Seq<SessionView>,
    at: int,
    transition: SessionActivationTransition,
)
    requires
        0 <= at < sessions.len(),
        forall|k: int| 0 <= k < at ==> (#[trigger] sessions[k]).id != sessions[at].id,
        sessions[at].detail_loaded,
    ensures
        ({
            let id = sessions[at].id;
            let (after, step) = selection.requested(sessions, id, transition);
            let open = match transition {
                SessionActivationTransition::Visit => true,
                SessionActivationTransition::Back { from } => leads_back(selection, from, id),
                SessionActivationTransition::Forward { from } => leads_forward(
                    selection,
                    from,
                    id,
                ),
            };
            &&& step == if open {
                ActivationStep::Activate
            } else {
                ActivationStep::Stale
            }
            &&& after.pending is None
            &&& after.hydrating == selection.hydrating
            &&& after.selected_session == selection.selected_session
            &&& after.selected_project == selection.selected_project
            &&& after.navigation == selection.finished(id, transition).0.navigation
        }),
{
    lemma_first_of(sessions, sessions[at].id, at);
}

/// What a list loses when an identity is forgotten: every occurrence of it, and
/// nothing else.
pub proof fn a_list_forgets_one_identity(ids: Seq<Id>, id: Id)
    ensures
        tasks::without(ids, id) == ids.filter(|other: Id| other != id),
        !tasks::without(ids, id).contains(id),
        forall|other: Id|
            other != id ==> (#[trigger] tasks::without(ids, id).contains(other) <==> ids.contains(
                other,
            )),
    decreases ids.len(),
{
    reveal(Seq::filter);
    if ids.len() > 0 {
        a_list_forgets_one_identity(ids.drop_last(), id);
    }
    let kept = ids.filter(|other: Id| other != id);
    assert forall|other: Id| other != id implies (kept.contains(other) <==> ids.contains(other)) by {
        lemma_filtered(ids, |other: Id| other != id, other);
    }
    lemma_filtered(ids, |other: Id| other != id, id);
}

proof fn lemma_filtered<A>(items: Seq<A>, keeps: spec_fn(A) -> bool, item: A)
    ensures
        items.filter(keeps).contains(item) <==> items.contains(item) && keeps(item),
    decreases items.len(),
{
    reveal(Seq::filter);
    if items.len() > 0 {
        let shorter = items.drop_last();
        lemma_filtered(shorter, keeps, item);
        let rest = shorter.filter(keeps);
        assert(items =~= shorter.push(items.last()));
        broadcast use vstd::seq_lib::lemma_seq_contains_after_push;

        assert(items.contains(item) <==> shorter.contains(item) || items.last() == item);
        assert(rest.push(items.last()).contains(item) <==> rest.contains(item) || items.last()
            == item);
    }
}

/// A task that came into memory is no longer loading. One that was waited for
/// is opened as if it had been in memory when it was asked for; one that could
/// not be loaded is not opened and not waited for.
pub proof fn a_loaded_task_is_opened_if_awaited(
    selection: SelectionView,
    sessions: Seq<SessionView>,
    id: Id,
    loaded: bool,
)
    ensures
        ({
            let (after, step) = selection.hydrated(sessions, id, loaded);
            let awaited = selection.pending matches Some(pending) && pending.session_id == id;
            let known = exists|k: int|
                0 <= k < sessions.len() && (#[trigger] sessions[k]).id == id;
            &&& after.hydrating == selection.hydrating.filter(|other: Id| other != id)
            &&& after.pending == if awaited {
                None
            } else {
                selection.pending
            }
            &&& after.selected_session == selection.selected_session
            &&& after.selected_project == selection.selected_project
            &&& step == HydrationStep::Failed <==> !loaded
            &&& loaded && known && awaited ==> {
                let transition = selection.pending->0.transition;
                let open = match transition {
                    SessionActivationTransition::Visit => true,
                    SessionActivationTransition::Back { from } => leads_back(selection, from, id),
                    SessionActivationTransition::Forward { from } => leads_forward(
                        selection,
                        from,
                        id,
                    ),
                };
                &&& step == if open {
                    HydrationStep::Activate
                } else {
                    HydrationStep::Nothing
                }
                &&& after.navigation == selection.finished(id, transition).0.navigation
            }
            &&& !(loaded && known && awaited) ==> {
                &&& after.navigation == selection.navigation
                &&& loaded ==> step == if selection.selected_session == Some(id) {
                    HydrationStep::Refresh
                } else {
                    HydrationStep::Nothing
                }
            }
        }),
{
    crate::streaming_laws::a_session_is_found_by_its_identity(sessions, id);
    a_list_forgets_one_identity(selection.hydrating, id);
}

// ── New tasks and projects ─────────────────────────────────────────────────

/// A project's draft is the first of its tasks that has not been started.
pub proof fn a_draft_is_the_first_unstarted_task(sessions: Seq<SessionView>, project_id: Id)
    ensures
        tasks::draft_in(sessions, project_id) is None <==> forall|i: int|
            0 <= i < sessions.len() && (#[trigger] sessions[i]).project_id == project_id
                ==> sessions[i].started,
        tasks::draft_in(sessions, project_id) matches Some(id) ==> exists|i: int|
            {
                &&& 0 <= i < sessions.len()
                &&& (#[trigger] sessions[i]).id == id
                &&& sessions[i].project_id == project_id
                &&& !sessions[i].started
                &&& forall|k: int|
                    0 <= k < i && (#[trigger] sessions[k]).project_id == project_id
                        ==> sessions[k].started
            },
    decreases sessions.len(),
{
    if sessions.len() > 0 {
        let rest = sessions.skip(1);
        a_draft_is_the_first_unstarted_task(rest, project_id);
        assert forall|i: int| 0 <= i < rest.len() implies #[trigger] rest[i] == sessions[i + 1] by {}
        assert forall|i: int| 1 <= i < sessions.len() implies #[trigger] sessions[i] == rest[i
            - 1] by {}
        if !(sessions[0].project_id == project_id && !sessions[0].started) {
            if let Some(id) = tasks::draft_in(rest, project_id) {
                let i = choose|i: int|
                    {
                        &&& 0 <= i < rest.len()
                        &&& (#[trigger] rest[i]).id == id
                        &&& rest[i].project_id == project_id
                        &&& !rest[i].started
                        &&& forall|k: int|
                            0 <= k < i && (#[trigger] rest[k]).project_id == project_id
                                ==> rest[k].started
                    };
                assert(sessions[i + 1].id == id);
            }
        }
    }
}

/// Whether a project holds new tasks that belong to none.
pub open spec fn loose(projects: Seq<ProjectKind>, project_id: Id) -> bool {
    exists|p: int|
        0 <= p < projects.len() && (#[trigger] projects[p]).id == project_id
            && projects[p].projectless && !projects[p].legacy_root
}

/// The draft without a project is the first unstarted task in a project that
/// only holds such tasks and is not the directory they once shared.
pub proof fn a_loose_draft_is_the_first_unstarted_task(
    sessions: Seq<SessionView>,
    projects: Seq<ProjectKind>,
)
    ensures
        tasks::loose_draft(sessions, projects) is None <==> forall|i: int|
            0 <= i < sessions.len() && !(#[trigger] sessions[i]).started ==> !loose(
                projects,
                sessions[i].project_id,
            ),
        tasks::loose_draft(sessions, projects) matches Some(id) ==> exists|i: int|
            {
                &&& 0 <= i < sessions.len()
                &&& (#[trigger] sessions[i]).id == id
                &&& !sessions[i].started
                &&& loose(projects, sessions[i].project_id)
                &&& forall|k: int|
                    0 <= k < i && !(#[trigger] sessions[k]).started ==> !loose(
                        projects,
                        sessions[k].project_id,
                    )
            },
    decreases sessions.len(),
{
    if sessions.len() > 0 {
        let rest = sessions.skip(1);
        a_loose_draft_is_the_first_unstarted_task(rest, projects);
        assert forall|i: int| 0 <= i < rest.len() implies #[trigger] rest[i] == sessions[i + 1] by {}
        assert forall|i: int| 1 <= i < sessions.len() implies #[trigger] sessions[i] == rest[i
            - 1] by {}
        assert(tasks::holds_loose_tasks(projects, sessions[0].project_id) == loose(
            projects,
            sessions[0].project_id,
        ));
        if sessions[0].started || !loose(projects, sessions[0].project_id) {
            if let Some(id) = tasks::loose_draft(rest, projects) {
                let i = choose|i: int|
                    {
                        &&& 0 <= i < rest.len()
                        &&& (#[trigger] rest[i]).id == id
                        &&& !rest[i].started
                        &&& loose(projects, rest[i].project_id)
                        &&& forall|k: int|
                            0 <= k < i && !(#[trigger] rest[k]).started ==> !loose(
                                projects,
                                rest[k].project_id,
                            )
                    };
                assert(sessions[i + 1].id == id);
            }
        }
    }
}

proof fn lemma_first_marked(projects: Seq<Project>, same: Seq<bool>)
    requires
        same.len() == projects.len(),
    ensures
        tasks::first_marked(projects, same) is None <==> forall|i: int|
            0 <= i < same.len() ==> !#[trigger] same[i],
        tasks::first_marked(projects, same) matches Some(id) ==> exists|i: int|
            {
                &&& 0 <= i < projects.len()
                &&& #[trigger] same[i]
                &&& projects[i].id == id
                &&& forall|k: int| 0 <= k < i ==> !#[trigger] same[k]
            },
    decreases projects.len(),
{
    if projects.len() > 0 {
        let rest = same.skip(1);
        lemma_first_marked(projects.skip(1), rest);
        assert forall|i: int| 0 <= i < rest.len() implies #[trigger] rest[i] == same[i + 1] by {}
        assert forall|i: int| 1 <= i < same.len() implies #[trigger] same[i] == rest[i - 1] by {}
        if !same[0] {
            if let Some(id) = tasks::first_marked(projects.skip(1), rest) {
                let i = choose|i: int|
                    {
                        &&& 0 <= i < projects.skip(1).len()
                        &&& #[trigger] rest[i]
                        &&& projects.skip(1)[i].id == id
                        &&& forall|k: int| 0 <= k < i ==> !#[trigger] rest[k]
                    };
                assert(same[i + 1]);
                assert(projects[i + 1].id == id);
            }
        }
    }
}

/// A chosen directory is refused where the tasks are elsewhere. Otherwise the
/// first project that stands there is opened, and only where none does the
/// directory becomes the last project.
pub proof fn a_chosen_directory_is_taken_once(
    projects: Seq<Project>,
    remote: bool,
    project: Project,
    same: Seq<bool>,
)
    requires
        tasks::marked_at(projects, project.path@, same),
    ensures
        ({
            let added = tasks::added_project(projects, remote, project, same);
            let after = tasks::with_project(projects, remote, project, same);
            let there = exists|i: int| 0 <= i < same.len() && #[trigger] same[i];
            &&& same.len() == projects.len()
            &&& added == AddedProject::Refused <==> remote
            &&& remote || there ==> after == projects
            &&& !remote && !there ==> added == AddedProject::New(project.id) && after
                == projects.push(project)
            &&& !remote && there ==> exists|i: int|
                {
                    &&& 0 <= i < projects.len()
                    &&& #[trigger] same[i]
                    &&& added == AddedProject::Existing(projects[i].id)
                    &&& forall|k: int| 0 <= k < i ==> !#[trigger] same[k]
                }
            &&& forall|i: int|
                #![trigger same[i]]
                0 <= i < same.len() && paths::surely_same(projects[i].path@, project.path@)
                    ==> same[i]
        }),
{
    lemma_first_marked(projects, same);
    assert forall|i: int|
        #![trigger same[i]]
        0 <= i < same.len() && paths::surely_same(
            projects[i].path@,
            project.path@,
        ) implies same[i] by {
        assert(paths::may_be_same(projects[i].path@, project.path@, same[i]));
    }
}

// ── Removing a task ────────────────────────────────────────────────────────

/// Whether the first project under an identity only holds loose tasks.
pub open spec fn first_is_loose(projects: Seq<ProjectKind>, project_id: Id) -> bool {
    exists|p: int|
        {
            &&& 0 <= p < projects.len()
            &&& (#[trigger] projects[p]).id == project_id
            &&& projects[p].projectless
            &&& forall|q: int| 0 <= q < p ==> (#[trigger] projects[q]).id != project_id
        }
}

/// Whether a task of a project is among the given ones.
pub open spec fn one_remains(sessions: Seq<SessionView>, project_id: Id) -> bool {
    exists|i: int| 0 <= i < sessions.len() && (#[trigger] sessions[i]).project_id == project_id
}

/// Whether the task at a place changed most recently of its project; of several
/// it is the last.
pub open spec fn changed_last(sessions: Seq<SessionView>, i: int) -> bool {
    &&& 0 <= i < sessions.len()
    &&& forall|k: int|
        0 <= k < sessions.len() && (#[trigger] sessions[k]).project_id == sessions[i].project_id ==> {
            &&& sessions[k].updated_at <= sessions[i].updated_at
            &&& k > i ==> sessions[k].updated_at < sessions[i].updated_at
        }
}

proof fn lemma_loose(projects: Seq<ProjectKind>, project_id: Id)
    ensures
        tasks::is_loose(projects, project_id) == first_is_loose(projects, project_id),
    decreases projects.len(),
{
    if projects.len() > 0 {
        let rest = projects.skip(1);
        lemma_loose(rest, project_id);
        assert forall|i: int| 0 <= i < rest.len() implies #[trigger] rest[i] == projects[i + 1] by {}
        assert forall|i: int| 1 <= i < projects.len() implies #[trigger] projects[i] == rest[i
            - 1] by {}
        if projects[0].id != project_id {
            if first_is_loose(rest, project_id) {
                let p = choose|p: int|
                    {
                        &&& 0 <= p < rest.len()
                        &&& (#[trigger] rest[p]).id == project_id
                        &&& rest[p].projectless
                        &&& forall|q: int| 0 <= q < p ==> (#[trigger] rest[q]).id != project_id
                    };
                assert(projects[p + 1].id == project_id);
            }
            if first_is_loose(projects, project_id) {
                let p = choose|p: int|
                    {
                        &&& 0 <= p < projects.len()
                        &&& (#[trigger] projects[p]).id == project_id
                        &&& projects[p].projectless
                        &&& forall|q: int|
                            0 <= q < p ==> (#[trigger] projects[q]).id != project_id
                    };
                assert(rest[p - 1].id == project_id);
                assert forall|q: int| 0 <= q < p - 1 implies (#[trigger] rest[q]).id
                    != project_id by {
                    assert(projects[q + 1].id != project_id);
                }
            }
        }
    }
}

proof fn lemma_changed_last(sessions: Seq<SessionView>, project_id: Id)
    ensures
        tasks::latest_in(sessions, project_id) is None <==> !one_remains(sessions, project_id),
        tasks::latest_in(sessions, project_id) matches Some(i) ==> changed_last(sessions, i)
            && sessions[i].project_id == project_id,
    decreases sessions.len(),
{
    if sessions.len() > 0 {
        let shorter = sessions.drop_last();
        lemma_changed_last(shorter, project_id);
        assert forall|k: int| 0 <= k < shorter.len() implies #[trigger] sessions[k]
            == shorter[k] by {}
        if one_remains(sessions, project_id) && sessions.last().project_id != project_id {
            let k = choose|k: int|
                0 <= k < sessions.len() && (#[trigger] sessions[k]).project_id == project_id;
            assert(shorter[k].project_id == project_id);
        }
        if sessions.last().project_id == project_id {
            assert(sessions[sessions.len() - 1].project_id == project_id);
        }
    }
}

proof fn lemma_other_projects(projects: Seq<ProjectKind>, project_id: Id)
    ensures
        tasks::other_projects(projects, project_id) == projects.filter(
            |project: ProjectKind| project.id != project_id,
        ),
    decreases projects.len(),
{
    reveal(Seq::filter);
    if projects.len() > 0 {
        lemma_other_projects(projects.drop_last(), project_id);
    }
}

/// A removal takes away one task and opens another only where the removed one
/// was on screen: the most recently changed task that remains in its project;
/// where none remains, a task without a project if it was one, and otherwise a
/// new one in its project.
pub proof fn a_removal_opens_what_remains(
    sessions: Seq<SessionView>,
    projects: Seq<ProjectKind>,
    selection: SelectionView,
    at: int,
)
    requires
        0 <= at < sessions.len(),
    ensures
        ({
            let outcome = tasks::removal_at(sessions, projects, selection, at);
            let gone = sessions[at];
            let rest = outcome.sessions;
            let on_screen = selection.selected_session == Some(gone.id);
            let remains = one_remains(rest, gone.project_id);
            let loose = first_is_loose(projects, gone.project_id);
            &&& rest == sessions.take(at) + sessions.skip(at + 1)
            &&& outcome.removal matches Removal::Removed { project_dropped, next } && {
                &&& next == Successor::Unchanged <==> !on_screen
                &&& next is Select <==> on_screen && remains
                &&& next matches Successor::Select(id) ==> exists|i: int|
                    {
                        &&& #[trigger] changed_last(rest, i)
                        &&& rest[i].project_id == gone.project_id
                        &&& rest[i].id == id
                    }
                &&& on_screen && !remains ==> next == if loose {
                    Successor::Projectless
                } else {
                    Successor::InProject(gone.project_id)
                }
                &&& project_dropped <==> loose && !remains
            }
        }),
{
    let outcome = tasks::removal_at(sessions, projects, selection, at);
    let gone = sessions[at];
    let rest = sessions.remove(at);
    lemma_loose(projects, gone.project_id);
    lemma_changed_last(rest, gone.project_id);
    assert(rest =~= sessions.take(at) + sessions.skip(at + 1));
    assert(tasks::uses_project(rest, gone.project_id) == one_remains(rest, gone.project_id));
    if let Some(i) = tasks::latest_in(rest, gone.project_id) {
        assert(changed_last(rest, i));
    }
}

/// A removal forgets the task wherever it was noted, and forgets nothing else:
/// the projects stay but for a directory made for loose tasks that has lost
/// its last one.
pub proof fn a_removal_forgets_one_task(
    sessions: Seq<SessionView>,
    projects: Seq<ProjectKind>,
    selection: SelectionView,
    at: int,
)
    requires
        0 <= at < sessions.len(),
    ensures
        ({
            let outcome = tasks::removal_at(sessions, projects, selection, at);
            let gone = sessions[at];
            let after = outcome.selection;
            let emptied = first_is_loose(projects, gone.project_id) && !one_remains(
                outcome.sessions,
                gone.project_id,
            );
            &&& outcome.projects == if emptied {
                projects.filter(|project: ProjectKind| project.id != gone.project_id)
            } else {
                projects
            }
            &&& after.selected_session == if selection.selected_session == Some(gone.id) {
                None
            } else {
                selection.selected_session
            }
            &&& after.selected_project == if emptied && selection.selected_project == Some(
                gone.project_id,
            ) {
                None
            } else {
                selection.selected_project
            }
            &&& after.pending == if selection.pending is Some && selection.pending->0.session_id
                == gone.id {
                None
            } else {
                selection.pending
            }
            &&& after.hydrating == selection.hydrating
            &&& after.navigation.back == selection.navigation.back.filter(
                |id: Id| id != gone.id,
            )
            &&& after.navigation.forward == selection.navigation.forward.filter(
                |id: Id| id != gone.id,
            )
            &&& after.navigation.new_task == if selection.navigation.new_task == Some(gone.id) {
                None
            } else {
                selection.navigation.new_task
            }
        }),
{
    let gone = sessions[at];
    let rest = sessions.remove(at);
    lemma_loose(projects, gone.project_id);
    lemma_other_projects(projects, gone.project_id);
    a_list_forgets_one_identity(selection.navigation.back, gone.id);
    a_list_forgets_one_identity(selection.navigation.forward, gone.id);
    assert(tasks::uses_project(rest, gone.project_id) == one_remains(rest, gone.project_id));
}

} // verus!
