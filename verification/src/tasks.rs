//! Which task is on screen: how the user moves between tasks, opens new ones
//! and removes old ones.
use crate::i18n;
use crate::i18n::Catalog;
use crate::model::{Id, ProviderKind, RuntimeMode};
use crate::paths;
use crate::session;
use crate::session::{AgentSession, SessionView};
use crate::sidebar::Project;
use crate::streaming;
use crate::text;
use vstd::prelude::*;

verus! {

// ── Lists of identities ────────────────────────────────────────────────────

/// A list without every occurrence of an identity.
pub open spec fn without(ids: Seq<Id>, id: Id) -> Seq<Id>
    decreases ids.len(),
{
    if ids.len() == 0 {
        ids
    } else if ids.last() == id {
        without(ids.drop_last(), id)
    } else {
        without(ids.drop_last(), id).push(ids.last())
    }
}

pub(crate) fn retain_others(ids: &mut Vec<Id>, id: Id)
    ensures
        final(ids)@ == without(old(ids)@, id),
{
    let ghost before = ids@;
    let mut kept: Vec<Id> = Vec::new();
    let mut i: usize = 0;
    assert(before.take(0) =~= Seq::<Id>::empty());
    while i < ids.len()
        invariant
            i <= ids@.len(),
            ids@ == before,
            kept@ == without(before.take(i as int), id),
        decreases ids@.len() - i,
    {
        assert(before.take(i + 1).drop_last() =~= before.take(i as int));
        assert(before.take(i + 1).last() == before[i as int]);
        let next: Id = ids[i];
        if next != id {
            kept.push(next);
        }
        i += 1;
    }
    assert(before.take(i as int) =~= before);
    *ids = kept;
}

fn has_id(ids: &Vec<Id>, id: Id) -> (found: bool)
    ensures
        found == ids@.contains(id),
{
    let mut i: usize = 0;
    while i < ids.len()
        invariant
            i <= ids@.len(),
            forall|k: int| 0 <= k < i ==> #[trigger] ids@[k] != id,
        decreases ids@.len() - i,
    {
        if ids[i] == id {
            assert(ids@[i as int] == id);
            return true;
        }
        i += 1;
    }
    false
}

proof fn lemma_without(ids: Seq<Id>, id: Id)
    ensures
        !without(ids, id).contains(id),
        forall|other: Id|
            other != id ==> (#[trigger] without(ids, id).contains(other) <==> ids.contains(other)),
    decreases ids.len(),
{
    if ids.len() > 0 {
        let shorter = ids.drop_last();
        lemma_without(shorter, id);
        assert(ids =~= shorter.push(ids.last()));
        let rest = without(shorter, id);
        let result = without(ids, id);
        assert forall|other: Id| #[trigger]
            ids.contains(other) <==> shorter.contains(other) || ids.last() == other by {
            if shorter.contains(other) {
                let k = choose|k: int| 0 <= k < shorter.len() && shorter[k] == other;
                assert(ids[k] == other);
            }
            if ids.last() == other {
                assert(ids[ids.len() - 1] == other);
            }
        }
        assert forall|other: Id| #[trigger]
            result.contains(other) <==> rest.contains(other) || ids.last() == other && other
                != id by {
            if rest.contains(other) {
                let k = choose|k: int| 0 <= k < rest.len() && rest[k] == other;
                assert(result[k] == other);
            }
            if ids.last() == other && other != id {
                assert(result[result.len() - 1] == other);
            }
        }
    }
}

// ── Back and forward ───────────────────────────────────────────────────────

/// The tasks the user came from and went back from, and the new task that was
/// begun last.
pub struct SessionNavigation {
    pub back: Vec<Id>,
    pub forward: Vec<Id>,
    pub new_task: Option<Id>,
}

#[verifier::ext_equal]
pub struct NavigationView {
    pub back: Seq<Id>,
    pub forward: Seq<Id>,
    pub new_task: Option<Id>,
}

impl View for SessionNavigation {
    type V = NavigationView;

    open spec fn view(&self) -> NavigationView {
        NavigationView { back: self.back@, forward: self.forward@, new_task: self.new_task }
    }
}

impl NavigationView {
    /// Nothing has been visited.
    pub open spec fn unvisited() -> NavigationView {
        NavigationView { back: Seq::empty(), forward: Seq::empty(), new_task: None }
    }

    /// After a visit: the task left can be gone back to, and what had been
    /// gone back from is forgotten.
    pub open spec fn visited(self, current: Option<Id>, target: Id) -> NavigationView {
        NavigationView {
            back: match current {
                Some(current) => if current != target {
                    self.back.push(current)
                } else {
                    self.back
                },
                None => self.back,
            },
            forward: Seq::empty(),
            ..self
        }
    }

    /// Where going back leads.
    pub open spec fn back_to(self) -> Option<Id> {
        if self.back.len() > 0 {
            Some(self.back.last())
        } else {
            None
        }
    }

    /// Where going forward leads.
    pub open spec fn forward_to(self) -> Option<Id> {
        if self.forward.len() > 0 {
            Some(self.forward.last())
        } else {
            None
        }
    }

    /// After going back from a task.
    pub open spec fn went_back(self, current: Id) -> NavigationView {
        if self.back.len() > 0 {
            NavigationView {
                back: self.back.drop_last(),
                forward: self.forward.push(current),
                ..self
            }
        } else {
            self
        }
    }

    /// After going forward from a task.
    pub open spec fn went_forward(self, current: Id) -> NavigationView {
        if self.forward.len() > 0 {
            NavigationView {
                back: self.back.push(current),
                forward: self.forward.drop_last(),
                ..self
            }
        } else {
            self
        }
    }

    /// After a task has been removed.
    pub open spec fn pruned(self, session_id: Id) -> NavigationView {
        NavigationView {
            back: without(self.back, session_id),
            forward: without(self.forward, session_id),
            new_task: if self.new_task == Some(session_id) {
                None
            } else {
                self.new_task
            },
        }
    }

    /// The new task that can be taken up again in a project: the one begun
    /// last, while it belongs there and has not been started.
    pub open spec fn remembered(self, sessions: Seq<SessionView>, project_id: Id) -> Option<Id> {
        match self.new_task {
            Some(id) => if exists|i: int|
                #![trigger sessions[i]]
                {
                    &&& 0 <= i < sessions.len()
                    &&& sessions[i].id == id
                    &&& sessions[i].project_id == project_id
                    &&& !sessions[i].started
                } {
                Some(id)
            } else {
                None
            },
            None => None,
        }
    }
}

impl SessionNavigation {
    /// Nothing has been visited.
    pub fn new() -> (navigation: SessionNavigation)
        ensures
            navigation@ == NavigationView::unvisited(),
    {
        let navigation = SessionNavigation {
            back: Vec::new(),
            forward: Vec::new(),
            new_task: None,
        };
        assert(navigation@ =~= NavigationView::unvisited());
        navigation
    }

    /// Note a visit from one task to another.
    pub fn visit(&mut self, current: Option<Id>, target: Id)
        ensures
            final(self)@ == old(self)@.visited(current, target),
    {
        if let Some(current) = current {
            if current != target {
                self.back.push(current);
            }
        }
        self.forward = Vec::new();
        assert(self.forward@ =~= Seq::<Id>::empty());
    }

    /// Where going back leads.
    pub fn back_target(&self) -> (target: Option<Id>)
        ensures
            target == self@.back_to(),
    {
        let count: usize = self.back.len();
        if count > 0 {
            Some(self.back[count - 1])
        } else {
            None
        }
    }

    /// Where going forward leads.
    pub fn forward_target(&self) -> (target: Option<Id>)
        ensures
            target == self@.forward_to(),
    {
        let count: usize = self.forward.len();
        if count > 0 {
            Some(self.forward[count - 1])
        } else {
            None
        }
    }

    /// Go back from a task.
    pub fn go_back(&mut self, current: Id) -> (target: Option<Id>)
        ensures
            target == old(self)@.back_to(),
            final(self)@ == old(self)@.went_back(current),
    {
        match self.back.pop() {
            Some(target) => {
                self.forward.push(current);
                assert(self@ =~= old(self)@.went_back(current));
                Some(target)
            },
            None => {
                assert(self@ =~= old(self)@);
                None
            },
        }
    }

    /// Go forward from a task.
    pub fn go_forward(&mut self, current: Id) -> (target: Option<Id>)
        ensures
            target == old(self)@.forward_to(),
            final(self)@ == old(self)@.went_forward(current),
    {
        match self.forward.pop() {
            Some(target) => {
                self.back.push(current);
                assert(self@ =~= old(self)@.went_forward(current));
                Some(target)
            },
            None => {
                assert(self@ =~= old(self)@);
                None
            },
        }
    }

    /// Forget a task.
    pub fn remove(&mut self, session_id: Id)
        ensures
            final(self)@ == old(self)@.pruned(session_id),
    {
        retain_others(&mut self.back, session_id);
        retain_others(&mut self.forward, session_id);
        if self.new_task == Some(session_id) {
            self.new_task = None;
        }
    }

    /// Note the new task that was begun last.
    pub fn remember_new_task(&mut self, session_id: Id)
        ensures
            final(self)@ == (NavigationView { new_task: Some(session_id), ..old(self)@ }),
    {
        self.new_task = Some(session_id);
    }

    /// The new task that can be taken up again in a project.
    pub fn remembered_new_task(&self, sessions: &Vec<AgentSession>, project_id: Id) -> (remembered:
        Option<Id>)
        ensures
            remembered == self@.remembered(session::sessions_view(sessions@), project_id),
    {
        let ghost views = session::sessions_view(sessions@);
        let id = match self.new_task {
            Some(id) => id,
            None => {
                return None;
            },
        };
        let mut i: usize = 0;
        while i < sessions.len()
            invariant
                i <= sessions@.len(),
                views == session::sessions_view(sessions@),
                self.new_task == Some(id),
                forall|k: int|
                    0 <= k < i ==> !((#[trigger] views[k]).id == id && views[k].project_id
                        == project_id && !views[k].started),
            decreases sessions@.len() - i,
        {
            assert(views[i as int] == sessions@[i as int]@);
            let session = &sessions[i];
            if session.id == id && session.project_id == project_id && !session.started {
                return Some(id);
            }
            i += 1;
        }
        None
    }
}

/// Going back from a task and forward again comes back to it, and leaves
/// everything as it was.
pub proof fn going_forward_undoes_going_back(navigation: NavigationView, current: Id)
    requires
        navigation.back_to() is Some,
    ensures
        ({
            let target = navigation.back_to()->0;
            let back = navigation.went_back(current);
            back.forward_to() == Some(current) && back.went_forward(target) == navigation
        }),
{
    let target = navigation.back_to()->0;
    assert(navigation.back.drop_last().push(target) =~= navigation.back);
    assert(navigation.forward.push(current).drop_last() =~= navigation.forward);
}

/// A removed task is never gone back or forward to, nor taken up again.
pub proof fn a_removed_task_is_not_revisited(
    navigation: NavigationView,
    session_id: Id,
    sessions: Seq<SessionView>,
    project_id: Id,
)
    ensures
        ({
            let pruned = navigation.pruned(session_id);
            &&& !pruned.back.contains(session_id)
            &&& !pruned.forward.contains(session_id)
            &&& pruned.remembered(sessions, project_id) != Some(session_id)
        }),
{
    lemma_without(navigation.back, session_id);
    lemma_without(navigation.forward, session_id);
}

// ── Opening a task ─────────────────────────────────────────────────────────

/// How a task comes to be opened.
#[derive(Clone, Copy, Debug, PartialEq, Eq, Structural)]
pub enum SessionActivationTransition {
    Visit,
    Back { from: Id },
    Forward { from: Id },
}

/// A task that is opened as soon as its transcript has been loaded.
#[derive(Clone, Copy, Debug, PartialEq, Eq, Structural)]
pub struct PendingSessionActivation {
    pub session_id: Id,
    pub transition: SessionActivationTransition,
}

/// Which task is on screen, and which is on its way there.
pub struct TaskSelection {
    pub selected_session: Option<Id>,
    pub selected_project: Option<Id>,
    pub pending: Option<PendingSessionActivation>,
    /// The tasks whose transcripts are being loaded.
    pub hydrating: Vec<Id>,
    pub navigation: SessionNavigation,
}

#[verifier::ext_equal]
pub struct SelectionView {
    pub selected_session: Option<Id>,
    pub selected_project: Option<Id>,
    pub pending: Option<PendingSessionActivation>,
    pub hydrating: Seq<Id>,
    pub navigation: NavigationView,
}

impl View for TaskSelection {
    type V = SelectionView;

    open spec fn view(&self) -> SelectionView {
        SelectionView {
            selected_session: self.selected_session,
            selected_project: self.selected_project,
            pending: self.pending,
            hydrating: self.hydrating@,
            navigation: self.navigation@,
        }
    }
}

/// What a request to open a task leads to.
#[derive(Clone, Copy, Debug, PartialEq, Eq, Structural)]
pub enum ActivationStep {
    /// There is no such task.
    Ignored,
    /// The task has to be loaded first; whether a load has to be started.
    Waiting { load: bool },
    /// The task is opened now.
    Activate,
    /// The way back or forward no longer leads there.
    Stale,
}

/// What follows the load of a task's transcript.
#[derive(Clone, Copy, Debug, PartialEq, Eq, Structural)]
pub enum HydrationStep {
    /// The task is opened now.
    Activate,
    /// The task is on screen: its rows are rebuilt.
    Refresh,
    Nothing,
    /// The load failed: the user is told.
    Failed,
}

impl SelectionView {
    /// The selection once a task is opened, and whether it is.
    pub open spec fn finished(self, session_id: Id, transition: SessionActivationTransition) -> (
        SelectionView,
        bool,
    ) {
        match transition {
            SessionActivationTransition::Visit => (
                SelectionView {
                    navigation: self.navigation.visited(self.selected_session, session_id),
                    ..self
                },
                true,
            ),
            SessionActivationTransition::Back { from } => if self.selected_session == Some(from)
                && self.navigation.back_to() == Some(session_id) {
                (SelectionView { navigation: self.navigation.went_back(from), ..self }, true)
            } else {
                (self, false)
            },
            SessionActivationTransition::Forward { from } => if self.selected_session == Some(from)
                && self.navigation.forward_to() == Some(session_id) {
                (SelectionView { navigation: self.navigation.went_forward(from), ..self }, true)
            } else {
                (self, false)
            },
        }
    }

    /// The selection after a task has been asked for.
    pub open spec fn requested(
        self,
        sessions: Seq<SessionView>,
        session_id: Id,
        transition: SessionActivationTransition,
    ) -> (SelectionView, ActivationStep) {
        match streaming::session_index(sessions, session_id) {
            None => (self, ActivationStep::Ignored),
            Some(i) => if !sessions[i].detail_loaded {
                (
                    SelectionView {
                        pending: Some(PendingSessionActivation { session_id, transition }),
                        ..self.loading(session_id)
                    },
                    ActivationStep::Waiting { load: !self.hydrating.contains(session_id) },
                )
            } else {
                let (next, activated) = SelectionView { pending: None, ..self }.finished(
                    session_id,
                    transition,
                );
                (
                    next,
                    if activated {
                        ActivationStep::Activate
                    } else {
                        ActivationStep::Stale
                    },
                )
            },
        }
    }

    /// The selection while a task is being loaded.
    pub open spec fn loading(self, session_id: Id) -> SelectionView {
        if self.hydrating.contains(session_id) {
            self
        } else {
            SelectionView { hydrating: self.hydrating.push(session_id), ..self }
        }
    }

    /// Whether a session is the one waited for.
    pub open spec fn awaits(self, session_id: Id) -> bool {
        self.pending matches Some(pending) && pending.session_id == session_id
    }

    /// The selection after a task has been loaded, or failed to be.
    pub open spec fn hydrated(
        self,
        sessions: Seq<SessionView>,
        session_id: Id,
        loaded: bool,
    ) -> (SelectionView, HydrationStep) {
        let known = streaming::session_index(sessions, session_id) is Some;
        let settled = SelectionView {
            hydrating: without(self.hydrating, session_id),
            pending: if self.awaits(session_id) {
                None
            } else {
                self.pending
            },
            ..self
        };
        if !loaded {
            (settled, HydrationStep::Failed)
        } else if known && self.awaits(session_id) {
            let (next, activated) = settled.finished(session_id, self.pending->0.transition);
            (
                next,
                if activated {
                    HydrationStep::Activate
                } else {
                    HydrationStep::Nothing
                },
            )
        } else if self.selected_session == Some(session_id) {
            (settled, HydrationStep::Refresh)
        } else {
            (settled, HydrationStep::Nothing)
        }
    }
}

impl TaskSelection {
    /// Open a task: note where the user came from. The way back or forward is
    /// taken only where it still leads there. Whether the task is opened.
    pub fn finish_session_activation(
        &mut self,
        session_id: Id,
        transition: SessionActivationTransition,
    ) -> (activated: bool)
        ensures
            (final(self)@, activated) == old(self)@.finished(session_id, transition),
    {
        match transition {
            SessionActivationTransition::Visit => {
                self.navigation.visit(self.selected_session, session_id);
                true
            },
            SessionActivationTransition::Back { from } => {
                if self.selected_session != Some(from) || self.navigation.back_target() != Some(
                    session_id,
                ) {
                    return false;
                }
                let _ = self.navigation.go_back(from);
                true
            },
            SessionActivationTransition::Forward { from } => {
                if self.selected_session != Some(from) || self.navigation.forward_target() != Some(
                    session_id,
                ) {
                    return false;
                }
                let _ = self.navigation.go_forward(from);
                true
            },
        }
    }

    /// Begin to load a task's transcript where it is not in memory; whether a
    /// load has to be started.
    pub fn ensure_session_loaded(&mut self, sessions: &Vec<AgentSession>, session_id: Id) -> (load:
        bool)
        ensures
            ({
                let found = streaming::session_index(session::sessions_view(sessions@), session_id);
                let needed = found matches Some(i) && !session::sessions_view(
                    sessions@,
                )[i].detail_loaded;
                &&& load == (needed && !old(self)@.hydrating.contains(session_id))
                &&& final(self)@ == (if needed {
                    old(self)@.loading(session_id)
                } else {
                    old(self)@
                })
            }),
    {
        match streaming::find_session(sessions, session_id) {
            Some(i) => {
                assert(session::sessions_view(sessions@)[i as int] == sessions@[i as int]@);
                if sessions[i].detail_loaded || has_id(&self.hydrating, session_id) {
                    return false;
                }
                self.hydrating.push(session_id);
                true
            },
            None => false,
        }
    }

    /// Ask for a task. The one on screen stays there until the new one's
    /// transcript is in memory.
    pub fn request_session_activation(
        &mut self,
        sessions: &Vec<AgentSession>,
        session_id: Id,
        transition: SessionActivationTransition,
    ) -> (step: ActivationStep)
        ensures
            (final(self)@, step) == old(self)@.requested(
                session::sessions_view(sessions@),
                session_id,
                transition,
            ),
    {
        match streaming::find_session(sessions, session_id) {
            None => ActivationStep::Ignored,
            Some(i) => {
                assert(session::sessions_view(sessions@)[i as int] == sessions@[i as int]@);
                if !sessions[i].detail_loaded {
                    self.pending = Some(PendingSessionActivation { session_id, transition });
                    let load = self.ensure_session_loaded(sessions, session_id);
                    return ActivationStep::Waiting { load };
                }
                self.pending = None;
                if self.finish_session_activation(session_id, transition) {
                    ActivationStep::Activate
                } else {
                    ActivationStep::Stale
                }
            },
        }
    }

    /// Take up a task whose transcript has been loaded, or note that it could
    /// not be.
    pub fn finish_hydration(
        &mut self,
        sessions: &mut Vec<AgentSession>,
        session_id: Id,
        loaded: Option<AgentSession>,
    ) -> (step: HydrationStep)
        ensures
            (final(self)@, step) == old(self)@.hydrated(
                session::sessions_view(old(sessions)@),
                session_id,
                loaded is Some,
            ),
            session::sessions_view(final(sessions)@) == (match (
                streaming::session_index(session::sessions_view(old(sessions)@), session_id),
                loaded,
            ) {
                (Some(i), Some(loaded)) => session::sessions_view(old(sessions)@).update(
                    i,
                    loaded@,
                ),
                _ => session::sessions_view(old(sessions)@),
            }),
    {
        let ghost before = session::sessions_view(sessions@);
        retain_others(&mut self.hydrating, session_id);
        let pending = match self.pending {
            Some(pending) => if pending.session_id == session_id {
                self.pending = None;
                Some(pending)
            } else {
                None
            },
            None => None,
        };
        match loaded {
            Some(loaded) => {
                let found = streaming::find_session(sessions, session_id);
                if let Some(i) = found {
                    let ghost view = loaded@;
                    sessions[i] = loaded;
                    assert(session::sessions_view(sessions@) =~= before.update(i as int, view));
                }
                match (found, pending) {
                    (Some(_), Some(pending)) => {
                        if self.finish_session_activation(session_id, pending.transition) {
                            HydrationStep::Activate
                        } else {
                            HydrationStep::Nothing
                        }
                    },
                    _ => {
                        if self.selected_session == Some(session_id) {
                            HydrationStep::Refresh
                        } else {
                            HydrationStep::Nothing
                        }
                    },
                }
            },
            None => HydrationStep::Failed,
        }
    }
}

/// What a new task starts with: what the last one used.
pub struct RememberedSettings {
    pub provider: ProviderKind,
    pub runtime_mode: RuntimeMode,
    pub model: Option<String>,
    pub reasoning_effort: Option<String>,
    pub service_tier: Option<String>,
    pub context_window: Option<String>,
}

pub struct RememberedView {
    pub provider: ProviderKind,
    pub runtime_mode: RuntimeMode,
    pub model: Option<Seq<char>>,
    pub reasoning_effort: Option<Seq<char>>,
    pub service_tier: Option<Seq<char>>,
    pub context_window: Option<Seq<char>>,
}

impl View for RememberedSettings {
    type V = RememberedView;

    open spec fn view(&self) -> RememberedView {
        RememberedView {
            provider: self.provider,
            runtime_mode: self.runtime_mode,
            model: text::text_view(self.model),
            reasoning_effort: text::text_view(self.reasoning_effort),
            service_tier: text::text_view(self.service_tier),
            context_window: text::text_view(self.context_window),
        }
    }
}

/// The settings of a session, as a new task would start with them.
pub open spec fn settings_of(session: SessionView) -> RememberedView {
    RememberedView {
        provider: session.provider,
        runtime_mode: session.runtime_mode,
        model: session.model,
        reasoning_effort: session.reasoning_effort,
        service_tier: session.service_tier,
        context_window: session.context_window,
    }
}

/// What the application does once a task is on screen.
#[derive(Clone, Copy, Debug, PartialEq, Eq, Structural)]
pub struct Activated {
    /// Another task was there before: drafts and panels are exchanged.
    pub session_changed: bool,
    /// The task has been started: its runtime is looked for.
    pub attach_runtime: bool,
}

/// Put a task on screen and remember what it uses. A task that has not been
/// started is remembered as the new one.
pub fn activate_session(
    selection: &mut TaskSelection,
    remembered: &mut RememberedSettings,
    sessions: &Vec<AgentSession>,
    session_id: Id,
) -> (activated: Activated)
    ensures
        activated.session_changed == (old(selection).selected_session != Some(session_id)),
        match streaming::session_index(session::sessions_view(sessions@), session_id) {
            Some(i) => {
                let session = session::sessions_view(sessions@)[i];
                &&& activated.attach_runtime == session.started
                &&& final(remembered)@ == settings_of(session)
                &&& final(selection)@ == (SelectionView {
                    selected_session: Some(session_id),
                    selected_project: Some(session.project_id),
                    navigation: if session.started {
                        old(selection)@.navigation
                    } else {
                        NavigationView {
                            new_task: Some(session_id),
                            ..old(selection)@.navigation
                        }
                    },
                    ..old(selection)@
                })
            },
            None => {
                &&& !activated.attach_runtime
                &&& final(remembered)@ == old(remembered)@
                &&& final(selection)@ == (SelectionView {
                    selected_session: Some(session_id),
                    ..old(selection)@
                })
            },
        },
{
    let session_changed = selection.selected_session != Some(session_id);
    selection.selected_session = Some(session_id);
    match streaming::find_session(sessions, session_id) {
        Some(i) => {
            let session = &sessions[i];
            assert(session::sessions_view(sessions@)[i as int] == session@);
            selection.selected_project = Some(session.project_id);
            remembered.provider = session.provider;
            remembered.runtime_mode = session.runtime_mode;
            remembered.model = text::copy_text(&session.model);
            remembered.reasoning_effort = text::copy_text(&session.reasoning_effort);
            remembered.service_tier = text::copy_text(&session.service_tier);
            remembered.context_window = text::copy_text(&session.context_window);
            if !session.started {
                selection.navigation.remember_new_task(session_id);
            }
            Activated { session_changed, attach_runtime: session.started }
        },
        None => Activated { session_changed, attach_runtime: false },
    }
}

// ── New tasks ──────────────────────────────────────────────────────────────

/// How a new task may touch the workspace: as the task it is opened from, or
/// else as the last one.
pub fn new_task_runtime_mode(current: Option<&AgentSession>, remembered: RuntimeMode) -> (mode:
    RuntimeMode)
    ensures
        mode == match current {
            Some(current) => current.runtime_mode,
            None => remembered,
        },
{
    match current {
        Some(current) => current.runtime_mode,
        None => remembered,
    }
}

/// The first task of a project that has not been started.
pub open spec fn draft_in(sessions: Seq<SessionView>, project_id: Id) -> Option<Id>
    decreases sessions.len(),
{
    if sessions.len() == 0 {
        None
    } else if sessions[0].project_id == project_id && !sessions[0].started {
        Some(sessions[0].id)
    } else {
        draft_in(sessions.skip(1), project_id)
    }
}

fn find_draft(sessions: &Vec<AgentSession>, project_id: Id) -> (draft: Option<Id>)
    ensures
        draft == draft_in(session::sessions_view(sessions@), project_id),
{
    let ghost views = session::sessions_view(sessions@);
    let mut i: usize = 0;
    assert(views.skip(0) =~= views);
    while i < sessions.len()
        invariant
            i <= sessions@.len(),
            views == session::sessions_view(sessions@),
            draft_in(views, project_id) == draft_in(views.skip(i as int), project_id),
        decreases sessions@.len() - i,
    {
        assert(views.skip(i as int)[0] == sessions@[i as int]@);
        assert(views.skip(i as int).skip(1) =~= views.skip(i + 1));
        if sessions[i].project_id == project_id && !sessions[i].started {
            return Some(sessions[i].id);
        }
        i += 1;
    }
    assert(views.skip(i as int) =~= Seq::<SessionView>::empty());
    None
}

/// A task for a project: the first that has not been started yet, or else a
/// new one under `fresh_id`. Which task is to be opened.
pub fn create_session_for(
    sessions: &mut Vec<AgentSession>,
    selected: Option<Id>,
    project_id: Id,
    provider: ProviderKind,
    remembered: RuntimeMode,
    fresh_id: Id,
    now: u64,
) -> (opened: Id)
    ensures
        ({
            let before = session::sessions_view(old(sessions)@);
            let after = session::sessions_view(final(sessions)@);
            let current = match selected {
                Some(id) => streaming::session_index(before, id),
                None => None,
            };
            match draft_in(before, project_id) {
                Some(draft) => opened == draft && after == before,
                None => opened == fresh_id && after == before.push(
                    SessionView {
                        runtime_mode: match current {
                            Some(i) => before[i].runtime_mode,
                            None => remembered,
                        },
                        ..SessionView::fresh(fresh_id, project_id, provider, now)
                    },
                ),
            }
        }),
{
    let ghost before = session::sessions_view(sessions@);
    if let Some(draft) = find_draft(sessions, project_id) {
        return draft;
    }
    let runtime_mode = match selected {
        Some(id) => match streaming::find_session(sessions, id) {
            Some(i) => {
                assert(before[i as int] == sessions@[i as int]@);
                new_task_runtime_mode(Some(&sessions[i]), remembered)
            },
            None => new_task_runtime_mode(None, remembered),
        },
        None => new_task_runtime_mode(None, remembered),
    };
    let mut session = AgentSession::new(fresh_id, project_id, provider, now);
    session.runtime_mode = runtime_mode;
    let ghost added = session@;
    sessions.push(session);
    assert(session::sessions_view(sessions@) =~= before.push(added));
    fresh_id
}

/// What a project is to tasks that belong to none.
#[derive(Clone, Copy, Debug, PartialEq, Eq, Structural)]
pub struct ProjectKind {
    pub id: Id,
    /// It only holds tasks that belong to no project.
    pub projectless: bool,
    /// It is the shared directory that such tasks once ran in.
    pub legacy_root: bool,
}

/// Whether a project can hold a new task that belongs to none.
pub open spec fn holds_loose_tasks(projects: Seq<ProjectKind>, project_id: Id) -> bool {
    exists|i: int|
        #![trigger projects[i]]
        0 <= i < projects.len() && projects[i].id == project_id && projects[i].projectless
            && !projects[i].legacy_root
}

/// The first task without a project that has not been started.
pub open spec fn loose_draft(sessions: Seq<SessionView>, projects: Seq<ProjectKind>) -> Option<Id>
    decreases sessions.len(),
{
    if sessions.len() == 0 {
        None
    } else if !sessions[0].started && holds_loose_tasks(projects, sessions[0].project_id) {
        Some(sessions[0].id)
    } else {
        loose_draft(sessions.skip(1), projects)
    }
}

fn can_hold_loose_tasks(projects: &Vec<ProjectKind>, project_id: Id) -> (result: bool)
    ensures
        result == holds_loose_tasks(projects@, project_id),
{
    let mut i: usize = 0;
    while i < projects.len()
        invariant
            i <= projects@.len(),
            forall|k: int|
                #![trigger projects@[k]]
                0 <= k < i ==> !(projects@[k].id == project_id && projects@[k].projectless
                    && !projects@[k].legacy_root),
        decreases projects@.len() - i,
    {
        let project = projects[i];
        if project.id == project_id && project.projectless && !project.legacy_root {
            return true;
        }
        i += 1;
    }
    false
}

/// The task without a project that is opened again in place of a new one: the
/// first that has not been started. Where there is none, a workspace has to
/// be created for it.
pub fn find_projectless_draft(sessions: &Vec<AgentSession>, projects: &Vec<ProjectKind>) -> (draft:
    Option<Id>)
    ensures
        draft == loose_draft(session::sessions_view(sessions@), projects@),
{
    let ghost views = session::sessions_view(sessions@);
    let mut i: usize = 0;
    assert(views.skip(0) =~= views);
    while i < sessions.len()
        invariant
            i <= sessions@.len(),
            views == session::sessions_view(sessions@),
            loose_draft(views, projects@) == loose_draft(views.skip(i as int), projects@),
        decreases sessions@.len() - i,
    {
        assert(views.skip(i as int)[0] == sessions@[i as int]@);
        assert(views.skip(i as int).skip(1) =~= views.skip(i + 1));
        if !sessions[i].started && can_hold_loose_tasks(projects, sessions[i].project_id) {
            return Some(sessions[i].id);
        }
        i += 1;
    }
    assert(views.skip(i as int) =~= Seq::<SessionView>::empty());
    None
}

/// What opens a task without a project.
#[derive(Clone, Copy, Debug, PartialEq, Eq, Structural)]
pub enum ProjectlessStep {
    /// A task without a project that has not been started is opened again.
    Open(Id),
    /// A workspace is asked for.
    CreateWorkspace,
}

/// What opens a task without a project: one that has not been started, or a
/// new workspace.
pub fn create_projectless_session(sessions: &Vec<AgentSession>, projects: &Vec<ProjectKind>) -> (step:
    ProjectlessStep)
    ensures
        step == match loose_draft(session::sessions_view(sessions@), projects@) {
            Some(id) => ProjectlessStep::Open(id),
            None => ProjectlessStep::CreateWorkspace,
        },
{
    match find_projectless_draft(sessions, projects) {
        Some(id) => ProjectlessStep::Open(id),
        None => ProjectlessStep::CreateWorkspace,
    }
}

/// What the daemon answers to a request for a workspace.
pub enum WorkspaceReply {
    /// The workspace, as a project of its own.
    Created { project: Project },
    /// An answer to something else.
    Other,
    Failed { error: String },
}

/// What the user is told where no workspace came.
pub open spec fn workspace_failure(
    entries: Seq<(Seq<char>, Seq<char>)>,
    error: Seq<char>,
) -> Seq<char> {
    i18n::localized(
        entries,
        "errors.create_projectless_task"@,
        seq![i18n::argument("error"@, error)],
    )
}

/// Take up the workspace for a task without a project: it becomes a project,
/// in which a task is begun. Else what the user is told.
pub fn finish_projectless_workspace(
    catalog: &Catalog,
    projects: &mut Vec<Project>,
    reply: WorkspaceReply,
) -> (result: Result<Id, String>)
    ensures
        match reply {
            WorkspaceReply::Created { project } => {
                &&& result == Ok::<Id, String>(project.id)
                &&& final(projects)@ == old(projects)@.push(project)
            },
            WorkspaceReply::Other => {
                &&& result matches Err(toast)
                &&& toast@ == workspace_failure(
                    catalog@,
                    "the daemon returned an invalid projectless response"@,
                )
                &&& final(projects)@ == old(projects)@
            },
            WorkspaceReply::Failed { error } => {
                &&& result matches Err(toast)
                &&& toast@ == workspace_failure(catalog@, error@)
                &&& final(projects)@ == old(projects)@
            },
        },
{
    match reply {
        WorkspaceReply::Created { project } => {
            let id: Id = project.id;
            projects.push(project);
            Ok(id)
        },
        WorkspaceReply::Other => Err(
            catalog.text_with(
                "errors.create_projectless_task",
                "error",
                "the daemon returned an invalid projectless response",
            ),
        ),
        WorkspaceReply::Failed { error } => Err(
            catalog.text_with("errors.create_projectless_task", "error", error.as_str()),
        ),
    }
}

/// What the command for a new task opens.
#[derive(Clone, Copy, Debug, PartialEq, Eq, Structural)]
pub enum NewTask {
    /// A task without a project.
    Projectless,
    /// The new task begun last in the current project.
    Resume(Id),
    /// A task in this project.
    InProject(Id),
}

/// What the command for a new task opens: in the current project the new task
/// begun last, or another; without a project a task without one.
pub fn new_session_action(
    navigation: &SessionNavigation,
    sessions: &Vec<AgentSession>,
    current_project: Option<ProjectKind>,
) -> (task: NewTask)
    ensures
        task == match current_project {
            Some(project) => if project.projectless {
                NewTask::Projectless
            } else {
                match navigation@.remembered(session::sessions_view(sessions@), project.id) {
                    Some(id) => NewTask::Resume(id),
                    None => NewTask::InProject(project.id),
                }
            },
            None => NewTask::Projectless,
        },
{
    match current_project {
        Some(project) => {
            if project.projectless {
                NewTask::Projectless
            } else {
                match navigation.remembered_new_task(sessions, project.id) {
                    Some(id) => NewTask::Resume(id),
                    None => NewTask::InProject(project.id),
                }
            }
        },
        None => NewTask::Projectless,
    }
}

/// Whether the marks say of each project whether it may be the one at a path.
pub open spec fn marked_at(projects: Seq<Project>, path: Seq<char>, same: Seq<bool>) -> bool {
    &&& same.len() == projects.len()
    &&& forall|i: int|
        0 <= i < same.len() ==> paths::may_be_same(projects[i].path@, path, #[trigger] same[i])
}

/// The first project that is marked.
pub open spec fn first_marked(projects: Seq<Project>, same: Seq<bool>) -> Option<Id>
    decreases projects.len(),
{
    if projects.len() == 0 || same.len() == 0 {
        None
    } else if same[0] {
        Some(projects[0].id)
    } else {
        first_marked(projects.skip(1), same.skip(1))
    }
}

/// The first project that is marked.
pub fn first_marked_project(projects: &Vec<Project>, same: &Vec<bool>) -> (found: Option<Id>)
    ensures
        found == first_marked(projects@, same@),
{
    let mut i: usize = 0;
    assert(projects@.skip(0) =~= projects@);
    assert(same@.skip(0) =~= same@);
    while i < projects.len() && i < same.len()
        invariant
            i <= projects@.len(),
            i <= same@.len(),
            first_marked(projects@, same@) == first_marked(
                projects@.skip(i as int),
                same@.skip(i as int),
            ),
        decreases projects@.len() - i,
    {
        assert(projects@.skip(i as int)[0] == projects@[i as int]);
        assert(same@.skip(i as int)[0] == same@[i as int]);
        assert(projects@.skip(i as int).skip(1) =~= projects@.skip(i + 1));
        assert(same@.skip(i as int).skip(1) =~= same@.skip(i + 1));
        if same[i] {
            return Some(projects[i].id);
        }
        i += 1;
    }
    None
}

fn mark_projects(projects: &Vec<Project>, path: &str) -> (same: Vec<bool>)
    ensures
        marked_at(projects@, path@, same@),
{
    let mut same: Vec<bool> = Vec::new();
    let mut i: usize = 0;
    while i < projects.len()
        invariant
            i <= projects@.len(),
            same@.len() == i,
            forall|k: int|
                0 <= k < i ==> paths::may_be_same(
                    projects@[k].path@,
                    path@,
                    #[trigger] same@[k],
                ),
        decreases projects@.len() - i,
    {
        same.push(paths::same_path(projects[i].path.as_str(), path));
        i += 1;
    }
    same
}

/// The project that a chosen directory already is, if any. Otherwise it
/// becomes a new one. Paths are compared part by part.
pub fn find_project_at_path(projects: &Vec<Project>, path: &str) -> (found: Option<Id>)
    ensures
        exists|same: Seq<bool>|
            marked_at(projects@, path@, same) && found == #[trigger] first_marked(
                projects@,
                same,
            ),
{
    let same = mark_projects(projects, path);
    first_marked_project(projects, &same)
}

/// What the command to add a project does.
#[derive(Clone, Copy, Debug, PartialEq, Eq, Structural)]
pub enum PickerStep {
    /// The tasks are on another machine, whose directories cannot be chosen
    /// here: no picker opens, and the user is told.
    Refuse,
    /// A picker for one directory opens.
    Open,
}

/// What the command to add a project does: with tasks on another machine the
/// picker for local directories is not available.
pub fn project_picker(remote: bool) -> (step: PickerStep)
    ensures
        step is Refuse <==> remote,
        step is Open <==> !remote,
{
    if remote {
        PickerStep::Refuse
    } else {
        PickerStep::Open
    }
}

impl PickerStep {
    /// What the user is told where no picker opens.
    pub fn toast(&self, catalog: &Catalog) -> (toast: Option<String>)
        ensures
            text::text_view(toast) == (if self is Refuse {
                Some(i18n::plain(catalog@, "errors.remote_project_picker"@))
            } else {
                None
            }),
    {
        match self {
            PickerStep::Refuse => Some(catalog.text("errors.remote_project_picker")),
            PickerStep::Open => None,
        }
    }
}

/// What comes of a directory that was chosen for a project.
#[derive(Clone, Copy, Debug, PartialEq, Eq, Structural)]
pub enum AddedProject {
    /// The tasks are on another machine, whose directories cannot be chosen
    /// here.
    Refused,
    /// The directory is this project already, which is opened.
    Existing(Id),
    /// The directory has become this project, in which a task is begun.
    New(Id),
}

/// What comes of a directory that was chosen for a project. The marks say
/// which projects are at that directory.
pub open spec fn added_project(
    projects: Seq<Project>,
    remote: bool,
    project: Project,
    same: Seq<bool>,
) -> AddedProject {
    if remote {
        AddedProject::Refused
    } else {
        match first_marked(projects, same) {
            Some(id) => AddedProject::Existing(id),
            None => AddedProject::New(project.id),
        }
    }
}

/// The projects after a directory was chosen for one.
pub open spec fn with_project(
    projects: Seq<Project>,
    remote: bool,
    project: Project,
    same: Seq<bool>,
) -> Seq<Project> {
    if added_project(projects, remote, project, same) is New {
        projects.push(project)
    } else {
        projects
    }
}

/// Make a chosen directory a project, unless it is one already or the tasks
/// are on another machine.
pub fn add_project(projects: &mut Vec<Project>, remote: bool, project: Project) -> (added:
    AddedProject)
    ensures
        exists|same: Seq<bool>|
            marked_at(old(projects)@, project.path@, same) && added == #[trigger] added_project(
                old(projects)@,
                remote,
                project,
                same,
            ) && final(projects)@ == with_project(old(projects)@, remote, project, same),
{
    let same = mark_projects(projects, project.path.as_str());
    let ghost expected = added_project(projects@, remote, project, same@);
    if remote {
        return AddedProject::Refused;
    }
    match first_marked_project(projects, &same) {
        Some(id) => AddedProject::Existing(id),
        None => {
            let id: Id = project.id;
            projects.push(project);
            assert(expected == AddedProject::New(id));
            AddedProject::New(id)
        },
    }
}

/// Whether no directory is surely two projects.
pub open spec fn directories_distinct(projects: Seq<Project>) -> bool {
    forall|i: int, j: int|
        0 <= i < j < projects.len() ==> !paths::surely_same(
            (#[trigger] projects[i]).path@,
            (#[trigger] projects[j]).path@,
        )
}

proof fn lemma_none_marked(projects: Seq<Project>, same: Seq<bool>, i: int)
    requires
        first_marked(projects, same) is None,
        same.len() == projects.len(),
        0 <= i < same.len(),
    ensures
        !same[i],
    decreases projects.len(),
{
    if i > 0 {
        lemma_none_marked(projects.skip(1), same.skip(1), i - 1);
    }
}

/// Choosing a directory twice adds no second project for it, however it is
/// spelled, and with tasks on another machine choosing adds none at all.
pub proof fn a_directory_is_one_project(
    projects: Seq<Project>,
    remote: bool,
    project: Project,
    same: Seq<bool>,
)
    requires
        directories_distinct(projects),
        marked_at(projects, project.path@, same),
    ensures
        directories_distinct(with_project(projects, remote, project, same)),
        remote ==> with_project(projects, remote, project, same) == projects,
        (exists|i: int|
            0 <= i < projects.len() && paths::surely_same(
                (#[trigger] projects[i]).path@,
                project.path@,
            )) ==> with_project(projects, remote, project, same) == projects,
{
    if added_project(projects, remote, project, same) is New {
        assert forall|i: int| 0 <= i < projects.len() implies !paths::surely_same(
            (#[trigger] projects[i]).path@,
            project.path@,
        ) by {
            lemma_none_marked(projects, same, i);
            assert(paths::may_be_same(projects[i].path@, project.path@, same[i]));
        }
        let after = projects.push(project);
        assert forall|i: int, j: int| 0 <= i < j < after.len() implies !paths::surely_same(
            (#[trigger] after[i]).path@,
            (#[trigger] after[j]).path@,
        ) by {
            assert(after[i] == projects[i]);
            if j < projects.len() {
                assert(after[j] == projects[j]);
            }
        }
    }
}

/// Whether a task can still be moved to another workspace: not once it has
/// been started or is busy.
pub fn can_select_workspace(session: &AgentSession, same_workspace: bool) -> (allowed: bool)
    ensures
        allowed == (!session.started && !session.status.busy() && !same_workspace),
{
    !session.started && !session.status.is_busy() && !same_workspace
}

// ── Removing a task ────────────────────────────────────────────────────────

/// What is opened in place of a removed task.
#[derive(Clone, Copy, Debug, PartialEq, Eq, Structural)]
pub enum Successor {
    /// The removed task was not on screen.
    Unchanged,
    /// Another task of the same project.
    Select(Id),
    /// A task without a project.
    Projectless,
    /// A task in this project.
    InProject(Id),
}

/// What the removal of a task leads to.
#[derive(Clone, Copy, Debug, PartialEq, Eq, Structural)]
pub enum Removal {
    /// The task is being forked: the user is told to wait.
    Busy,
    /// There is no such task.
    Unknown,
    /// The task is gone; whether its directory is too, and what comes next.
    Removed { project_dropped: bool, next: Successor },
}

/// The most recently changed session of a project; of several the last.
pub open spec fn latest_in(sessions: Seq<SessionView>, project_id: Id) -> Option<int>
    decreases sessions.len(),
{
    if sessions.len() == 0 {
        None
    } else {
        let above = latest_in(sessions.drop_last(), project_id);
        if sessions.last().project_id != project_id {
            above
        } else {
            match above {
                Some(i) => if sessions.last().updated_at >= sessions[i].updated_at {
                    Some(sessions.len() - 1)
                } else {
                    above
                },
                None => Some(sessions.len() - 1),
            }
        }
    }
}

/// Whether a session belongs to a project.
pub open spec fn uses_project(sessions: Seq<SessionView>, project_id: Id) -> bool {
    exists|i: int| 0 <= i < sessions.len() && (#[trigger] sessions[i]).project_id == project_id
}

/// Whether a project only holds loose tasks.
pub open spec fn is_loose(projects: Seq<ProjectKind>, project_id: Id) -> bool
    decreases projects.len(),
{
    if projects.len() == 0 {
        false
    } else if projects[0].id == project_id {
        projects[0].projectless
    } else {
        is_loose(projects.skip(1), project_id)
    }
}

/// The projects without those under an identity.
pub open spec fn other_projects(projects: Seq<ProjectKind>, project_id: Id) -> Seq<ProjectKind>
    decreases projects.len(),
{
    if projects.len() == 0 {
        projects
    } else if projects.last().id == project_id {
        other_projects(projects.drop_last(), project_id)
    } else {
        other_projects(projects.drop_last(), project_id).push(projects.last())
    }
}

/// What the removal of a task leaves.
#[verifier::ext_equal]
pub struct RemovalOutcome {
    pub sessions: Seq<SessionView>,
    pub projects: Seq<ProjectKind>,
    pub selection: SelectionView,
    pub removal: Removal,
}

/// What the removal of the session at a place leaves.
pub open spec fn removal_at(
    sessions: Seq<SessionView>,
    projects: Seq<ProjectKind>,
    selection: SelectionView,
    at: int,
) -> RemovalOutcome {
    let session_id = sessions[at].id;
    let project_id = sessions[at].project_id;
    let rest = sessions.remove(at);
    let loose = is_loose(projects, project_id);
    let dropped = loose && !uses_project(rest, project_id);
    let was_selected = selection.selected_session == Some(session_id);
    RemovalOutcome {
        sessions: rest,
        projects: if dropped {
            other_projects(projects, project_id)
        } else {
            projects
        },
        selection: SelectionView {
            selected_session: if was_selected {
                None
            } else {
                selection.selected_session
            },
            selected_project: if dropped && selection.selected_project == Some(project_id) {
                None
            } else {
                selection.selected_project
            },
            pending: if selection.awaits(session_id) {
                None
            } else {
                selection.pending
            },
            navigation: selection.navigation.pruned(session_id),
            ..selection
        },
        removal: Removal::Removed {
            project_dropped: dropped,
            next: if !was_selected {
                Successor::Unchanged
            } else {
                match latest_in(rest, project_id) {
                    Some(i) => Successor::Select(rest[i].id),
                    None => if loose {
                        Successor::Projectless
                    } else {
                        Successor::InProject(project_id)
                    },
                }
            },
        },
    }
}

fn find_latest(sessions: &Vec<AgentSession>, project_id: Id) -> (latest: Option<usize>)
    ensures
        match latest {
            Some(i) => i < sessions@.len() && latest_in(
                session::sessions_view(sessions@),
                project_id,
            ) == Some(i as int),
            None => latest_in(session::sessions_view(sessions@), project_id) is None,
        },
{
    let ghost views = session::sessions_view(sessions@);
    let mut latest: Option<usize> = None;
    let mut i: usize = 0;
    assert(views.take(0) =~= Seq::<SessionView>::empty());
    while i < sessions.len()
        invariant
            i <= sessions@.len(),
            views == session::sessions_view(sessions@),
            match latest {
                Some(k) => k < i && latest_in(views.take(i as int), project_id) == Some(k as int),
                None => latest_in(views.take(i as int), project_id) is None,
            },
        decreases sessions@.len() - i,
    {
        let ghost here = views.take(i + 1);
        assert(here.drop_last() =~= views.take(i as int));
        assert(here.last() == sessions@[i as int]@);
        if sessions[i].project_id == project_id {
            let newer = match latest {
                Some(k) => {
                    assert(here[k as int] == sessions@[k as int]@);
                    sessions[i].updated_at >= sessions[k].updated_at
                },
                None => true,
            };
            if newer {
                latest = Some(i);
            }
        }
        i += 1;
    }
    assert(views.take(i as int) =~= views);
    latest
}

fn project_is_used(sessions: &Vec<AgentSession>, project_id: Id) -> (used: bool)
    ensures
        used == uses_project(session::sessions_view(sessions@), project_id),
{
    let ghost views = session::sessions_view(sessions@);
    let mut i: usize = 0;
    while i < sessions.len()
        invariant
            i <= sessions@.len(),
            views == session::sessions_view(sessions@),
            forall|k: int| 0 <= k < i ==> (#[trigger] views[k]).project_id != project_id,
        decreases sessions@.len() - i,
    {
        assert(views[i as int] == sessions@[i as int]@);
        if sessions[i].project_id == project_id {
            return true;
        }
        i += 1;
    }
    false
}

fn project_is_loose(projects: &Vec<ProjectKind>, project_id: Id) -> (loose: bool)
    ensures
        loose == is_loose(projects@, project_id),
{
    let mut i: usize = 0;
    assert(projects@.skip(0) =~= projects@);
    while i < projects.len()
        invariant
            i <= projects@.len(),
            is_loose(projects@, project_id) == is_loose(projects@.skip(i as int), project_id),
        decreases projects@.len() - i,
    {
        assert(projects@.skip(i as int)[0] == projects@[i as int]);
        assert(projects@.skip(i as int).skip(1) =~= projects@.skip(i + 1));
        if projects[i].id == project_id {
            return projects[i].projectless;
        }
        i += 1;
    }
    false
}

fn drop_project(projects: &mut Vec<ProjectKind>, project_id: Id)
    ensures
        final(projects)@ == other_projects(old(projects)@, project_id),
{
    let ghost before = projects@;
    let mut kept: Vec<ProjectKind> = Vec::new();
    let mut i: usize = 0;
    assert(before.take(0) =~= Seq::<ProjectKind>::empty());
    while i < projects.len()
        invariant
            i <= projects@.len(),
            projects@ == before,
            kept@ == other_projects(before.take(i as int), project_id),
        decreases projects@.len() - i,
    {
        assert(before.take(i + 1).drop_last() =~= before.take(i as int));
        assert(before.take(i + 1).last() == before[i as int]);
        let project = projects[i];
        if project.id != project_id {
            kept.push(project);
        }
        i += 1;
    }
    assert(before.take(i as int) =~= before);
    *projects = kept;
}

/// Remove a task. A directory made for a task without a project goes with its
/// last task. Where the task was on screen, the most recently changed one of
/// its project comes next, or else a new one.
pub fn remove_session(
    sessions: &mut Vec<AgentSession>,
    projects: &mut Vec<ProjectKind>,
    selection: &mut TaskSelection,
    session_id: Id,
    forking: bool,
) -> (removal: Removal)
    ensures
        ({
            let before = session::sessions_view(old(sessions)@);
            let unchanged = RemovalOutcome {
                sessions: before,
                projects: old(projects)@,
                selection: old(selection)@,
                removal: if forking {
                    Removal::Busy
                } else {
                    Removal::Unknown
                },
            };
            let outcome = match streaming::session_index(before, session_id) {
                Some(at) => if forking {
                    unchanged
                } else {
                    removal_at(before, old(projects)@, old(selection)@, at)
                },
                None => unchanged,
            };
            &&& session::sessions_view(final(sessions)@) == outcome.sessions
            &&& final(projects)@ == outcome.projects
            &&& final(selection)@ == outcome.selection
            &&& removal == outcome.removal
        }),
{
    let ghost before = session::sessions_view(sessions@);
    if forking {
        return Removal::Busy;
    }
    let at: usize = match streaming::find_session(sessions, session_id) {
        Some(at) => at,
        None => {
            return Removal::Unknown;
        },
    };
    assert(before[at as int] == sessions@[at as int]@);
    let project_id = sessions[at].project_id;
    let loose = project_is_loose(projects, project_id);
    let was_selected = selection.selected_session == Some(session_id);
    sessions.remove(at);
    assert(session::sessions_view(sessions@) =~= before.remove(at as int));
    if let Some(pending) = selection.pending {
        if pending.session_id == session_id {
            selection.pending = None;
        }
    }
    selection.navigation.remove(session_id);
    let dropped = loose && !project_is_used(sessions, project_id);
    if dropped {
        drop_project(projects, project_id);
        if selection.selected_project == Some(project_id) {
            selection.selected_project = None;
        }
    }
    let next = if was_selected {
        selection.selected_session = None;
        match find_latest(sessions, project_id) {
            Some(i) => {
                assert(session::sessions_view(sessions@)[i as int] == sessions@[i as int]@);
                Successor::Select(sessions[i].id)
            },
            None => if loose {
                Successor::Projectless
            } else {
                Successor::InProject(project_id)
            },
        }
    } else {
        Successor::Unchanged
    };
    Removal::Removed { project_dropped: dropped, next }
}

proof fn lemma_latest(sessions: Seq<SessionView>, project_id: Id)
    ensures
        match latest_in(sessions, project_id) {
            Some(i) => 0 <= i < sessions.len() && sessions[i].project_id == project_id && forall|
                k: int,
            |
                0 <= k < sessions.len() && (#[trigger] sessions[k]).project_id == project_id
                    ==> sessions[k].updated_at <= sessions[i].updated_at,
            None => !uses_project(sessions, project_id),
        },
    decreases sessions.len(),
{
    if sessions.len() > 0 {
        let shorter = sessions.drop_last();
        lemma_latest(shorter, project_id);
        assert forall|k: int| 0 <= k < shorter.len() implies #[trigger] sessions[k]
            == shorter[k] by {}
    }
}

/// A removed task leaves no trace: it is neither listed nor selected nor
/// waited for, and what comes next is a session that remains, the most
/// recently changed of its project.
pub proof fn a_removed_task_leaves_no_trace(
    sessions: Seq<SessionView>,
    projects: Seq<ProjectKind>,
    selection: SelectionView,
    at: int,
)
    requires
        0 <= at < sessions.len(),
        forall|i: int, j: int|
            0 <= i < j < sessions.len() ==> (#[trigger] sessions[i]).id != (
            #[trigger] sessions[j]).id,
    ensures
        ({
            let outcome = removal_at(sessions, projects, selection, at);
            let gone = sessions[at].id;
            &&& forall|i: int|
                0 <= i < outcome.sessions.len() ==> (#[trigger] outcome.sessions[i]).id != gone
            &&& outcome.selection.selected_session != Some(gone)
            &&& !outcome.selection.awaits(gone)
            &&& !outcome.selection.navigation.back.contains(gone)
            &&& !outcome.selection.navigation.forward.contains(gone)
            &&& outcome.removal matches Removal::Removed { project_dropped, next }
                && (next matches Successor::Select(id) ==> exists|i: int|
                {
                    &&& 0 <= i < outcome.sessions.len()
                    &&& (#[trigger] outcome.sessions[i]).id == id
                    &&& outcome.sessions[i].project_id == sessions[at].project_id
                    &&& forall|k: int|
                        0 <= k < outcome.sessions.len() && (
                        #[trigger] outcome.sessions[k]).project_id == sessions[at].project_id
                            ==> outcome.sessions[k].updated_at <= outcome.sessions[i].updated_at
                })
        }),
{
    let rest = sessions.remove(at);
    lemma_latest(rest, sessions[at].project_id);
    lemma_without(selection.navigation.back, sessions[at].id);
    lemma_without(selection.navigation.forward, sessions[at].id);
    assert forall|i: int| 0 <= i < rest.len() implies (#[trigger] rest[i]).id
        != sessions[at].id by {
        if i < at {
            assert(rest[i] == sessions[i]);
        } else {
            assert(rest[i] == sessions[i + 1]);
        }
    }
}

} // verus!
