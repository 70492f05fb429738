//! What the library's functions come to, said of every call: what it was given,
//! what it gave back, and what it left of what it could change.
use crate::analytics::{Analytics, Event, Taken};
use crate::controls;
use crate::controls::{
    AppGrant, ComputerReply, EscapeRoute, EscapeStopConfirmation, EscapeStopPress,
    EscapeStopTarget, FavoriteModel, ModeChange, NavigationStep, RuntimeFate, StopPlan,
};
use crate::event_laws;
use crate::events;
use crate::events::{DriverEvent, EffectView, EventContext, EventResult, SessionRuntime};
use crate::i18n::Catalog;
use crate::layout;
use crate::layout::{Length, ListOffset, ListSync, RowRange};
use crate::memory;
use crate::memory::{ForgetStep, MemoryState, RememberStep};
use crate::messages::CopiedMessages;
use crate::model::{
    ActivityItem, Id, MessageRole, ProviderKind, RuntimeMode, SessionStatus, TurnStatus,
};
use crate::session;
use crate::session::AgentSession;
use crate::settings;
use crate::settings::{DaemonExposure, ExposureStep};
use crate::streaming;
use crate::streaming::StreamPhase;
use crate::streaming_laws;
use crate::swap;
use crate::swap::{Observation, OutcomeView, Poll, PollView};
use crate::task_laws;
use crate::tasks;
use crate::tasks::{
    Activated, NewTask, ProjectKind, RememberedSettings, Removal, SessionActivationTransition,
    SessionNavigation, Successor, TaskSelection,
};
use crate::text;
use std::collections::HashSet;
use vstd::prelude::*;

verus! {

// ── Turns ──────────────────────────────────────────────────────────────────

/// After the end of a turn the next queued message starts exactly where a turn
/// ran, went well and queued messages may start.
pub proof fn a_good_turn_starts_the_next_message(
    ctx: &EventContext,
    catalog: &Catalog,
    expanded: &HashSet<Id>,
    session: &mut AgentSession,
    runtime: &mut SessionRuntime,
    success: bool,
    summary: Option<String>,
    result: EventResult,
)
    requires
        call_ensures(
            events::handle_session_event,
            (
                ctx,
                catalog,
                expanded,
                session,
                runtime,
                DriverEvent::TurnFinished { success, summary },
            ),
            result,
        ),
    ensures
        (exists|i: int| 0 <= i < result.effects@.len() && #[trigger] result.effects@[i] is DrainQueue)
            <==> {
            &&& old(session).turns@.len() > 0
            &&& old(session).turns@.last().status == TurnStatus::Running
            &&& ctx.allow_queue_drain
            &&& success
        },
{
    event_laws::a_good_ending_starts_the_next_message(
        *ctx,
        catalog@,
        expanded@,
        old(session)@,
        old(runtime)@,
        success,
        summary,
    );
    let views = events::effects_view(result.effects@);
    if views.contains(EffectView::DrainQueue) {
        let i = choose|i: int| 0 <= i < views.len() && views[i] == EffectView::DrainQueue;
        assert(result.effects@[i]@ == EffectView::DrainQueue);
        assert(result.effects@[i] is DrainQueue);
    }
    if exists|i: int| 0 <= i < result.effects@.len() && #[trigger] result.effects@[i] is DrainQueue {
        let i = choose|i: int|
            0 <= i < result.effects@.len() && #[trigger] result.effects@[i] is DrainQueue;
        assert(views[i] == EffectView::DrainQueue);
    }
}

/// A message that the provider took into the running turn is the last of the
/// transcript, the user's and of that turn, with what was kept of it while it
/// waited; every earlier message stays.
pub proof fn an_accepted_message_is_shown(
    ctx: &EventContext,
    catalog: &Catalog,
    expanded: &HashSet<Id>,
    session: &mut AgentSession,
    runtime: &mut SessionRuntime,
    message: String,
    at: int,
    result: EventResult,
)
    requires
        call_ensures(
            events::handle_session_event,
            (ctx, catalog, expanded, session, runtime, DriverEvent::SteerAccepted { message }),
            result,
        ),
        old(runtime).pending_steers@.len() > 0 ==> event_laws::acknowledges(
            old(runtime)@.pending_steers,
            message@,
            at,
        ),
    ensures
        ({
            let before = old(session)@.messages;
            let after = final(session)@.messages;
            let count = before.len() as int;
            let runs = old(session).turns@.len() > 0 && old(session).turns@.last().status
                == TurnStatus::Running;
            &&& after.len() == count + 1
            &&& after.take(count) == before
            &&& after[count].role == MessageRole::User
            &&& after[count].content == message@
            &&& after[count].turn_id == if runs {
                Some(old(session).turns@.last().id)
            } else {
                None
            }
            &&& old(runtime).pending_steers@.len() > 0 ==> {
                let kept = old(runtime).pending_steers@[at];
                &&& after[count].display_content == text::text_view(kept.display_content)
                &&& after[count].attachments == crate::model::attachments_view(kept.attachments@)
                &&& final(runtime)@.pending_steers == old(runtime)@.pending_steers.remove(at)
            }
        }),
{
    event_laws::an_accepted_steer_joins_the_turn(
        *ctx,
        catalog@,
        expanded@,
        old(session)@,
        old(runtime)@,
        message,
        at,
    );
}

/// A report about a step that the provider named before is taken up by that
/// step in the transcript: what it brings replaces what was known, and what it
/// leaves out stays.
pub proof fn a_report_updates_its_step(
    session: &mut AgentSession,
    phase: Option<StreamPhase>,
    report: ActivityItem,
    now: u64,
    stale: Option<Id>,
    b: int,
    a: int,
)
    requires
        call_ensures(streaming::update_activity, (session, phase, report, now), stale),
        streaming_laws::stands(old(session)@.blocks, b, a),
        report.source_id is Some,
        old(session)@.blocks[b].activities[a].source_id == report@.source_id,
        forall|x: int, y: int|
            streaming_laws::stands(old(session)@.blocks, x, y) && streaming_laws::behind(b, a, x, y)
                ==> (#[trigger] old(session)@.blocks[x].activities[y]).source_id
                != report@.source_id,
    ensures
        ({
            let before = old(session)@.blocks[b].activities[a];
            let after = final(session)@.blocks[b].activities[a];
            &&& after.id == before.id
            &&& report.output is Some ==> after.output == Some(report.output->0@)
            &&& report.output is None ==> after.output == before.output
            &&& report.detail is Some ==> after.detail == Some(report.detail->0@)
            &&& report.detail is None ==> after.detail == before.detail
            &&& report.arguments is Some ==> after.arguments == Some(report.arguments->0@)
            &&& report.arguments is None ==> after.arguments == before.arguments
            &&& report.reasoning is Some ==> after.reasoning == Some(report.reasoning->0@)
            &&& report.reasoning is None ==> after.reasoning == before.reasoning
            &&& report.image_urls@.len() > 0 ==> after.image_urls == text::texts_view(
                report.image_urls@,
            )
            &&& report.image_urls@.len() == 0 ==> after.image_urls == before.image_urls
            &&& report.file_changes@.len() > 0 ==> after.file_changes == crate::model::changes_view(
                report.file_changes@,
            )
            &&& report.file_changes@.len() == 0 ==> after.file_changes == before.file_changes
            &&& after.complete == report.complete && after.failed == report.failed
            &&& stale == if report.file_changes@.len() > 0 {
                Some(before.id)
            } else {
                None
            }
        }),
{
    let before = *old(session);
    assert(before@.blocks.len() == before.transcript_blocks@.len());
    assert forall|x: int| 0 <= x < before@.blocks.len() implies (
    #[trigger] before@.blocks[x]).activities.len() <= usize::MAX by {
        assert(before@.blocks[x] == before.transcript_blocks@[x]@);
        assert(before.transcript_blocks@[x].activities@.len() <= usize::MAX) by {
            lemma_vec_fits(before.transcript_blocks@[x].activities);
        }
    }
    lemma_vec_fits(before.transcript_blocks);
    streaming_laws::a_named_step_takes_up_its_report(before@, phase, report@, now, b, a);
}

proof fn lemma_vec_fits<T>(items: Vec<T>)
    ensures
        items@.len() <= usize::MAX,
{
    broadcast use vstd::std_specs::vec::axiom_spec_len;

    assert(items@.len() == items.len());
}

/// A turn that the user begins runs with their prompt as the last message.
pub proof fn a_begun_turn_holds_its_prompt(
    session: &mut AgentSession,
    prompt: String,
    message_id: Id,
    turn_id: Id,
    now: u64,
)
    requires
        call_ensures(AgentSession::begin_turn, (session, prompt, message_id, turn_id, now), ()),
    ensures
        ({
            let before = old(session)@;
            let after = final(session)@;
            let turn = after.turns.last();
            let message = after.messages.last();
            &&& after.turns.len() == before.turns.len() + 1
            &&& after.turns.drop_last() == before.turns
            &&& turn.id == turn_id && turn.status == TurnStatus::Running
            &&& turn.started_at == now && turn.completed_at is None && !turn.provider_started
            &&& after.messages.len() == before.messages.len() + 1
            &&& after.messages.drop_last() == before.messages
            &&& message.id == message_id && message.role == MessageRole::User
            &&& message.content == prompt@ && message.turn_id == Some(turn_id)
            &&& after.started
            &&& after.queued_messages == before.queued_messages
        }),
{
    assert(final(session)@.turns.drop_last() =~= old(session)@.turns);
    assert(final(session)@.messages.drop_last() =~= old(session)@.messages);
}

// ── Stopping ───────────────────────────────────────────────────────────────

/// A second press for the same turn within three seconds stops it, and a press
/// for another turn does not; after a stop none waits.
pub proof fn two_presses_stop_a_turn(
    first: &mut EscapeStopConfirmation,
    target: EscapeStopTarget,
    now: u64,
    answer: EscapeStopPress,
    second: &mut EscapeStopConfirmation,
    other: EscapeStopTarget,
    later: u64,
    next: EscapeStopPress,
)
    requires
        call_ensures(EscapeStopConfirmation::press, (first, target, now), answer),
        call_ensures(EscapeStopConfirmation::press, (second, other, later), next),
        *old(second) == *final(first),
        now <= later < u64::MAX,
    ensures
        answer == EscapeStopPress::Stop ==> old(first).armed is Some && final(first).armed is None,
        answer is Arm ==> (next == EscapeStopPress::Stop <==> other == target && later - now
            < 3000),
        next == EscapeStopPress::Stop ==> final(second).armed is None,
        next is Arm ==> final(second).armed is Some && final(second).armed->0.target == other,
{
}

/// Escape goes to what lies in front: the switcher, the settings, an edited
/// message, and only then to the turn, which is confirmed where there is one.
pub proof fn escape_goes_to_the_front(
    switcher_open: bool,
    settings_open: bool,
    editing: bool,
    target: Option<EscapeStopTarget>,
    route: EscapeRoute,
)
    requires
        call_ensures(
            controls::cancel_turn_action,
            (switcher_open, settings_open, editing, target),
            route,
        ),
    ensures
        route == EscapeRoute::CancelSwitcher <==> switcher_open,
        route == EscapeRoute::CloseSettings <==> settings_open && !switcher_open,
        route == EscapeRoute::CancelMessageEdit <==> editing && !settings_open && !switcher_open,
        route is Confirm <==> target is Some && !editing && !settings_open && !switcher_open,
        route is Confirm ==> target == Some(route->Confirm_0),
{
}

/// A prompt that is being prepared is not stopped. Otherwise the runtime stays
/// where detached work goes on or its provider survives an interruption, and
/// as long as its process runs.
pub proof fn a_stop_keeps_what_goes_on(
    session: Option<&AgentSession>,
    preparing: bool,
    detached: bool,
    plan: StopPlan,
    retain: bool,
    running: bool,
    fate: RuntimeFate,
)
    requires
        call_ensures(controls::plan_stop, (session, preparing, detached), plan),
        call_ensures(controls::runtime_fate, (retain, running), fate),
    ensures
        plan == StopPlan::Ignored <==> preparing,
        !preparing && detached ==> plan == (StopPlan::Stop { retain_runtime: true }),
        !preparing && !detached && session is Some ==> plan == (StopPlan::Stop {
            retain_runtime: session->0.provider != ProviderKind::Codex && session->0.provider
                != ProviderKind::Amp,
        }),
        !preparing && !detached && session is None ==> plan == (StopPlan::Stop {
            retain_runtime: false,
        }),
        fate == RuntimeFate::Keep <==> retain && running,
{
}

// ── Tasks ──────────────────────────────────────────────────────────────────

/// Removing a task opens another only where it was on screen: one that remains
/// in its project where there is one, and otherwise a new one, without a
/// project if it had none.
pub proof fn removing_a_task_opens_what_remains(
    sessions: &mut Vec<AgentSession>,
    projects: &mut Vec<ProjectKind>,
    selection: &mut TaskSelection,
    at: int,
    removal: Removal,
)
    requires
        0 <= at < old(sessions)@.len(),
        forall|k: int|
            0 <= k < at ==> (#[trigger] old(sessions)@[k]).id != old(sessions)@[at].id,
        call_ensures(
            tasks::remove_session,
            (sessions, projects, selection, old(sessions)@[at].id, false),
            removal,
        ),
    ensures
        ({
            let gone = old(sessions)@[at];
            let on_screen = old(selection).selected_session == Some(gone.id);
            let rest = session::sessions_view(final(sessions)@);
            let remains = task_laws::one_remains(rest, gone.project_id);
            let loose = task_laws::first_is_loose(old(projects)@, gone.project_id);
            &&& rest == session::sessions_view(old(sessions)@).remove(at)
            &&& removal matches Removal::Removed { project_dropped, next } && {
                &&& next == Successor::Unchanged <==> !on_screen
                &&& next is Select <==> on_screen && remains
                &&& next is Select ==> exists|i: int|
                    {
                        &&& #[trigger] task_laws::changed_last(rest, i)
                        &&& rest[i].project_id == gone.project_id
                        &&& rest[i].id == next->Select_0
                    }
                &&& next == Successor::Projectless <==> on_screen && !remains && loose
                &&& next is InProject <==> on_screen && !remains && !loose
                &&& next is InProject ==> next->InProject_0 == gone.project_id
                &&& project_dropped <==> loose && !remains
            }
            &&& final(selection).selected_session == if on_screen {
                None
            } else {
                old(selection).selected_session
            }
        }),
{
    let views = session::sessions_view(old(sessions)@);
    assert(views[at] == old(sessions)@[at]@);
    assert forall|k: int| 0 <= k < at implies (#[trigger] views[k]).id != views[at].id by {
        assert(old(sessions)@[k].id != old(sessions)@[at].id);
    }
    streaming_laws::a_session_is_found_by_its_identity(views, views[at].id);
    task_laws::a_removal_opens_what_remains(views, old(projects)@, old(selection)@, at);
    task_laws::a_removal_forgets_one_task(views, old(projects)@, old(selection)@, at);
    assert(views.take(at) + views.skip(at + 1) =~= views.remove(at));
}

/// Going back from a task takes the task gone to off the end of the way back,
/// and the one left becomes what going forward leads to; going forward from
/// there leaves both ways as they were.
pub proof fn going_forward_restores_the_ways(
    selection: &mut TaskSelection,
    from: Id,
    to: Id,
    there: &mut TaskSelection,
    reopened: bool,
)
    requires
        call_ensures(
            TaskSelection::finish_session_activation,
            (selection, to, SessionActivationTransition::Back { from }),
            true,
        ),
        old(there)@ == (tasks::SelectionView {
            selected_session: Some(to),
            ..final(selection)@
        }),
        call_ensures(
            TaskSelection::finish_session_activation,
            (there, from, SessionActivationTransition::Forward { from: to }),
            reopened,
        ),
    ensures
        old(selection).selected_session == Some(from),
        old(selection).navigation.back@ == final(selection).navigation.back@.push(to),
        final(selection).navigation.forward@ == old(selection).navigation.forward@.push(from),
        reopened,
        final(there).navigation.back@ == old(selection).navigation.back@,
        final(there).navigation.forward@ == old(selection).navigation.forward@,
        final(there).navigation.new_task == old(selection).navigation.new_task,
{
    task_laws::going_back_can_be_undone(old(selection)@, from, to);
}

/// A task that is put on screen is selected with its project, and a new task
/// starts with what it uses. An unstarted one is the new task begun last.
pub proof fn a_task_on_screen_is_selected(
    selection: &mut TaskSelection,
    remembered: &mut RememberedSettings,
    sessions: &Vec<AgentSession>,
    at: int,
    activated: Activated,
)
    requires
        0 <= at < sessions@.len(),
        forall|k: int| 0 <= k < at ==> (#[trigger] sessions@[k]).id != sessions@[at].id,
        call_ensures(
            tasks::activate_session,
            (selection, remembered, sessions, sessions@[at].id),
            activated,
        ),
    ensures
        ({
            let task = sessions@[at];
            &&& final(selection).selected_session == Some(task.id)
            &&& final(selection).selected_project == Some(task.project_id)
            &&& activated.session_changed == (old(selection).selected_session != Some(task.id))
            &&& activated.attach_runtime == task.started
            &&& final(selection).navigation.back@ == old(selection).navigation.back@
            &&& final(selection).navigation.forward@ == old(selection).navigation.forward@
            &&& final(selection).navigation.new_task == if task.started {
                old(selection).navigation.new_task
            } else {
                Some(task.id)
            }
            &&& final(remembered).provider == task.provider
            &&& final(remembered).runtime_mode == task.runtime_mode
            &&& final(remembered)@.model == text::text_view(task.model)
            &&& final(remembered)@.reasoning_effort == text::text_view(task.reasoning_effort)
            &&& final(remembered)@.service_tier == text::text_view(task.service_tier)
            &&& final(remembered)@.context_window == text::text_view(task.context_window)
        }),
{
    let views = session::sessions_view(sessions@);
    assert(views[at] == sessions@[at]@);
    assert forall|k: int| 0 <= k < at implies (#[trigger] views[k]).id != views[at].id by {
        assert(sessions@[k].id != sessions@[at].id);
    }
    streaming_laws::a_session_is_found_by_its_identity(views, views[at].id);
    let after = final(selection)@;
    assert(after.navigation.back == final(selection).navigation.back@);
    assert(after.navigation.forward == final(selection).navigation.forward@);
    assert(final(remembered)@.provider == final(remembered).provider);
    assert(final(remembered)@.runtime_mode == final(remembered).runtime_mode);
}

/// The command for a new task opens one without a project where none is
/// current or the current one holds such tasks; otherwise the new task begun
/// last there, or another in that project.
pub proof fn a_new_task_stays_in_its_project(
    navigation: &SessionNavigation,
    sessions: &Vec<AgentSession>,
    project: Option<ProjectKind>,
    task: NewTask,
)
    requires
        call_ensures(tasks::new_session_action, (navigation, sessions, project), task),
    ensures
        task == NewTask::Projectless <==> project is None || project->0.projectless,
        task is InProject ==> task->InProject_0 == project->0.id,
        task is Resume ==> navigation.new_task == Some(task->Resume_0) && exists|i: int|
            0 <= i < sessions@.len() && (#[trigger] sessions@[i]).id == task->Resume_0
                && sessions@[i].project_id == project->0.id && !sessions@[i].started,
        task is InProject ==> forall|i: int|
            0 <= i < sessions@.len() && navigation.new_task == Some((#[trigger] sessions@[i]).id)
                && sessions@[i].project_id == project->0.id ==> sessions@[i].started,
{
    let views = session::sessions_view(sessions@);
    assert forall|i: int| 0 <= i < sessions@.len() implies #[trigger] sessions@[i]@
        == views[i] by {}
    if task is Resume {
        let id = task->Resume_0;
        let i = choose|i: int|
            #![trigger views[i]]
            {
                &&& 0 <= i < views.len()
                &&& views[i].id == id
                &&& views[i].project_id == project->0.id
                &&& !views[i].started
            };
        assert(sessions@[i]@ == views[i]);
        assert(sessions@[i].id == id);
    }
    if task is InProject {
        assert forall|i: int| 0 <= i < sessions@.len() && navigation.new_task == Some(
            (#[trigger] sessions@[i]).id,
        ) && sessions@[i].project_id == project->0.id implies sessions@[i].started by {
            assert(views[i] == sessions@[i]@);
        }
    }
}

/// Going back or forward by the keyboard asks for what the way leads to from
/// the task on screen; with the settings open going back closes them.
pub proof fn the_keyboard_takes_the_ways(
    settings_open: bool,
    selected: Option<Id>,
    navigation: &SessionNavigation,
    back: NavigationStep,
    forward: NavigationStep,
)
    requires
        call_ensures(controls::navigate_back_action, (settings_open, selected, navigation), back),
        call_ensures(
            controls::navigate_forward_action,
            (settings_open, selected, navigation),
            forward,
        ),
    ensures
        back == NavigationStep::CloseSettings <==> settings_open,
        forward != NavigationStep::CloseSettings,
        back is Request <==> !settings_open && selected is Some && navigation.back@.len() > 0,
        back is Request ==> back == (NavigationStep::Request {
            target: navigation.back@.last(),
            from: selected->0,
        }),
        forward is Request <==> !settings_open && selected is Some && navigation.forward@.len() > 0,
        forward is Request ==> forward == (NavigationStep::Request {
            target: navigation.forward@.last(),
            from: selected->0,
        }),
{
}

// ── Models and modes ───────────────────────────────────────────────────────

/// The arrows of a picker undo each other, and stay within its rows.
pub proof fn picker_arrows_undo_each_other(
    current: usize,
    count: usize,
    down: &str,
    up: &str,
    below: Option<usize>,
    back: Option<usize>,
)
    requires
        current < count,
        down@ == "down"@,
        up@ == "up"@,
        call_ensures(controls::next_picker_highlight, (Some(current), count, down), below),
        below is Some ==> call_ensures(controls::next_picker_highlight, (below, count, up), back),
    ensures
        below is Some && below->0 < count,
        below->0 == if current + 1 < count {
            current + 1
        } else {
            0
        },
        back == Some(current),
{
    reveal_strlit("down");
    reveal_strlit("up");
    assert("down"@.len() != "up"@.len());
    assert(current % count == current) by (nonlinear_arith)
        requires
            current < count,
    ;
    let row = below->0;
    assert(row % count == row) by (nonlinear_arith)
        requires
            row < count,
    ;
}

/// A model joins the favorites behind the others; one that is among them leaves
/// them, and no other does.
pub proof fn a_favorite_is_toggled(
    favorites: &mut Vec<FavoriteModel>,
    provider: ProviderKind,
    model: String,
    at: int,
)
    requires
        call_ensures(controls::toggle_favorite_model, (favorites, provider, model), ()),
        0 <= at <= old(favorites)@.len(),
        at < old(favorites)@.len() ==> old(favorites)@[at].provider == provider
            && old(favorites)@[at].model@ == model@,
        forall|k: int|
            0 <= k < at ==> (#[trigger] old(favorites)@[k]).provider != provider
                || old(favorites)@[k].model@ != model@,
    ensures
        at < old(favorites)@.len() ==> final(favorites)@ == old(favorites)@.remove(at),
        at == old(favorites)@.len() ==> final(favorites)@ == old(favorites)@.push(
            FavoriteModel { provider, model },
        ),
{
    crate::control_laws::a_favorite_is_found(old(favorites)@, provider, model@);
    let found = controls::favorite_at(old(favorites)@, provider, model@);
    if found >= 0 && at < old(favorites)@.len() {
        assert(old(favorites)@[found].provider == provider);
        assert(old(favorites)@[at].provider == provider);
    } else if found >= 0 {
        assert(old(favorites)@[found].provider == provider);
    } else if at < old(favorites)@.len() {
        assert(old(favorites)@[at].provider == provider);
    }
}

/// How a session may touch the workspace is what was chosen last, for it and
/// for new tasks; the provider is told of a change.
pub proof fn a_mode_is_what_was_chosen(
    session: &mut AgentSession,
    remembered: &mut RememberedSettings,
    mode: RuntimeMode,
    change: ModeChange,
)
    requires
        call_ensures(controls::set_runtime_mode, (session, remembered, mode), change),
    ensures
        final(session).runtime_mode == mode,
        final(remembered).runtime_mode == mode,
        change.apply <==> old(session).runtime_mode != mode,
        change.save <==> old(session).runtime_mode != mode || old(remembered).runtime_mode != mode,
        final(session)@.model == old(session)@.model,
        final(session).status == old(session).status,
        final(remembered)@.model == old(remembered)@.model,
{
    assert(final(session)@.runtime_mode == final(session).runtime_mode);
    assert(final(remembered)@.runtime_mode == final(remembered).runtime_mode);
    assert(final(session)@.status == final(session).status);
}

// ── What the agent asks ────────────────────────────────────────────────────

/// An answered permission is asked for no longer, and the agent goes on.
pub proof fn an_answered_permission_is_over(
    session: &mut AgentSession,
    runtime: &mut SessionRuntime,
)
    requires
        call_ensures(controls::respond_permission, (session, runtime), ()),
    ensures
        final(session).status == SessionStatus::Working,
        final(runtime).pending_permission is None,
        final(session)@.messages == old(session)@.messages,
        final(session)@.turns == old(session)@.turns,
        final(runtime)@.pending_user_input == old(runtime)@.pending_user_input,
        final(runtime)@.pending_computer_approval == old(runtime)@.pending_computer_approval,
{
    assert(final(session)@.status == final(session).status);
    assert(final(runtime)@.pending_permission == final(runtime).pending_permission);
}

/// A request to control another application is answered once: denied it is
/// rejected and nothing is kept; otherwise it runs, and consent is kept for
/// good exactly where the user said always, where it can outlive the session
/// and where it is not kept yet.
pub proof fn a_request_for_control_is_answered(
    session: &mut AgentSession,
    runtime: &mut SessionRuntime,
    grants: &mut Vec<AppGrant>,
    decision: &str,
    reply: ComputerReply,
)
    requires
        call_ensures(
            controls::respond_computer_permission,
            (session, runtime, grants, decision),
            reply,
        ),
    ensures
        ({
            let asked = old(runtime).pending_computer_approval;
            let denied = decision@ == "deny"@;
            let known = exists|i: int|
                0 <= i < old(grants)@.len() && (#[trigger] old(grants)@[i]).key@
                    == asked->0.target.grant_key@;
            let keeps = asked is Some && decision@ == "always"@ && asked->0.target.persistable
                && !known;
            &&& reply is Nothing <==> asked is None
            &&& asked is None ==> final(grants)@ == old(grants)@ && final(session)@
                == old(session)@
            &&& asked is Some ==> final(runtime).pending_computer_approval is None
                && final(session).status == SessionStatus::Working
            &&& reply is Reject <==> asked is Some && denied
            &&& reply is Run <==> asked is Some && !denied
            &&& reply is Run ==> reply->save == keeps && reply->grant_key@
                == asked->0.target.grant_key@
            &&& keeps ==> {
                &&& final(grants)@.len() == old(grants)@.len() + 1
                &&& final(grants)@.drop_last() == old(grants)@
                &&& final(grants)@.last().key@ == asked->0.target.grant_key@
            }
            &&& !keeps ==> final(grants)@ == old(grants)@
        }),
{
    reveal_strlit("deny");
    reveal_strlit("always");
    assert("deny"@.len() != "always"@.len());
    let asked = old(runtime).pending_computer_approval;
    if asked is Some {
        assert(final(session)@.status == final(session).status);
        assert(final(runtime)@.pending_computer_approval
            == final(runtime).pending_computer_approval);
        assert(controls::has_grant(old(grants)@, asked->0.target.grant_key@) <==> exists|i: int|
            0 <= i < old(grants)@.len() && (#[trigger] old(grants)@[i]).key@
                == asked->0.target.grant_key@);
        if final(grants)@.len() > old(grants)@.len() {
            assert(final(grants)@.drop_last() =~= old(grants)@);
        }
    }
}

// ── Settings and facts ─────────────────────────────────────────────────────

/// Nothing is restarted under a running task, nor while a change is on its way,
/// nor where the settings are in force already; a daemon that nobody can reach
/// before or after is left running.
pub proof fn nothing_is_restarted_under_a_task(
    current: &DaemonExposure,
    wanted: &DaemonExposure,
    pending: bool,
    remote: bool,
    sessions: &Vec<AgentSession>,
    step: ExposureStep,
)
    requires
        call_ensures(
            settings::apply_daemon_exposure,
            (current, wanted, pending, remote, sessions),
            step,
        ),
    ensures
        ({
            let busy = exists|i: int|
                0 <= i < sessions@.len() && (#[trigger] sessions@[i]).status
                    != SessionStatus::Idle && sessions@[i].status != SessionStatus::Failed;
            let news = !pending && wanted@ != current@;
            &&& step == ExposureStep::Nothing <==> !news
            &&& step == ExposureStep::External <==> news && remote
            &&& step == ExposureStep::TasksRunning <==> news && !remote && busy
            &&& step == ExposureStep::Restart <==> news && !remote && !busy && (current.enabled
                || wanted.enabled)
            &&& step == ExposureStep::Store <==> news && !remote && !busy && !current.enabled
                && !wanted.enabled
        }),
{
    let views = session::sessions_view(sessions@);
    crate::settings_laws::tasks_run_where_one_is_busy(views);
    assert forall|i: int| 0 <= i < sessions@.len() implies (#[trigger] sessions@[i]).status
        == views[i].status by {
        assert(views[i] == sessions@[i]@);
    }
    if settings::any_busy(views) {
        let i = choose|i: int| 0 <= i < views.len() && (#[trigger] views[i]).status.busy();
        assert(sessions@[i].status == views[i].status);
    }
    if exists|i: int|
        0 <= i < sessions@.len() && (#[trigger] sessions@[i]).status != SessionStatus::Idle
            && sessions@[i].status != SessionStatus::Failed {
        let i = choose|i: int|
            0 <= i < sessions@.len() && (#[trigger] sessions@[i]).status != SessionStatus::Idle
                && sessions@[i].status != SessionStatus::Failed;
        assert(views[i].status.busy());
    }
}

/// A fact is forgotten on the second press for it, and a press for another
/// starts over; without a project none is.
pub proof fn a_fact_is_forgotten_on_the_second_press(
    first: &mut MemoryState,
    title: &str,
    answer: ForgetStep,
    second: &mut MemoryState,
    other: &str,
    has_project: bool,
    next: ForgetStep,
)
    requires
        call_ensures(memory::delete_memory_fact, (first, true, title), answer),
        *old(second) == *final(first),
        call_ensures(memory::delete_memory_fact, (second, has_project, other), next),
    ensures
        answer != ForgetStep::NoProject,
        answer == ForgetStep::Forget ==> final(first).delete_arming is None,
        next == ForgetStep::NoProject <==> !has_project,
        answer == ForgetStep::Armed ==> (next == ForgetStep::Forget <==> has_project && other@
            == title@),
        final(second)@.facts == old(first)@.facts,
{
    assert(final(first)@.delete_arming == text::text_view(final(first).delete_arming));
}

/// A typed fact is remembered as it is, without the white space at its ends;
/// nothing typed is none.
pub proof fn a_typed_fact_is_remembered(has_project: bool, input: &str, step: RememberStep)
    requires
        call_ensures(memory::add_memory_fact, (has_project, input), step),
    ensures
        step is NoProject <==> !has_project,
        step is Remember <==> has_project && text::trimmed(input@).len() > 0,
        step is Remember ==> step->fact@ == text::trimmed(input@),
{
}

// ── Marks, rows and builds ─────────────────────────────────────────────────

/// A message that was copied stays marked until its own mark expires: the mark
/// of an earlier copy takes nothing away.
pub proof fn a_copied_message_keeps_its_last_mark(
    first: &mut CopiedMessages,
    message_id: Id,
    generation: u64,
    second: &mut CopiedMessages,
    other: u64,
    gone: bool,
)
    requires
        call_ensures(CopiedMessages::show_message_copied, (first, message_id), generation),
        *old(second) == *final(first),
        call_ensures(CopiedMessages::expire_message, (second, message_id, other), gone),
    ensures
        final(first).marks@.contains_key(message_id),
        generation != old(first).generation,
        gone <==> other == generation,
        final(second).marks@.contains_key(message_id) <==> !gone,
        forall|id: Id|
            id != message_id ==> (#[trigger] final(second).marks@.contains_key(id)
                <==> old(first).marks@.contains_key(id)),
{
}

/// Rows that were added are appended, and a list that shrank starts over.
pub proof fn a_list_follows_its_rows(current: usize, count: usize, sync: ListSync)
    requires
        call_ensures(layout::sync_rows, (current, count), sync),
    ensures
        sync == ListSync::Unchanged <==> count == current,
        sync is Append <==> count > current,
        sync is Append ==> current + sync->added == count,
        sync is Reset <==> count < current,
        sync is Reset ==> sync->Reset_count == count,
{
}

/// The rows that are measured again stand around the one that is held, as far
/// as the list goes and no further than the margin.
pub proof fn rows_around_the_anchor_are_measured(
    anchor: usize,
    count: usize,
    margin: usize,
    range: RowRange,
    row: int,
)
    requires
        call_ensures(layout::remeasure_window, (anchor, count, margin), range),
        anchor < count,
    ensures
        range.from <= row < range.to <==> 0 <= row < count && anchor - margin <= row <= anchor
            + margin,
{
}

/// The transcript is held at the anchor's row as long as it is followed and
/// room is kept for it.
pub proof fn an_anchor_holds_while_followed(
    row: usize,
    following: bool,
    space: Length,
    target: Option<ListOffset>,
)
    requires
        call_ensures(layout::maintain_transcript_anchor, (row, following, space), target),
    ensures
        target is Some <==> following && space > 0,
        target is Some ==> target->0.item_ix == row && target->0.offset_in_item == 0,
{
}

/// A build that reported has started, whatever became of it since; one that
/// ended without a report has not. It is looked at again while it runs and the
/// time has not passed.
pub proof fn a_report_counts_first(reported: bool, seen: &Observation, late: bool, poll: Poll)
    requires
        call_ensures(swap::poll_relaunch, (reported, seen, late), poll),
    ensures
        poll@ == (PollView::Over { outcome: OutcomeView::Done }) <==> reported,
        poll@ == PollView::LookAgain <==> !reported && *seen is Running && !late,
        !reported && *seen is Exited ==> poll@ == (PollView::Over {
            outcome: OutcomeView::Exited { status: seen->status@ },
        }),
        !reported && (*seen is Unknown || (*seen is Running && late)) ==> poll@ == (
        PollView::Over { outcome: OutcomeView::TimedOut }),
{
}

/// What is reported waits in order: behind what waits already, unless sharing
/// is off or too much waits; what waited longest is taken first, and nothing
/// is sent while sharing is off.
pub proof fn reports_wait_in_order(
    first: &mut Analytics,
    event: Event,
    second: &mut Analytics,
    taken: Taken,
)
    requires
        call_ensures(Analytics::track, (first, event), ()),
        *old(second) == *final(first),
        call_ensures(Analytics::take_next, (second,), taken),
    ensures
        ({
            let before = old(first).waiting();
            let joins = old(first).is_enabled() && before.len() < old(first).max_waiting();
            let waits = if joins {
                before.push(event)
            } else {
                before
            };
            &&& taken is Empty <==> waits.len() == 0
            &&& waits.len() > 0 ==> final(second).waiting() == waits.skip(1)
            &&& taken is Send <==> waits.len() > 0 && old(first).is_enabled()
            &&& taken is Send ==> taken->Send_0 == waits[0]
        }),
{
}

} // verus!
