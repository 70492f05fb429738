//! More of what the library's functions come to, said of every call: events
//! without a session, batches, new tasks, questions, switches, panels and
//! replies.
use crate::analytics;
use crate::controls;
use crate::controls::{PersistedWindowState, WindowBounds};
use crate::driver;
use crate::driver::DaemonReply;
use crate::events;
use crate::events::{
    BackgroundWorkStatus, DriverEvent, EffectView, EventContext, EventResult, RuntimeView,
    SessionRuntime, StreamDeltaKind,
};
use crate::i18n;
use crate::i18n::Catalog;
use crate::layout;
use crate::layout::{AnchorState, Length, ListOffset, PanelLimits, PanelResizeDrag};
use crate::model::{Id, Message, MessageRole, ProviderKind, RuntimeMode, SessionStatus};
use crate::response;
use crate::session;
use crate::session::AgentSession;
use crate::settings;
use crate::settings::{BinaryOverride, DaemonExposure};
use crate::settings_laws;
use crate::sidebar::{SidebarGrouping, SidebarOrdering, SidebarState};
use crate::sidebar_state;
use crate::streaming_laws;
use crate::task_laws;
use crate::tasks;
use crate::tasks::RememberedSettings;
use crate::text;
use crate::updater;
use crate::updater::{NameProbe, NameStep, RecordPlace, RecordStep};
use crate::user_input::{Advance, PendingUserInput};
use std::collections::{HashSet, VecDeque};
use vstd::prelude::*;

verus! {

// ── Events ─────────────────────────────────────────────────────────────────

/// What an event brings when its session is gone: what waits for an
/// acknowledgement is still settled, a refused message is still queued, and what
/// runs beside the conversation is still followed.
pub proof fn an_event_outlives_its_session(
    ctx: EventContext,
    runtime: RuntimeView,
    event: DriverEvent,
    effect: EffectView,
)
    ensures
        ({
            let (after, effects, keep) = events::orphan_outcome(ctx, runtime, event);
            let follows = effects.contains(effect);
            &&& keep <==> !(event is ProcessExited)
            &&& after.last_active_at == ctx.now_ms
            &&& effect is RefreshBackgroundWork ==> (follows <==> event is Connected)
            &&& effect is MarkBackgroundWorkLost ==> (follows <==> event is ProcessExited)
            &&& effect is CancelComputerUse ==> (follows <==> event is ProcessExited)
            &&& effect is EnqueueFollowUp ==> (follows ==> event is SteerRejected)
            &&& effect is ShowToast ==> (follows ==> event is Error && ctx.selected)
            &&& effect is SettleForegroundWork ==> (follows <==> event is TurnFinished
                && effect->SettleForegroundWork_0 == if event->success {
                BackgroundWorkStatus::Completed
            } else {
                BackgroundWorkStatus::Failed
            })
            &&& effect is TrackBackgroundWork ==> (follows <==> event is BackgroundWork
                && effect->TrackBackgroundWork_0 == event->BackgroundWork_0)
            &&& effect is GoalObserved ==> (follows <==> event is GoalUpdated
                && effect->GoalObserved_0 == (event->GoalUpdated_0 is Some))
            &&& effect is DrainQueue || effect is Notify || effect is CaptureCheckpoint
                || effect is TrackTurn || effect is SpliceRows || effect is MarkDirty ==> !follows
            &&& event is TextDelta || event is ReasoningDelta || event is Activity
                || event is RichActivity || event is Permission || event is UserInputRequested ==> {
                &&& effects.len() == 0
                &&& after == (RuntimeView { last_active_at: ctx.now_ms, ..runtime })
            }
            &&& event is ProcessExited ==> {
                &&& after.pending_permission is None
                &&& after.pending_user_input is None
                &&& after.stream_phase is None
            }
            &&& event is Connected || event is TurnStarted || event is TurnFinished
                || event is ProcessExited ==> after.last_driver_error is None
            &&& event is Error ==> after.last_driver_error is Some
        }),
{
    let effects = events::orphan_outcome(ctx, runtime, event).1;
    if effects.len() > 0 {
        assert(effects.contains(effects[0]));
    }
    if effects.len() > 1 {
        assert(effects.contains(effects[1]));
    }
}

/// An event of a session that is gone changes no other session.
#[verifier::rlimit(40)]
pub proof fn an_event_without_a_session_changes_none(
    ctx: &EventContext,
    catalog: &Catalog,
    expanded: &HashSet<Id>,
    sessions: &mut Vec<AgentSession>,
    session_id: Id,
    runtime: &mut SessionRuntime,
    event: DriverEvent,
    result: EventResult,
)
    requires
        call_ensures(
            events::handle_driver_event,
            (ctx, catalog, expanded, sessions, session_id, runtime, event),
            result,
        ),
        forall|i: int|
            0 <= i < old(sessions)@.len() ==> (#[trigger] old(sessions)@[i]).id != session_id,
    ensures
        *final(sessions) == *old(sessions),
        (final(runtime)@, events::effects_view(result.effects@), result.keep)
            == events::orphan_outcome(*ctx, old(runtime)@, event),
{
    let views = session::sessions_view(old(sessions)@);
    assert forall|i: int| 0 <= i < views.len() implies (#[trigger] views[i]).id != session_id by {
        assert(views[i] == old(sessions)@[i]@);
        assert(old(sessions)@[i].id != session_id);
    }
    streaming_laws::a_session_is_found_by_its_identity(views, session_id);
}

/// A message that was refused when its session is gone is queued, and so is the
/// one that was waiting for the answer.
pub proof fn a_refused_message_outlives_its_session(
    ctx: EventContext,
    runtime: RuntimeView,
    message: String,
    reason: String,
    at: int,
)
    requires
        crate::event_laws::acknowledges(runtime.pending_steers, message@, at),
    ensures
        ({
            let (after, effects, keep) = events::orphan_outcome(
                ctx,
                runtime,
                DriverEvent::SteerRejected { message, reason },
            );
            &&& effects == seq![EffectView::EnqueueFollowUp(runtime.pending_steers[at])]
            &&& after.pending_steers == runtime.pending_steers.remove(at)
            &&& keep
        }),
        events::orphan_outcome(
            ctx,
            runtime,
            DriverEvent::SteerAccepted { message },
        ).0.pending_steers == runtime.pending_steers.remove(at),
{
    crate::event_laws::lemma_steer_with(runtime.pending_steers, message@);
}

proof fn lemma_batch(waiting: Seq<DriverEvent>, kind: StreamDeltaKind, n: int)
    requires
        0 <= n <= waiting.len(),
        forall|i: int| 0 <= i < n ==> events::joins_batch(#[trigger] waiting[i], kind),
        n < waiting.len() ==> !events::joins_batch(waiting[n], kind),
    ensures
        events::batch_len(waiting, kind) == n,
    decreases waiting.len(),
{
    if n > 0 {
        assert(events::joins_batch(waiting[0], kind));
        let rest = waiting.skip(1);
        assert forall|i: int| 0 <= i < n - 1 implies events::joins_batch(
            #[trigger] rest[i],
            kind,
        ) by {
            assert(events::joins_batch(waiting[i + 1], kind));
        }
        lemma_batch(rest, kind, n - 1);
    }
}

proof fn lemma_newest(waiting: Seq<DriverEvent>, at: int)
    requires
        -1 <= at < waiting.len(),
        at >= 0 ==> waiting[at] is RuntimeEventCursorAdvanced,
        forall|i: int|
            at < i < waiting.len() ==> !(#[trigger] waiting[i] is RuntimeEventCursorAdvanced),
    ensures
        events::newest_cursor(waiting) == if at >= 0 {
            Some(waiting[at])
        } else {
            None
        },
    decreases waiting.len(),
{
    if waiting.len() > 0 && at < waiting.len() - 1 {
        assert(!(waiting[waiting.len() - 1] is RuntimeEventCursorAdvanced));
        let front = waiting.drop_last();
        assert forall|i: int| at < i < front.len() implies !(
        #[trigger] front[i] is RuntimeEventCursorAdvanced) by {
            assert(!(waiting[i] is RuntimeEventCursorAdvanced));
        }
        lemma_newest(front, at);
    }
}

/// Whether an event waits to be batched with text of a kind: it is such text, or
/// a position in the stream.
pub open spec fn waits_with(event: DriverEvent, kind: StreamDeltaKind) -> bool {
    ||| event is RuntimeEventCursorAdvanced
    ||| kind is Text && event is TextDelta
    ||| kind is Reasoning && event is ReasoningDelta
}

/// The text that an event brings.
pub open spec fn brought(event: DriverEvent) -> Seq<char> {
    match event {
        DriverEvent::TextDelta(text) => text@,
        DriverEvent::ReasoningDelta(text) => text@,
        _ => Seq::empty(),
    }
}

proof fn lemma_all_text(waiting: Seq<DriverEvent>, kind: StreamDeltaKind)
    requires
        forall|i: int| 0 <= i < waiting.len() ==> waits_with(#[trigger] waiting[i], kind),
    ensures
        events::all_text(waiting, kind) == waiting.map_values(
            |event: DriverEvent| brought(event),
        ).flatten(),
    decreases waiting.len(),
{
    let texts = |event: DriverEvent| brought(event);
    if waiting.len() > 0 {
        let front = waiting.drop_last();
        assert forall|i: int| 0 <= i < front.len() implies waits_with(#[trigger] front[i], kind) by {
            assert(waits_with(waiting[i], kind));
        }
        lemma_all_text(front, kind);
        assert(waits_with(waiting[waiting.len() - 1], kind));
        let mapped = waiting.map_values(texts);
        assert(mapped.drop_last() =~= front.map_values(texts));
        mapped.lemma_flatten_and_flatten_alt_are_equivalent();
        front.map_values(texts).lemma_flatten_and_flatten_alt_are_equivalent();
        assert(mapped.flatten_alt() == mapped.drop_last().flatten_alt() + mapped.last());
    } else {
        assert(waiting.map_values(texts) =~= Seq::<Seq<char>>::empty());
    }
}

/// A batch takes the pieces of text that wait in a row, one after the other and
/// positions between them not counted; of those positions the last one waits in
/// front of what follows.
pub proof fn a_batch_takes_what_waits_in_a_row(
    waiting: &mut VecDeque<DriverEvent>,
    kind: StreamDeltaKind,
    batch: Option<DriverEvent>,
    n: int,
    at: int,
)
    requires
        call_ensures(events::pop_stream_batch, (waiting, kind), batch),
        0 <= n <= old(waiting)@.len(),
        forall|i: int| 0 <= i < n ==> waits_with(#[trigger] old(waiting)@[i], kind),
        n < old(waiting)@.len() ==> !waits_with(old(waiting)@[n], kind),
        -1 <= at < n,
        at >= 0 ==> old(waiting)@[at] is RuntimeEventCursorAdvanced,
        forall|i: int|
            at < i < n ==> !(#[trigger] old(waiting)@[i] is RuntimeEventCursorAdvanced),
    ensures
        batch is Some,
        kind is Text ==> batch->0 is TextDelta,
        kind is Reasoning ==> batch->0 is ReasoningDelta,
        brought(batch->0) == old(waiting)@.take(n).map_values(
            |event: DriverEvent| brought(event),
        ).flatten(),
        at >= 0 ==> final(waiting)@ == seq![old(waiting)@[at]] + old(waiting)@.skip(n),
        at < 0 ==> final(waiting)@ == old(waiting)@.skip(n),
{
    let all = old(waiting)@;
    assert forall|i: int| 0 <= i < n implies events::joins_batch(#[trigger] all[i], kind) by {
        assert(waits_with(all[i], kind));
    }
    lemma_batch(all, kind, n);
    let taken = all.take(n);
    assert forall|i: int| at < i < taken.len() implies !(
    #[trigger] taken[i] is RuntimeEventCursorAdvanced) by {
        assert(taken[i] == all[i]);
    }
    lemma_newest(taken, at);
    assert forall|i: int| 0 <= i < taken.len() implies waits_with(#[trigger] taken[i], kind) by {
        assert(waits_with(all[i], kind));
    }
    lemma_all_text(taken, kind);
    assert(events::delta_of(batch->0, kind) is Some);
    assert(Seq::<DriverEvent>::empty() + all.skip(n) =~= all.skip(n));
}

// ── Tasks and questions ────────────────────────────────────────────────────

/// A task for a project is the first there that has not been started; where
/// there is none a new one stands last, and may touch the workspace as the one
/// on screen may, or as the last one could.
pub proof fn a_project_has_one_draft(
    sessions: &mut Vec<AgentSession>,
    selected: Option<Id>,
    project_id: Id,
    provider: ProviderKind,
    remembered: RuntimeMode,
    fresh_id: Id,
    now: u64,
    opened: Id,
)
    requires
        call_ensures(
            tasks::create_session_for,
            (sessions, selected, project_id, provider, remembered, fresh_id, now),
            opened,
        ),
    ensures
        ({
            let before = session::sessions_view(old(sessions)@);
            let after = session::sessions_view(final(sessions)@);
            let drafted = exists|i: int|
                0 <= i < before.len() && (#[trigger] before[i]).project_id == project_id
                    && !before[i].started;
            &&& drafted ==> after == before && exists|i: int|
                0 <= i < before.len() && (#[trigger] before[i]).id == opened
                    && before[i].project_id == project_id && !before[i].started
            &&& !drafted ==> {
                let new = after.last();
                &&& opened == fresh_id
                &&& after.len() == before.len() + 1
                &&& after.drop_last() == before
                &&& new.id == fresh_id && new.project_id == project_id && new.provider == provider
                &&& !new.started && new.status == SessionStatus::Idle
                &&& new.messages.len() == 0 && new.turns.len() == 0
                &&& selected is None ==> new.runtime_mode == remembered
                &&& forall|k: int|
                    0 <= k < before.len() && selected == Some((#[trigger] before[k]).id) && (
                    forall|j: int| 0 <= j < k ==> Some((#[trigger] before[j]).id) != selected)
                        ==> new.runtime_mode == before[k].runtime_mode
            }
        }),
{
    let before = session::sessions_view(old(sessions)@);
    let after = session::sessions_view(final(sessions)@);
    task_laws::a_draft_is_the_first_unstarted_task(before, project_id);
    if after.len() > before.len() {
        assert(after.drop_last() =~= before);
    }
    if selected is Some {
        streaming_laws::a_session_is_found_by_its_identity(before, selected->0);
    }
}

/// Going back from a question returns to the one before, with every answer
/// kept; from the first there is none. Moving on again comes back.
pub proof fn a_question_can_be_gone_back_to(
    first: &mut PendingUserInput,
    advance: Advance,
    second: &mut PendingUserInput,
    moved: bool,
)
    requires
        call_ensures(PendingUserInput::advance, (first,), advance),
        *old(second) == *final(first),
        call_ensures(PendingUserInput::previous, (second,), moved),
    ensures
        final(first)@.answers == old(first)@.answers,
        final(second)@.answers == old(first)@.answers,
        advance == Advance::Next ==> {
            &&& final(first).question_index == old(first).question_index + 1
            &&& moved
            &&& final(second).question_index == old(first).question_index
        },
        advance != Advance::Next ==> final(first).question_index == old(first).question_index,
        moved <==> final(first).question_index > 0,
        advance == Advance::Submit ==> old(first).question_index + 1
            >= old(first).questions@.len(),
{
    lemma_questions_fit(old(first).questions);
    assert(final(first)@.question_index == final(first).question_index);
    assert(final(second)@.question_index == final(second).question_index);
}

proof fn lemma_questions_fit<T>(items: Vec<T>)
    ensures
        items@.len() <= usize::MAX,
{
    broadcast use vstd::std_specs::vec::axiom_spec_len;

    assert(items@.len() == items.len());
}

/// A prompt follows up where the user spoke before it.
pub proof fn a_followup_comes_after_a_prompt(
    messages: &Vec<Message>,
    index: usize,
    follows: bool,
)
    requires
        call_ensures(response::message_starts_followup_turn, (messages, index), follows),
    ensures
        follows <==> index < messages@.len() && messages@[index as int].role == MessageRole::User
            && exists|i: int|
            0 <= i < index && (#[trigger] messages@[i]).role == MessageRole::User,
{
    let views = crate::model::messages_view(messages@);
    assert forall|i: int| 0 <= i < messages@.len() implies (#[trigger] messages@[i]).role
        == views[i].role by {
        assert(views[i] == messages@[i]@);
    }
    if index < messages@.len() {
        assert(views[index as int].role == messages@[index as int].role);
        if response::has_user(views, index as int) {
            let i = choose|i: int|
                0 <= i < index && (#[trigger] views[i]).role == MessageRole::User;
            assert(messages@[i].role == views[i].role);
        }
        if exists|i: int| 0 <= i < index && (#[trigger] messages@[i]).role == MessageRole::User {
            let i = choose|i: int|
                0 <= i < index && (#[trigger] messages@[i]).role == MessageRole::User;
            assert(views[i].role == MessageRole::User);
        }
    }
}

// ── Switches ───────────────────────────────────────────────────────────────

/// Switching a provider off leaves every started task with it; drafts and what
/// new tasks start with move to a provider that is on, where there is one.
/// Switching it on moves nothing.
pub proof fn a_switched_off_provider_keeps_its_tasks(
    disabled: &mut Vec<ProviderKind>,
    remembered: &mut RememberedSettings,
    sessions: &mut Vec<AgentSession>,
    all: &Vec<ProviderKind>,
    provider: ProviderKind,
    enabled: bool,
    i: int,
)
    requires
        call_ensures(
            settings::set_provider_enabled,
            (disabled, remembered, sessions, all, provider, enabled),
            (),
        ),
        0 <= i < old(sessions)@.len(),
    ensures
        final(disabled)@.contains(provider) <==> !enabled,
        ({
            let before = session::sessions_view(old(sessions)@);
            let after = session::sessions_view(final(sessions)@);
            let another = exists|k: int|
                0 <= k < all@.len() && !final(disabled)@.contains(#[trigger] all@[k]);
            &&& after.len() == before.len()
            &&& enabled || before[i].started || before[i].provider != provider || !another
                ==> after[i] == before[i]
            &&& !enabled && !before[i].started && before[i].provider == provider && another ==> {
                &&& !final(disabled)@.contains(after[i].provider)
                &&& after[i].model is None
                &&& after[i].id == before[i].id && after[i].project_id == before[i].project_id
            }
            &&& enabled || old(remembered).provider != provider || !another ==> final(remembered)@
                == old(remembered)@
            &&& !enabled && old(remembered).provider == provider && another ==> {
                &&& !final(disabled)@.contains(final(remembered)@.provider)
                &&& final(remembered)@.model is None
                &&& final(remembered)@.runtime_mode == old(remembered)@.runtime_mode
            }
        }),
{
    settings_laws::a_switch_moves_one_provider(old(disabled)@, provider, enabled, provider);
    settings_laws::the_first_provider_on_stands_in(all@, final(disabled)@);
    let before = session::sessions_view(old(sessions)@);
    let fallback = settings::first_enabled(all@, final(disabled)@);
    if !enabled && fallback is Some {
        settings_laws::only_drafts_move(before[i], provider, fallback->0);
    }
}

/// The program that the user names for a provider is the one that is used for
/// it from then on, without the white space at its ends; an empty name takes it
/// back, and no other provider's changes.
pub proof fn a_named_program_is_used(
    overrides: &mut Vec<BinaryOverride>,
    provider: ProviderKind,
    input: &str,
    changed: Option<ProviderKind>,
    other: ProviderKind,
)
    requires
        call_ensures(
            settings::apply_provider_path_override,
            (overrides, Some(provider), input),
            changed,
        ),
    ensures
        settings::override_of(final(overrides)@, provider) == text::trimmed(input@),
        other != provider ==> settings::override_of(final(overrides)@, other)
            == settings::override_of(old(overrides)@, other),
        changed is Some <==> text::trimmed(input@) != settings::override_of(
            old(overrides)@,
            provider,
        ),
        changed is Some ==> changed == Some(provider),
{
    assert(settings::override_of(final(overrides)@, provider) == text::trimmed(input@));
    assert(settings::override_of(final(overrides)@, other) == settings::override_of(
        final(overrides)@,
        other,
    ));
}

/// Exposing the daemon takes up what the page names, and a token that is hidden
/// stays hidden; hiding it again keeps what was in force and hides the token.
pub proof fn a_hidden_daemon_hides_its_token(
    catalog: &Catalog,
    current: &DaemonExposure,
    enabled: bool,
    named: Result<DaemonExposure, String>,
    token_revealed: &mut bool,
    settings: Result<DaemonExposure, String>,
)
    requires
        call_ensures(
            settings::set_daemon_exposure_enabled,
            (catalog, current, enabled, named, token_revealed),
            settings,
        ),
    ensures
        !enabled ==> settings is Ok && !settings->Ok_0.enabled && settings->Ok_0@.port
            == current@.port && settings->Ok_0@.token == current@.token,
        !enabled ==> !*final(token_revealed),
        enabled ==> (settings is Ok <==> named is Ok),
        enabled && named is Ok ==> settings->Ok_0.enabled && settings->Ok_0@.token
            == named->Ok_0@.token && settings->Ok_0@.port == named->Ok_0@.port,
        enabled && named is Err ==> settings->Err_0@ == i18n::localized(
            catalog@,
            "daemon.invalid_settings"@,
            seq![i18n::argument("error"@, named->Err_0@)],
        ),
        *final(token_revealed) ==> *old(token_revealed),
{
    if settings is Ok {
        assert(settings->Ok_0@.enabled == settings->Ok_0.enabled);
    }
}

/// How the sidebar groups and orders is what was chosen last; a change has its
/// rows built again, and one of the grouping its branch labels read again.
pub proof fn a_sidebar_is_as_chosen(
    first: &mut SidebarState,
    grouping: SidebarGrouping,
    grouped: bool,
    second: &mut SidebarState,
    ordering: SidebarOrdering,
    ordered: bool,
)
    requires
        call_ensures(sidebar_state::set_sidebar_grouping, (first, grouping), grouped),
        call_ensures(sidebar_state::set_sidebar_ordering, (second, ordering), ordered),
    ensures
        final(first).grouping == grouping,
        final(first).ordering == old(first).ordering,
        grouped <==> old(first).grouping != grouping,
        grouped ==> final(first).rows_fingerprint is None
            && final(first).branch_scan_fingerprint is None && final(first).branch_scan_generation
            != old(first).branch_scan_generation,
        !grouped ==> *final(first) == *old(first),
        final(second).ordering == ordering,
        final(second).grouping == old(second).grouping,
        ordered <==> old(second).ordering != ordering,
        ordered ==> final(second).rows_fingerprint is None,
        final(first).collapsed == old(first).collapsed && final(second).collapsed
            == old(second).collapsed,
{
}

/// The session on its way to the screen is the selected one; without one it is
/// the one on screen.
pub proof fn a_pending_session_is_selected(
    selected: Option<Id>,
    pending: Option<Id>,
    id: Id,
    marked: bool,
)
    requires
        call_ensures(sidebar_state::sidebar_session_selected, (selected, pending, id), marked),
    ensures
        pending is Some ==> (marked <==> pending == Some(id)),
        pending is None ==> (marked <==> selected == Some(id)),
{
}

// ── Panels and windows ─────────────────────────────────────────────────────

/// The room below an anchored turn is what the viewport has left under it, and
/// the anchor holds while it is followed and there is any; without an anchor
/// there is neither.
pub proof fn an_anchored_turn_keeps_its_room(
    state: &mut AnchorState,
    row: Option<usize>,
    list_height: Length,
    window_height: Length,
    tail: Option<Length>,
    target: Option<ListOffset>,
)
    requires
        call_ensures(
            layout::update_transcript_anchor_end_space,
            (state, row, list_height, window_height, tail),
            target,
        ),
    ensures
        row is None ==> final(state).end_space == 0 && !final(state).following && target is None,
        row is Some && tail is Some && list_height > 0 && list_height > tail->0
            ==> final(state).end_space == list_height - tail->0,
        row is Some && tail is Some && list_height > 0 && list_height <= tail->0
            ==> final(state).end_space == 0,
        row is Some && tail is None ==> final(state).end_space == old(state).end_space,
        row is Some ==> final(state).following == old(state).following,
        target is Some <==> row is Some && old(state).following && final(state).end_space > 0,
        target is Some ==> target->0 == (ListOffset { item_ix: row->0, offset_in_item: 0 }),
        old(state).is_scrolled ==> final(state).is_scrolled,
{
}

/// A dragged panel takes the width under the mouse where it may, and is left
/// alone where that is the width it has.
pub proof fn a_dragged_panel_takes_its_width(
    drag: PanelResizeDrag,
    mouse_x: Length,
    limits: PanelLimits,
    room: Length,
    current: Length,
    width: Option<Length>,
)
    requires
        limits.wf(),
        call_ensures(
            layout::resize_panel_mouse_move,
            (drag, mouse_x, limits, room, current),
            width,
        ),
    ensures
        width is Some ==> limits.minimum <= width->0 <= limits.maximum,
        width is Some ==> width->0 != current,
        limits.minimum <= layout::dragged_width(drag, mouse_x) <= limits.maximum
            && layout::dragged_width(drag, mouse_x) <= room - limits.beside && width is Some
            ==> width->0 == layout::dragged_width(drag, mouse_x),
{
    crate::system_laws::a_panel_fits_its_room(
        limits,
        room,
        layout::dragged_width(drag, mouse_x),
    );
}

/// What is kept of a window: nothing new while it is in the background; its
/// frame when it is an ordinary one; a full screen does not replace the frame
/// that was kept before, and a zoomed one only marks it.
pub proof fn a_window_is_kept_as_it_was(
    previous: Option<PersistedWindowState>,
    active: bool,
    bounds: WindowBounds,
    zoomed: bool,
    display: Option<Id>,
    captured: Option<PersistedWindowState>,
)
    requires
        call_ensures(
            controls::capture_window_state,
            (previous, active, bounds, zoomed, display),
            captured,
        ),
    ensures
        !active ==> captured == previous,
        active ==> captured is Some,
        active && bounds is Windowed && !zoomed ==> captured == Some(
            PersistedWindowState { frame: bounds->Windowed_0, maximized: false, display },
        ),
        active && bounds is Maximized ==> captured == Some(
            PersistedWindowState { frame: bounds->Maximized_0, maximized: true, display },
        ),
        active && bounds is Fullscreen && previous is Some ==> captured == previous,
        active && bounds is Windowed && zoomed ==> captured->0.maximized && (previous is Some
            ==> captured->0.frame == previous->0.frame),
{
}

// ── Replies ────────────────────────────────────────────────────────────────

/// A daemon's answer counts where it is the one that was asked for; any other,
/// and a failure, is an error that says so.
pub proof fn an_answer_is_the_one_asked_for(
    reply: &Result<DaemonReply, String>,
    started: Result<bool, String>,
    applied: bool,
    rolled_back: Result<Option<String>, String>,
    forked: Result<String, String>,
)
    requires
        call_ensures(driver::start_remote, (reply,), started),
        call_ensures(driver::apply_options, (reply,), applied),
        call_ensures(driver::rollback, (reply,), rolled_back),
        call_ensures(driver::fork, (reply,), forked),
    ensures
        started is Ok <==> *reply is Ok && (*reply)->Ok_0 is Started,
        started is Ok ==> started->Ok_0 == (*reply)->Ok_0->supports_steer,
        applied <==> *reply is Ok && (*reply)->Ok_0 is OptionsApplied && (*reply)->Ok_0->applied,
        rolled_back is Ok <==> *reply is Ok && (*reply)->Ok_0 is Cursor,
        forked is Ok <==> *reply is Ok && (*reply)->Ok_0 is Cursor && (*reply)->Ok_0->cursor is Some,
        forked is Ok ==> forked->Ok_0@ == (*reply)->Ok_0->cursor->0@,
        *reply is Err ==> started->Err_0@ == (*reply)->Err_0@ && rolled_back->Err_0@
            == (*reply)->Err_0@ && forked->Err_0@ == (*reply)->Err_0@,
{
}

/// A name is used where it is free, and the next is tried where it is taken, up
/// to a hundred; what stands where a failure is recorded is replaced only where
/// it is known not to be a directory.
pub proof fn names_are_tried_up_to_a_hundred(
    attempt: u32,
    probe: &NameProbe,
    step: NameStep,
    place: &RecordPlace,
    record: RecordStep,
)
    requires
        call_ensures(updater::name_step, (attempt, probe), step),
        call_ensures(updater::record_step, (place,), record),
    ensures
        step is Use <==> *probe is Free,
        step is Fail <==> *probe is Failed,
        step is TryNext <==> *probe is Taken && attempt < 100,
        step is GiveUp <==> *probe is Taken && attempt >= 100,
        record is Replace <==> *place is Other,
        record is Create <==> *place is Nothing,
        record is Leave <==> *place is Directory || *place is Unknown,
{
}

/// Reports are only sent from a released build that was told where to, unless
/// the user switched them off.
pub proof fn reports_need_an_address(
    debug_build: bool,
    switch: &Option<String>,
    endpoint: &Option<String>,
    website: &Option<String>,
    available: bool,
)
    requires
        call_ensures(
            analytics::analytics_available,
            (debug_build, switch, endpoint, website),
            available,
        ),
    ensures
        available ==> !debug_build,
        available ==> *endpoint is Some && !text::blank((*endpoint)->0@),
        available ==> *website is Some && !text::blank((*website)->0@),
        available ==> *switch is None || !analytics::switched_on((*switch)->0@),
        !debug_build && *switch is None && *endpoint is Some && !text::blank((*endpoint)->0@)
            && *website is Some && !text::blank((*website)->0@) ==> available,
{
}

} // verus!
