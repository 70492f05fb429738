//! What the user's controls do to the task on screen: stopping it, choosing
//! its model and options, and answering what its agent asks.
use crate::events;
use crate::events::{
    BackgroundWorkStatus, ComputerUsePreview, DriverEvent, Effect, EffectView, EventContext, EventResult,
    PendingComputerApproval, RuntimeView, SessionRuntime,
};
use crate::i18n;
use crate::i18n::Catalog;
use crate::layout::Length;
use crate::model::{
    ActivityView, BlockView, Id, MessageRole, MessageView, ProviderKind, RuntimeMode,
    SessionStatus, TurnStatus,
};
use crate::session::{AgentSession, SessionView};
use crate::streaming;
use crate::tasks;
use crate::tasks::{RememberedSettings, RememberedView, SessionNavigation};
use crate::text;
use crate::user_input::{Advance, UserInputAnswer, UserInputView};
use std::collections::{HashMap, HashSet, VecDeque};
use vstd::prelude::*;

verus! {

broadcast use vstd::std_specs::hash::group_hash_axioms;

// ── Stopping ───────────────────────────────────────────────────────────────

/// Whether a provider's runtime survives a stop. Codex owns a tree of
/// processes of its own and Amp cannot be interrupted: both are ended, and
/// take their conversation up again with the next prompt.
pub fn retain_runtime_after_cancel(provider: ProviderKind) -> (retain: bool)
    ensures
        retain == !(provider == ProviderKind::Codex || provider == ProviderKind::Amp),
{
    match provider {
        ProviderKind::Codex => false,
        ProviderKind::Amp => false,
        _ => true,
    }
}

/// How long a first press of Escape waits for the second, in milliseconds.
pub const ESCAPE_STOP_CONFIRMATION_TIMEOUT: u64 = 3_000;

/// What a press of Escape would stop.
#[derive(Clone, Copy, Debug, PartialEq, Eq, Structural)]
pub struct EscapeStopTarget {
    pub session_id: Id,
    pub turn_id: Option<Id>,
}

/// A first press of Escape that waits for the second.
#[derive(Clone, Copy, Debug, PartialEq, Eq, Structural)]
pub struct EscapeStopArm {
    pub target: EscapeStopTarget,
    /// When it stops to wait, in milliseconds.
    pub expires_at: u64,
    /// Tells it apart from other first presses.
    pub generation: u64,
}

/// What a press of Escape does.
#[derive(Clone, Copy, Debug, PartialEq, Eq, Structural)]
pub enum EscapeStopPress {
    /// The press waits for a second one.
    Arm(EscapeStopArm),
    /// The turn is stopped.
    Stop,
}

/// Escape stops a turn only when it is pressed twice.
#[derive(Clone, Copy, Debug, PartialEq, Eq, Structural)]
pub struct EscapeStopConfirmation {
    pub armed: Option<EscapeStopArm>,
    pub generation: u64,
}

impl EscapeStopConfirmation {
    /// Escape has not been pressed.
    pub fn new() -> (confirmation: EscapeStopConfirmation)
        ensures
            confirmation.armed is None,
            confirmation.generation == 0,
    {
        EscapeStopConfirmation { armed: None, generation: 0 }
    }

    /// Whether a press would stop this turn now.
    pub open spec fn armed_for(self, target: EscapeStopTarget, now: u64) -> bool {
        self.armed matches Some(arm) && arm.target == target && now < arm.expires_at
    }

    /// Whether a press would stop this turn now.
    pub fn is_armed_for(&self, target: EscapeStopTarget, now: u64) -> (armed: bool)
        ensures
            armed == self.armed_for(target, now),
    {
        match self.armed {
            Some(arm) => arm.target == target && now < arm.expires_at,
            None => false,
        }
    }

    /// The first press of Escape at this time.
    pub open spec fn next_arm(self, target: EscapeStopTarget, now: u64) -> EscapeStopArm {
        EscapeStopArm {
            target,
            expires_at: if now + ESCAPE_STOP_CONFIRMATION_TIMEOUT <= u64::MAX {
                (now + ESCAPE_STOP_CONFIRMATION_TIMEOUT) as u64
            } else {
                u64::MAX
            },
            generation: self.generation.wrapping_add(1),
        }
    }

    /// Press Escape: the turn stops where a press for the same turn is still
    /// waiting; any other press becomes the one that waits.
    pub fn press(&mut self, target: EscapeStopTarget, now: u64) -> (press: EscapeStopPress)
        ensures
            press == if old(self).armed_for(target, now) {
                EscapeStopPress::Stop
            } else {
                EscapeStopPress::Arm(old(self).next_arm(target, now))
            },
            *final(self) == if old(self).armed_for(target, now) {
                EscapeStopConfirmation { armed: None, ..*old(self) }
            } else {
                EscapeStopConfirmation {
                    armed: Some(old(self).next_arm(target, now)),
                    generation: old(self).generation.wrapping_add(1),
                }
            },
    {
        if self.is_armed_for(target, now) {
            self.armed = None;
            return EscapeStopPress::Stop;
        }
        self.generation = self.generation.wrapping_add(1);
        let arm = EscapeStopArm {
            target,
            expires_at: now.saturating_add(ESCAPE_STOP_CONFIRMATION_TIMEOUT),
            generation: self.generation,
        };
        self.armed = Some(arm);
        EscapeStopPress::Arm(arm)
    }

    /// A press has waited long enough; whether it was still the one waiting.
    pub fn expire(&mut self, arm: EscapeStopArm) -> (expired: bool)
        ensures
            expired == (old(self).armed == Some(arm)),
            *final(self) == (EscapeStopConfirmation {
                armed: if expired {
                    None
                } else {
                    old(self).armed
                },
                ..*old(self)
            }),
    {
        if self.armed == Some(arm) {
            self.armed = None;
            return true;
        }
        false
    }

    /// No press waits any longer.
    pub fn clear(&mut self)
        ensures
            *final(self) == (EscapeStopConfirmation { armed: None, ..*old(self) }),
    {
        self.armed = None;
    }
}

/// What Escape would stop: a busy session whose prompt is no longer being
/// prepared.
pub fn selected_escape_stop_target(session: Option<&AgentSession>, preparing: bool) -> (target:
    Option<EscapeStopTarget>)
    ensures
        target == match session {
            Some(session) => if !preparing && session.status.busy() {
                Some(
                    EscapeStopTarget { session_id: session.id, turn_id: session@.active_turn() },
                )
            } else {
                None
            },
            None => None,
        },
{
    match session {
        Some(session) => {
            if !preparing && session.status.is_busy() {
                Some(
                    EscapeStopTarget { session_id: session.id, turn_id: session.active_turn_id() },
                )
            } else {
                None
            }
        },
        None => None,
    }
}

/// Where Escape goes.
#[derive(Clone, Copy, Debug, PartialEq, Eq, Structural)]
pub enum EscapeRoute {
    CancelSwitcher,
    CloseSettings,
    CancelMessageEdit,
    /// There is nothing to confirm: the turn is stopped.
    Stop,
    /// The press stops this turn if it is the second.
    Confirm(EscapeStopTarget),
}

/// Where Escape goes: to what lies in front, and only then to the turn.
pub fn cancel_turn_action(
    switcher_open: bool,
    settings_open: bool,
    editing_message: bool,
    target: Option<EscapeStopTarget>,
) -> (route: EscapeRoute)
    ensures
        route == if switcher_open {
            EscapeRoute::CancelSwitcher
        } else if settings_open {
            EscapeRoute::CloseSettings
        } else if editing_message {
            EscapeRoute::CancelMessageEdit
        } else {
            match target {
                Some(target) => EscapeRoute::Confirm(target),
                None => EscapeRoute::Stop,
            }
        },
{
    if switcher_open {
        EscapeRoute::CancelSwitcher
    } else if settings_open {
        EscapeRoute::CloseSettings
    } else if editing_message {
        EscapeRoute::CancelMessageEdit
    } else {
        match target {
            Some(target) => EscapeRoute::Confirm(target),
            None => EscapeRoute::Stop,
        }
    }
}

/// What a stop does with the session's runtime.
#[derive(Clone, Copy, Debug, PartialEq, Eq, Structural)]
pub enum StopPlan {
    /// The prompt is still being prepared: nothing can be stopped.
    Ignored,
    /// The turn is interrupted; whether the runtime stays for later.
    Stop { retain_runtime: bool },
}

/// What a stop does: the preparation of a prompt has no safe way to be
/// interrupted; detached work keeps a runtime that would end otherwise.
pub fn plan_stop(session: Option<&AgentSession>, preparing: bool, has_detached_work: bool) -> (plan:
    StopPlan)
    ensures
        plan == if preparing {
            StopPlan::Ignored
        } else {
            StopPlan::Stop {
                retain_runtime: has_detached_work || (session matches Some(session) && !(
                session.provider == ProviderKind::Codex || session.provider
                    == ProviderKind::Amp)),
            }
        },
{
    if preparing {
        return StopPlan::Ignored;
    }
    let survives = match session {
        Some(session) => retain_runtime_after_cancel(session.provider),
        None => false,
    };
    StopPlan::Stop { retain_runtime: survives || has_detached_work }
}

/// The session after a stop: what has been received stays, what was going on
/// is over, and a turn in which the assistant said nothing says so.
pub open spec fn stopped_session(
    entries: Seq<(Seq<char>, Seq<char>)>,
    session: SessionView,
    message_id: Id,
    now: u64,
) -> SessionView {
    let settled = streaming::completed_blocks(streaming::finished_streaming(session));
    if session.active_turn() is None {
        settled
    } else {
        let idle = SessionView { status: SessionStatus::Idle, ..settled };
        let answered = if session.active_turn_has(MessageRole::Assistant) {
            idle
        } else {
            idle.with_message(
                MessageView::plain(
                    message_id,
                    MessageRole::Assistant,
                    i18n::plain(entries, "session.stopped"@),
                    session.active_turn(),
                    now,
                ),
            )
        };
        answered.turn_finished(TurnStatus::Interrupted, now)
    }
}

/// Settle a session whose turn has been stopped; whether a turn was running,
/// whose changes are then captured.
pub fn settle_stopped_session(
    catalog: &Catalog,
    session: &mut AgentSession,
    message_id: Id,
    now: u64,
) -> (had_turn: bool)
    ensures
        final(session)@ == stopped_session(catalog@, old(session)@, message_id, now),
        had_turn == (old(session)@.active_turn() is Some),
{
    let ghost before = session@;
    let had_turn = session.active_turn_id().is_some();
    streaming::finish_streaming_assistant(session);
    streaming::complete_turn_blocks(session);
    proof {
        events::lemma_settling_keeps_turn(before);
    }
    if had_turn {
        let silent: bool = !session.active_turn_has(MessageRole::Assistant);
        session.status = SessionStatus::Idle;
        if silent {
            session.push_message(
                message_id,
                MessageRole::Assistant,
                catalog.text("session.stopped"),
                now,
            );
        }
        let _ = session.finish_active_turn(TurnStatus::Interrupted, now);
    }
    had_turn
}

/// Settle the runtime of a stopped turn: it no longer waits for the user.
pub fn settle_stopped_runtime(runtime: &mut SessionRuntime)
    ensures
        final(runtime)@ == old(runtime)@.settled(),
        final(runtime).wf(),
{
    events::clear_waiting(runtime);
}

/// Identities for what an event creates.
#[derive(Clone, Copy, Debug, PartialEq, Eq, Structural)]
pub struct FreshIds {
    pub message: Id,
    pub turn: Id,
}

/// What an event is seen against while its turn is being stopped: queued
/// messages may not start.
pub open spec fn stopping(ctx: EventContext, fresh: FreshIds) -> EventContext {
    EventContext {
        allow_queue_drain: false,
        fresh_id: fresh.message,
        fresh_turn: fresh.turn,
        ..ctx
    }
}

/// What one event that had been received before a stop leads to.
#[verifier::opaque]
pub open spec fn stop_step(
    ctx: EventContext,
    entries: Seq<(Seq<char>, Seq<char>)>,
    expanded: Set<Id>,
    session: SessionView,
    runtime: RuntimeView,
    event: DriverEvent,
    fresh: FreshIds,
) -> events::Outcome {
    events::event_outcome(stopping(ctx, fresh), entries, expanded, session, runtime, event)
}

proof fn lemma_step_grows(
    ctx: EventContext,
    entries: Seq<(Seq<char>, Seq<char>)>,
    expanded: Set<Id>,
    session: SessionView,
    runtime: RuntimeView,
    event: DriverEvent,
    fresh: FreshIds,
)
    ensures
        stop_step(
            ctx,
            entries,
            expanded,
            session,
            runtime,
            event,
            fresh,
        ).session.messages.len() <= session.messages.len() + 1,
{
    reveal(stop_step);
    events::an_event_adds_at_most_one_message(
        stopping(ctx, fresh),
        entries,
        expanded,
        session,
        runtime,
        event,
    );
}

/// What the events that had been received before a stop lead to.
#[verifier::ext_equal]
pub ghost struct Drained {
    pub session: SessionView,
    pub runtime: RuntimeView,
    pub effects: Seq<EffectView>,
    /// Whether the runtime stays attached.
    pub keep: bool,
    /// The events behind the one that ended the runtime.
    pub left: Seq<DriverEvent>,
}

/// What the events that had been received before a stop lead to: they are
/// taken up in order until one ends the runtime, and none starts a queued
/// message.
pub open spec fn drained(
    ctx: EventContext,
    entries: Seq<(Seq<char>, Seq<char>)>,
    expanded: Set<Id>,
    session: SessionView,
    runtime: RuntimeView,
    events: Seq<DriverEvent>,
    fresh: Seq<FreshIds>,
) -> Drained
    decreases events.len(),
{
    if events.len() == 0 {
        Drained { session, runtime, effects: Seq::empty(), keep: true, left: events }
    } else {
        let outcome = stop_step(
            ctx,
            entries,
            expanded,
            session,
            runtime,
            events[0],
            fresh[0],
        );
        if outcome.keep {
            let rest = drained(
                ctx,
                entries,
                expanded,
                outcome.session,
                outcome.runtime,
                events.skip(1),
                fresh.skip(1),
            );
            Drained { effects: outcome.effects + rest.effects, ..rest }
        } else {
            Drained {
                session: outcome.session,
                runtime: outcome.runtime,
                effects: outcome.effects,
                keep: false,
                left: events.skip(1),
            }
        }
    }
}

/// Whether two contexts differ at most in what a stop sets.
spec fn same_but_for_the_stop(a: EventContext, b: EventContext) -> bool {
    a == (EventContext {
        allow_queue_drain: a.allow_queue_drain,
        fresh_id: a.fresh_id,
        fresh_turn: a.fresh_turn,
        ..b
    })
}

proof fn lemma_same_step(
    a: EventContext,
    b: EventContext,
    entries: Seq<(Seq<char>, Seq<char>)>,
    expanded: Set<Id>,
    session: SessionView,
    runtime: RuntimeView,
    event: DriverEvent,
    fresh: FreshIds,
)
    requires
        same_but_for_the_stop(a, b),
    ensures
        stop_step(a, entries, expanded, session, runtime, event, fresh) == stop_step(
            b,
            entries,
            expanded,
            session,
            runtime,
            event,
            fresh,
        ),
{
    reveal(stop_step);
    assert(stopping(a, fresh) == stopping(b, fresh));
}

/// Take up the next event that had been received before a stop. What the
/// application has to do after it is done before the next one is taken up.
pub fn take_buffered_event(
    ctx: &mut EventContext,
    catalog: &Catalog,
    expanded: &HashSet<Id>,
    session: &mut AgentSession,
    runtime: &mut SessionRuntime,
    events: &mut VecDeque<DriverEvent>,
    fresh: FreshIds,
) -> (result: Option<EventResult>)
    requires
        old(session).messages@.len() < usize::MAX - 1,
        old(runtime).wf(),
    ensures
        final(runtime).wf(),
        result is None <==> old(events)@.len() == 0,
        match result {
            None => {
                &&& *final(ctx) == *old(ctx)
                &&& final(session)@ == old(session)@
                &&& final(runtime)@ == old(runtime)@
                &&& final(events)@ == old(events)@
            },
            Some(result) => {
                &&& *final(ctx) == stopping(*old(ctx), fresh)
                &&& final(events)@ == old(events)@.skip(1)
                &&& (events::Outcome {
                    session: final(session)@,
                    runtime: final(runtime)@,
                    effects: events::effects_view(result.effects@),
                    keep: result.keep,
                }) == stop_step(
                    *old(ctx),
                    catalog@,
                    expanded@,
                    old(session)@,
                    old(runtime)@,
                    old(events)@[0],
                    fresh,
                )
            },
        },
{
    reveal(stop_step);
    match events.pop_front() {
        None => None,
        Some(event) => {
            assert(events@ =~= old(events)@.skip(1));
            ctx.allow_queue_drain = false;
            ctx.fresh_id = fresh.message;
            ctx.fresh_turn = fresh.turn;
            Some(
                events::handle_session_event(ctx, catalog, expanded, session, runtime, event),
            )
        },
    }
}

/// Take up the events that had been received before a stop, in order, until
/// one ends the runtime. Each has identities of its own for what it creates.
pub fn take_buffered_events(
    ctx: EventContext,
    catalog: &Catalog,
    expanded: &HashSet<Id>,
    session: &mut AgentSession,
    runtime: &mut SessionRuntime,
    events: &mut VecDeque<DriverEvent>,
    fresh: &Vec<FreshIds>,
) -> (result: EventResult)
    requires
        old(session).messages@.len() + old(events)@.len() < usize::MAX - 1,
        old(runtime).wf(),
        fresh@.len() >= old(events)@.len(),
    ensures
        final(runtime).wf(),
        (Drained {
            session: final(session)@,
            runtime: final(runtime)@,
            effects: events::effects_view(result.effects@),
            keep: result.keep,
            left: final(events)@,
        }) == drained(
            ctx,
            catalog@,
            expanded@,
            old(session)@,
            old(runtime)@,
            old(events)@,
            fresh@,
        ),
{
    let ghost all = events@;
    let ghost total = drained(ctx, catalog@, expanded@, session@, runtime@, all, fresh@);
    let mut ctx = ctx;
    let ghost base = ctx;
    let mut effects: Vec<Effect> = Vec::new();
    let mut keep: bool = true;
    let mut i: usize = 0;
    assert(events::effects_view(effects@) =~= Seq::<EffectView>::empty());
    assert(all.skip(0) =~= all);
    assert(fresh@.skip(0) =~= fresh@);
    assert(Seq::<EffectView>::empty() + total.effects =~= total.effects);
    while keep && events.len() > 0
        invariant
            i <= all.len(),
            all.len() <= fresh@.len(),
            events@ == all.skip(i as int),
            runtime.wf(),
            session.messages@.len() + (all.len() - i) < usize::MAX - 1,
            same_but_for_the_stop(ctx, base),
            keep ==> ({
                let rest = drained(
                    base,
                    catalog@,
                    expanded@,
                    session@,
                    runtime@,
                    all.skip(i as int),
                    fresh@.skip(i as int),
                );
                total == (Drained {
                    effects: events::effects_view(effects@) + rest.effects,
                    ..rest
                })
            }),
            !keep ==> total == (Drained {
                session: session@,
                runtime: runtime@,
                effects: events::effects_view(effects@),
                keep: false,
                left: events@,
            }),
        decreases all.len() - i,
    {
        let ghost before = session@;
        let ghost active = runtime@;
        let ghost earlier = events::effects_view(effects@);
        assert(i < fresh.len());
        assert(all.skip(i as int)[0] == all[i as int]);
        assert(fresh@.skip(i as int)[0] == fresh@[i as int]);
        assert(all.skip(i as int).skip(1) =~= all.skip(i + 1));
        assert(fresh@.skip(i as int).skip(1) =~= fresh@.skip(i + 1));
        proof {
            lemma_same_step(
                ctx,
                base,
                catalog@,
                expanded@,
                before,
                active,
                all[i as int],
                fresh@[i as int],
            );
            lemma_step_grows(
                base,
                catalog@,
                expanded@,
                before,
                active,
                all[i as int],
                fresh@[i as int],
            );
        }
        match take_buffered_event(
            &mut ctx,
            catalog,
            expanded,
            session,
            runtime,
            events,
            fresh[i],
        ) {
            Some(mut taken) => {
                let ghost added = events::effects_view(taken.effects@);
                assert(session@.messages.len() == session.messages@.len());
                keep = taken.keep;
                effects.append(&mut taken.effects);
                assert(events::effects_view(effects@) =~= earlier + added);
                proof {
                    if keep {
                        let rest = drained(
                            base,
                            catalog@,
                            expanded@,
                            session@,
                            runtime@,
                            all.skip(i + 1),
                            fresh@.skip(i + 1),
                        );
                        assert(earlier + (added + rest.effects) =~= (earlier + added)
                            + rest.effects);
                    }
                }
            },
            None => {},
        }
        i += 1;
    }
    assert(keep ==> events::effects_view(effects@) + Seq::<EffectView>::empty()
        =~= events::effects_view(effects@));
    EventResult { keep, effects }
}

/// However many events had been received, a stop starts no queued message.
pub proof fn a_stop_starts_nothing_queued(
    ctx: EventContext,
    entries: Seq<(Seq<char>, Seq<char>)>,
    expanded: Set<Id>,
    session: SessionView,
    runtime: RuntimeView,
    events: Seq<DriverEvent>,
    fresh: Seq<FreshIds>,
)
    ensures
        events::starts_nothing(
            drained(ctx, entries, expanded, session, runtime, events, fresh).effects,
        ),
    decreases events.len(),
{
    if events.len() > 0 {
        reveal(stop_step);
        let outcome = stop_step(
            ctx,
            entries,
            expanded,
            session,
            runtime,
            events[0],
            fresh[0],
        );
        events::nothing_queued_starts_unasked(
            stopping(ctx, fresh[0]),
            entries,
            expanded,
            session,
            runtime,
            events[0],
        );
        a_stop_starts_nothing_queued(
            ctx,
            entries,
            expanded,
            outcome.session,
            outcome.runtime,
            events.skip(1),
            fresh.skip(1),
        );
    }
}

/// Drop the goal operations that are queued behind a runtime that is starting:
/// they would set a goal after the stop, and have it pursued.
pub fn drop_goal_operations<T>(goal_operations: &mut HashMap<Id, T>, session_id: Id)
    ensures
        final(goal_operations)@ == old(goal_operations)@.remove(session_id),
{
    goal_operations.remove(&session_id);
    assert(goal_operations@ =~= old(goal_operations)@.remove(session_id));
}

/// Drop the start of the session's next queued message.
pub fn drop_queue_drains(queue_drains: &mut Vec<Id>, session_id: Id)
    ensures
        final(queue_drains)@ == tasks::without(old(queue_drains)@, session_id),
{
    tasks::retain_others(queue_drains, session_id);
}

/// Nothing waits behind a stopped turn any more, and what waits elsewhere
/// stays.
pub proof fn a_stop_drops_what_waits<T>(
    goal_operations: Map<Id, T>,
    queue_drains: Seq<Id>,
    session_id: Id,
    other: Id,
)
    requires
        other != session_id,
    ensures
        !goal_operations.remove(session_id).contains_key(session_id),
        !tasks::without(queue_drains, session_id).contains(session_id),
        goal_operations.remove(session_id).contains_key(other) == goal_operations.contains_key(
            other,
        ),
        tasks::without(queue_drains, session_id).contains(other) == queue_drains.contains(other),
    decreases queue_drains.len(),
{
    if queue_drains.len() > 0 {
        let front = queue_drains.drop_last();
        a_stop_drops_what_waits(goal_operations, front, session_id, other);
        let kept = tasks::without(front, session_id);
        if queue_drains.last() != session_id {
            let grown = kept.push(queue_drains.last());
            assert(grown.contains(other) == (kept.contains(other) || queue_drains.last()
                == other)) by {
                if kept.contains(other) {
                    let i = choose|i: int| 0 <= i < kept.len() && kept[i] == other;
                    assert(grown[i] == other);
                } else if queue_drains.last() == other {
                    assert(grown[kept.len() as int] == other);
                }
            }
        }
        assert(queue_drains.contains(other) == (front.contains(other) || queue_drains.last()
            == other)) by {
            if front.contains(other) {
                let i = choose|i: int| 0 <= i < front.len() && front[i] == other;
                assert(queue_drains[i] == other);
            } else if queue_drains.last() == other {
                assert(queue_drains[queue_drains.len() - 1] == other);
            }
            if queue_drains.contains(other) && queue_drains.last() != other {
                let i = choose|i: int|
                    0 <= i < queue_drains.len() && queue_drains[i] == other;
                assert(front[i] == other);
            }
        }
    }
}

/// What becomes of the runtime after a stop.
#[derive(Clone, Copy, Debug, PartialEq, Eq, Structural)]
pub enum RuntimeFate {
    Keep,
    Close,
}

/// What becomes of the runtime after a stop: it stays where it may and its
/// process has not ended meanwhile.
pub fn runtime_fate(retain_runtime: bool, still_running: bool) -> (fate: RuntimeFate)
    ensures
        fate == if retain_runtime && still_running {
            RuntimeFate::Keep
        } else {
            RuntimeFate::Close
        },
{
    if retain_runtime && still_running {
        RuntimeFate::Keep
    } else {
        RuntimeFate::Close
    }
}

/// One thing that a stop does, besides what it changes in the session and in
/// its runtime.
pub enum StopEffect {
    /// Drop the goal operations that wait for the runtime.
    DropGoalOperations,
    /// Interrupt the provider.
    CancelDriver,
    /// What an event leads to, or the end of the turn.
    Apply(Effect),
    /// Drop the start of the next queued message.
    DropQueueDrains,
    /// Put the runtime back in place.
    KeepRuntime,
    /// End the runtime.
    CloseRuntime,
    /// Measure the transcript's last rows again.
    RemeasureTail,
    /// Save the sessions.
    Save,
}

pub ghost enum StopEffectView {
    DropGoalOperations,
    CancelDriver,
    Apply(EffectView),
    DropQueueDrains,
    KeepRuntime,
    CloseRuntime,
    RemeasureTail,
    Save,
}

impl View for StopEffect {
    type V = StopEffectView;

    open spec fn view(&self) -> StopEffectView {
        match *self {
            StopEffect::DropGoalOperations => StopEffectView::DropGoalOperations,
            StopEffect::CancelDriver => StopEffectView::CancelDriver,
            StopEffect::Apply(effect) => StopEffectView::Apply(effect@),
            StopEffect::DropQueueDrains => StopEffectView::DropQueueDrains,
            StopEffect::KeepRuntime => StopEffectView::KeepRuntime,
            StopEffect::CloseRuntime => StopEffectView::CloseRuntime,
            StopEffect::RemeasureTail => StopEffectView::RemeasureTail,
            StopEffect::Save => StopEffectView::Save,
        }
    }
}

/// The views of what a stop does.
pub open spec fn stop_effects_view(effects: Seq<StopEffect>) -> Seq<StopEffectView> {
    effects.map_values(|effect: StopEffect| effect@)
}

/// Effects as parts of a stop.
pub open spec fn applied(effects: Seq<EffectView>) -> Seq<StopEffectView> {
    effects.map_values(|effect: EffectView| StopEffectView::Apply(effect))
}

/// What the end of a stopped turn leads to: the work in the foreground is over,
/// what the turn changed on disk is recorded, and the rows on screen follow.
pub open spec fn settle_effects(
    selected: bool,
    expanded: Set<Id>,
    before: SessionView,
    after: SessionView,
) -> Seq<EffectView> {
    let had_turn = before.active_turn() is Some;
    seq![EffectView::SettleForegroundWork(BackgroundWorkStatus::Stopped)] + events::when(
        had_turn,
        EffectView::CaptureCheckpoint,
    ) + events::splice_effects(selected && had_turn, expanded, before, after)
}

/// Whether a session's runtime may stay after a stop: detached work keeps one
/// that would end otherwise.
pub open spec fn retains_runtime(session: SessionView, has_detached_work: bool) -> bool {
    has_detached_work || !(session.provider == ProviderKind::Codex || session.provider
        == ProviderKind::Amp)
}

/// What a stop leaves.
#[verifier::ext_equal]
pub ghost struct Stopped {
    pub session: SessionView,
    pub runtime: RuntimeView,
    pub effects: Seq<StopEffectView>,
    /// Events that came behind the end of the process.
    pub left: Seq<DriverEvent>,
}

/// What a stop leaves of a session with a runtime, and what it does, in order:
/// the provider is interrupted, what had been received is taken up, the turn is
/// settled, and the runtime stays where it may and still runs.
pub open spec fn turn_stopped(
    ctx: EventContext,
    entries: Seq<(Seq<char>, Seq<char>)>,
    expanded: Set<Id>,
    session: SessionView,
    runtime: RuntimeView,
    events: Seq<DriverEvent>,
    fresh: Seq<FreshIds>,
    message_id: Id,
    has_detached_work: bool,
) -> Stopped {
    let retain = retains_runtime(session, has_detached_work);
    let received = drained(ctx, entries, expanded, session, runtime, events, fresh);
    let after = stopped_session(entries, received.session, message_id, ctx.now);
    Stopped {
        session: after,
        runtime: received.runtime.settled(),
        effects: seq![StopEffectView::DropGoalOperations, StopEffectView::CancelDriver] + applied(
            events::when(retain, EffectView::CancelComputerUse),
        ) + applied(received.effects) + seq![StopEffectView::DropQueueDrains] + applied(
            settle_effects(ctx.selected, expanded, received.session, after),
        ) + seq![
            if retain && received.keep {
                StopEffectView::KeepRuntime
            } else {
                StopEffectView::CloseRuntime
            },
            StopEffectView::RemeasureTail,
            StopEffectView::Save,
        ],
        left: received.left,
    }
}

fn push_stop(effects: &mut Vec<StopEffect>, effect: StopEffect)
    ensures
        stop_effects_view(final(effects)@) == stop_effects_view(old(effects)@).push(effect@),
{
    let ghost before = stop_effects_view(effects@);
    let ghost added = effect@;
    effects.push(effect);
    assert(stop_effects_view(effects@) =~= before.push(added));
}

fn push_applied(effects: &mut Vec<StopEffect>, more: Vec<Effect>)
    ensures
        stop_effects_view(final(effects)@) == stop_effects_view(old(effects)@) + applied(
            events::effects_view(more@),
        ),
{
    let ghost before = stop_effects_view(effects@);
    let ghost all = more@;
    let ghost mut taken: int = 0;
    let mut more = more;
    assert(all.skip(0) =~= all);
    assert(before + applied(events::effects_view(all.take(0))) =~= before);
    while more.len() > 0
        invariant
            0 <= taken <= all.len(),
            more@ == all.skip(taken),
            stop_effects_view(effects@) == before + applied(
                events::effects_view(all.take(taken)),
            ),
        decreases more@.len(),
    {
        let ghost so_far = stop_effects_view(effects@);
        let effect = more.remove(0);
        assert(effect == all[taken]);
        assert(all.skip(taken).remove(0) =~= all.skip(taken + 1));
        push_stop(effects, StopEffect::Apply(effect));
        assert(all.take(taken + 1) =~= all.take(taken).push(all[taken]));
        assert(applied(events::effects_view(all.take(taken + 1))) =~= applied(
            events::effects_view(all.take(taken)),
        ).push(StopEffectView::Apply(all[taken]@)));
        assert(so_far.push(StopEffectView::Apply(all[taken]@)) =~= before + applied(
            events::effects_view(all.take(taken + 1)),
        ));
        proof {
            taken = taken + 1;
        }
    }
    assert(all.take(taken) =~= all);
}

fn settle_stop(
    catalog: &Catalog,
    expanded: &HashSet<Id>,
    session: &mut AgentSession,
    selected: bool,
    message_id: Id,
    now: u64,
) -> (effects: Vec<Effect>)
    requires
        old(session).messages@.len() < usize::MAX - 1,
    ensures
        final(session)@ == stopped_session(catalog@, old(session)@, message_id, now),
        events::effects_view(effects@) == settle_effects(
            selected,
            expanded@,
            old(session)@,
            final(session)@,
        ),
{
    let ghost before = session@;
    let had_turn = session.active_turn_id().is_some();
    let previous = events::rows_if_selected(selected && had_turn, session, expanded);
    let _ = settle_stopped_session(catalog, session, message_id, now);
    assert(session@.messages.len() <= before.messages.len() + 1);
    assert(session@.messages.len() == session.messages@.len());
    assert(before.messages.len() == old(session).messages@.len());
    let mut effects: Vec<Effect> = Vec::new();
    assert(events::effects_view(effects@) =~= Seq::<EffectView>::empty());
    let settled = Effect::SettleForegroundWork(BackgroundWorkStatus::Stopped);
    events::push(&mut effects, settled);
    assert(Seq::<EffectView>::empty() + seq![settled@] =~= seq![settled@]);
    events::push_if(&mut effects, had_turn, Effect::CaptureCheckpoint);
    events::push_splice(&mut effects, &previous, session, expanded, Ghost(before));
    effects
}

/// Stop the running turn of a session with a runtime. While a prompt is still
/// being prepared nothing is done: there is no safe way to interrupt that. What
/// is returned has to be done in order.
pub fn stop_turn(
    ctx: EventContext,
    catalog: &Catalog,
    expanded: &HashSet<Id>,
    session: &mut AgentSession,
    runtime: &mut SessionRuntime,
    events: &mut VecDeque<DriverEvent>,
    fresh: &Vec<FreshIds>,
    message_id: Id,
    has_detached_work: bool,
) -> (effects: Vec<StopEffect>)
    requires
        old(session).messages@.len() + old(events)@.len() < usize::MAX - 1,
        old(runtime).wf(),
        fresh@.len() >= old(events)@.len(),
    ensures
        final(runtime).wf(),
        (Stopped {
            session: final(session)@,
            runtime: final(runtime)@,
            effects: stop_effects_view(effects@),
            left: final(events)@,
        }) == if ctx.preparing {
            Stopped {
                session: old(session)@,
                runtime: old(runtime)@,
                effects: Seq::empty(),
                left: old(events)@,
            }
        } else {
            turn_stopped(
                ctx,
                catalog@,
                expanded@,
                old(session)@,
                old(runtime)@,
                old(events)@,
                fresh@,
                message_id,
                has_detached_work,
            )
        },
{
    let ghost session_before = session@;
    let ghost runtime_before = runtime@;
    let ghost events_before = events@;
    let mut effects: Vec<StopEffect> = Vec::new();
    assert(stop_effects_view(effects@) =~= Seq::<StopEffectView>::empty());
    let retain = match plan_stop(Some(&*session), ctx.preparing, has_detached_work) {
        StopPlan::Ignored => {
            return effects;
        },
        StopPlan::Stop { retain_runtime } => retain_runtime,
    };
    assert(retain == retains_runtime(session_before, has_detached_work));
    let selected = ctx.selected;
    let now: u64 = ctx.now;
    let ghost received = drained(
        ctx,
        catalog@,
        expanded@,
        session_before,
        runtime_before,
        events_before,
        fresh@,
    );
    push_stop(&mut effects, StopEffect::DropGoalOperations);
    push_stop(&mut effects, StopEffect::CancelDriver);
    let ghost first = seq![StopEffectView::DropGoalOperations, StopEffectView::CancelDriver];
    assert(stop_effects_view(effects@) =~= first);
    let ghost second = applied(events::when(retain, EffectView::CancelComputerUse));
    if retain {
        push_stop(&mut effects, StopEffect::Apply(Effect::CancelComputerUse));
    }
    assert(stop_effects_view(effects@) =~= first + second);
    let taken = take_buffered_events(ctx, catalog, expanded, session, runtime, events, fresh);
    proof {
        lemma_drained_grows(
            ctx,
            catalog@,
            expanded@,
            session_before,
            runtime_before,
            events_before,
            fresh@,
        );
    }
    let keep = taken.keep;
    push_applied(&mut effects, taken.effects);
    push_stop(&mut effects, StopEffect::DropQueueDrains);
    let ghost third = first + second + applied(received.effects) + seq![
        StopEffectView::DropQueueDrains,
    ];
    assert(stop_effects_view(effects@) =~= third);
    assert(session@.messages.len() == session.messages@.len());
    assert(session_before.messages.len() == old(session).messages@.len());
    let settled = settle_stop(catalog, expanded, session, selected, message_id, now);
    settle_stopped_runtime(runtime);
    let ghost fourth = applied(events::effects_view(settled@));
    push_applied(&mut effects, settled);
    let fate = match runtime_fate(retain, keep) {
        RuntimeFate::Keep => StopEffect::KeepRuntime,
        RuntimeFate::Close => StopEffect::CloseRuntime,
    };
    let ghost last = seq![fate@, StopEffectView::RemeasureTail, StopEffectView::Save];
    push_stop(&mut effects, fate);
    push_stop(&mut effects, StopEffect::RemeasureTail);
    push_stop(&mut effects, StopEffect::Save);
    assert(stop_effects_view(effects@) =~= third + fourth + last);
    effects
}

proof fn lemma_drained_grows(
    ctx: EventContext,
    entries: Seq<(Seq<char>, Seq<char>)>,
    expanded: Set<Id>,
    session: SessionView,
    runtime: RuntimeView,
    events: Seq<DriverEvent>,
    fresh: Seq<FreshIds>,
)
    ensures
        drained(
            ctx,
            entries,
            expanded,
            session,
            runtime,
            events,
            fresh,
        ).session.messages.len() <= session.messages.len() + events.len(),
    decreases events.len(),
{
    if events.len() > 0 {
        lemma_step_grows(ctx, entries, expanded, session, runtime, events[0], fresh[0]);
        let outcome = stop_step(
            ctx,
            entries,
            expanded,
            session,
            runtime,
            events[0],
            fresh[0],
        );
        lemma_drained_grows(
            ctx,
            entries,
            expanded,
            outcome.session,
            outcome.runtime,
            events.skip(1),
            fresh.skip(1),
        );
    }
}

/// What a stop does, in order, where the session has no runtime.
pub open spec fn stop_without_runtime(
    selected: bool,
    expanded: Set<Id>,
    before: SessionView,
    after: SessionView,
) -> Seq<StopEffectView> {
    seq![StopEffectView::DropGoalOperations, StopEffectView::DropQueueDrains] + applied(
        settle_effects(selected, expanded, before, after),
    ) + seq![StopEffectView::RemeasureTail, StopEffectView::Save]
}

/// Stop the running turn of a session that has no runtime, as `stop_turn` does
/// for one that has.
pub fn stop_turn_without_runtime(
    ctx: &EventContext,
    catalog: &Catalog,
    expanded: &HashSet<Id>,
    session: &mut AgentSession,
    message_id: Id,
) -> (effects: Vec<StopEffect>)
    requires
        old(session).messages@.len() < usize::MAX - 1,
    ensures
        ctx.preparing ==> final(session)@ == old(session)@ && effects@.len() == 0,
        !ctx.preparing ==> {
            &&& final(session)@ == stopped_session(catalog@, old(session)@, message_id, ctx.now)
            &&& stop_effects_view(effects@) == stop_without_runtime(
                ctx.selected,
                expanded@,
                old(session)@,
                final(session)@,
            )
        },
{
    let mut effects: Vec<StopEffect> = Vec::new();
    assert(stop_effects_view(effects@) =~= Seq::<StopEffectView>::empty());
    if ctx.preparing {
        return effects;
    }
    push_stop(&mut effects, StopEffect::DropGoalOperations);
    push_stop(&mut effects, StopEffect::DropQueueDrains);
    let ghost first = seq![StopEffectView::DropGoalOperations, StopEffectView::DropQueueDrains];
    assert(stop_effects_view(effects@) =~= first);
    let settled = settle_stop(catalog, expanded, session, ctx.selected, message_id, ctx.now);
    let ghost second = applied(events::effects_view(settled@));
    push_applied(&mut effects, settled);
    push_stop(&mut effects, StopEffect::RemeasureTail);
    push_stop(&mut effects, StopEffect::Save);
    assert(stop_effects_view(effects@) =~= first + second + seq![
        StopEffectView::RemeasureTail,
        StopEffectView::Save,
    ]);
    effects
}

/// Whether the assistant said something in a turn.
pub open spec fn answers_turn(messages: Seq<MessageView>, turn: Id) -> bool {
    exists|i: int|
        0 <= i < messages.len() && (#[trigger] messages[i]).role == MessageRole::Assistant
            && messages[i].turn_id == Some(turn)
}

/// A stop leaves no turn running, and no turn without an answer.
pub proof fn a_stopped_turn_is_over_and_answered(
    entries: Seq<(Seq<char>, Seq<char>)>,
    session: SessionView,
    message_id: Id,
    now: u64,
)
    ensures
        stopped_session(entries, session, message_id, now).active_turn() is None,
        session.active_turn() matches Some(turn) ==> answers_turn(
            stopped_session(entries, session, message_id, now).messages,
            turn,
        ),
{
    events::lemma_settling_keeps_turn(session);
    let settled = streaming::completed_blocks(streaming::finished_streaming(session));
    let after = stopped_session(entries, session, message_id, now);
    if session.active_turn() is Some {
        if session.active_turn_has(MessageRole::Assistant) {
            let i = choose|i: int|
                0 <= i < settled.messages.len() && (#[trigger] settled.messages[i]).role
                    == MessageRole::Assistant && settled.messages[i].turn_id
                    == settled.active_turn();
            assert(after.messages[i] == settled.messages[i]);
        } else {
            assert(after.messages[settled.messages.len() as int].role == MessageRole::Assistant);
        }
    }
}

/// Whatever had been received, a stop ends the turn: none runs, no message of
/// the assistant still receives text, nothing waits for the user, and the
/// runtime is closed unless it may stay and its process still runs.
pub proof fn a_stop_ends_the_turn(
    ctx: EventContext,
    entries: Seq<(Seq<char>, Seq<char>)>,
    expanded: Set<Id>,
    session: SessionView,
    runtime: RuntimeView,
    events: Seq<DriverEvent>,
    fresh: Seq<FreshIds>,
    message_id: Id,
    has_detached_work: bool,
)
    ensures
        ({
            let stopped = turn_stopped(
                ctx,
                entries,
                expanded,
                session,
                runtime,
                events,
                fresh,
                message_id,
                has_detached_work,
            );
            let received = drained(ctx, entries, expanded, session, runtime, events, fresh);
            &&& stopped.session.active_turn() is None
            &&& forall|i: int|
                0 <= i < stopped.session.messages.len() && (
                #[trigger] stopped.session.messages[i]).role == MessageRole::Assistant
                    ==> !stopped.session.messages[i].streaming
            &&& stopped.runtime.stream_phase is None
            &&& stopped.runtime.pending_permission is None
            &&& stopped.runtime.pending_user_input is None
            &&& stopped.runtime.pending_computer_approval is None
            &&& stopped.effects.contains(StopEffectView::KeepRuntime) <==> (retains_runtime(
                session,
                has_detached_work,
            ) && received.keep)
        }),
{
    let received = drained(ctx, entries, expanded, session, runtime, events, fresh);
    a_stopped_turn_is_over_and_answered(entries, received.session, message_id, ctx.now);
    let stopped = turn_stopped(
        ctx,
        entries,
        expanded,
        session,
        runtime,
        events,
        fresh,
        message_id,
        has_detached_work,
    );
    let count = stopped.effects.len();
    assert(stopped.effects[count - 3] == if retains_runtime(session, has_detached_work)
        && received.keep {
        StopEffectView::KeepRuntime
    } else {
        StopEffectView::CloseRuntime
    });
    if stopped.effects.contains(StopEffectView::KeepRuntime) {
        let i = choose|i: int|
            0 <= i < count && stopped.effects[i] == StopEffectView::KeepRuntime;
        assert(i == count - 3);
    }
}

// ── Back and forward ───────────────────────────────────────────────────────

/// What a command to go back or forward does.
#[derive(Clone, Copy, Debug, PartialEq, Eq, Structural)]
pub enum NavigationStep {
    CloseSettings,
    /// The task that is asked for, and the one it is asked for from.
    Request { target: Id, from: Id },
    Nothing,
}

/// What going back does: it closes the settings, or else asks for the task
/// before.
pub fn navigate_back_action(
    settings_open: bool,
    selected: Option<Id>,
    navigation: &SessionNavigation,
) -> (step: NavigationStep)
    ensures
        step == if settings_open {
            NavigationStep::CloseSettings
        } else {
            match (selected, navigation@.back_to()) {
                (Some(from), Some(target)) => NavigationStep::Request { target, from },
                _ => NavigationStep::Nothing,
            }
        },
{
    if settings_open {
        return NavigationStep::CloseSettings;
    }
    match (selected, navigation.back_target()) {
        (Some(from), Some(target)) => NavigationStep::Request { target, from },
        _ => NavigationStep::Nothing,
    }
}

/// What going forward does: nothing over the settings, else it asks for the
/// task that was gone back from.
pub fn navigate_forward_action(
    settings_open: bool,
    selected: Option<Id>,
    navigation: &SessionNavigation,
) -> (step: NavigationStep)
    ensures
        step == if settings_open {
            NavigationStep::Nothing
        } else {
            match (selected, navigation@.forward_to()) {
                (Some(from), Some(target)) => NavigationStep::Request { target, from },
                _ => NavigationStep::Nothing,
            }
        },
{
    if settings_open {
        return NavigationStep::Nothing;
    }
    match (selected, navigation.forward_target()) {
        (Some(from), Some(target)) => NavigationStep::Request { target, from },
        _ => NavigationStep::Nothing,
    }
}

// ── The model and its options ──────────────────────────────────────────────

/// What a model was last used with.
pub struct ModelTraits {
    pub reasoning_effort: Option<String>,
    pub service_tier: Option<String>,
    pub context_window: Option<String>,
}

/// The session after another model has been chosen.
pub open spec fn with_model(
    session: SessionView,
    provider: ProviderKind,
    model: Seq<char>,
    traits: ModelTraits,
) -> SessionView {
    SessionView {
        provider,
        model: Some(model),
        agent_preset: if session.provider != provider {
            None
        } else {
            session.agent_preset
        },
        reasoning_effort: text::text_view(traits.reasoning_effort),
        service_tier: text::text_view(traits.service_tier),
        context_window: text::text_view(traits.context_window),
        ..session
    }
}

/// What follows the choice of a model.
#[derive(Clone, Copy, Debug, PartialEq, Eq, Structural)]
pub enum ModelChoice {
    /// The model may not be chosen, or is the current one.
    Unchanged,
    /// The new model is handed to the running provider.
    Apply,
    /// Another provider is another program: the runtime is ended.
    Restart,
}

/// A model and what it is used with.
pub struct ModelUse {
    pub provider: ProviderKind,
    pub model: String,
    pub traits: ModelTraits,
}

#[verifier::ext_equal]
pub struct ModelUseView {
    pub provider: ProviderKind,
    pub model: Seq<char>,
    pub reasoning_effort: Option<Seq<char>>,
    pub service_tier: Option<Seq<char>>,
    pub context_window: Option<Seq<char>>,
}

impl View for ModelUse {
    type V = ModelUseView;

    open spec fn view(&self) -> ModelUseView {
        ModelUseView {
            provider: self.provider,
            model: self.model@,
            reasoning_effort: text::text_view(self.traits.reasoning_effort),
            service_tier: text::text_view(self.traits.service_tier),
            context_window: text::text_view(self.traits.context_window),
        }
    }
}

/// The view of a use that may not be there.
pub open spec fn use_view(used: Option<ModelUse>) -> Option<ModelUseView> {
    match used {
        Some(used) => Some(used@),
        None => None,
    }
}

/// What a session's model is used with, where the session uses one.
pub open spec fn use_of(session: SessionView, model: Option<Seq<char>>) -> Option<ModelUseView> {
    match model {
        Some(model) => Some(
            ModelUseView {
                provider: session.provider,
                model,
                reasoning_effort: session.reasoning_effort,
                service_tier: session.service_tier,
                context_window: session.context_window,
            },
        ),
        None => None,
    }
}

/// What is remembered of a session's model: what it is used with. `model` is
/// the one that the session uses.
pub fn remember_selected_model_traits(session: &AgentSession, model: &Option<String>) -> (used:
    Option<ModelUse>)
    ensures
        use_view(used) == use_of(session@, text::text_view(*model)),
{
    match model {
        Some(model) => Some(
            ModelUse {
                provider: session.provider,
                model: model.clone(),
                traits: ModelTraits {
                    reasoning_effort: text::copy_text(&session.reasoning_effort),
                    service_tier: text::copy_text(&session.service_tier),
                    context_window: text::copy_text(&session.context_window),
                },
            },
        ),
        None => None,
    }
}

/// Whether the choice of a model changes a session.
pub open spec fn changes_model(
    session: SessionView,
    allowed: bool,
    provider: ProviderKind,
    model: Seq<char>,
) -> bool {
    allowed && (session.provider != provider || session.model != Some(model))
}

/// What comes before another model is chosen.
pub enum ModelChoiceStep {
    /// The model may not be chosen, or is the current one.
    Unchanged,
    /// What the old model is used with is remembered. After that it is looked
    /// up what the new one was last used with, and it is chosen.
    Choose { remember: Option<ModelUse> },
}

/// What comes before another model is chosen. `current` is the model that the
/// session uses; `allowed` says whether it can still change to the provider.
pub fn begin_model_choice(
    session: &AgentSession,
    current: &Option<String>,
    allowed: bool,
    provider: ProviderKind,
    model: &str,
) -> (step: ModelChoiceStep)
    ensures
        step is Choose <==> changes_model(session@, allowed, provider, model@),
        step matches ModelChoiceStep::Choose { remember } ==> use_view(remember) == use_of(
            session@,
            text::text_view(*current),
        ),
{
    let same_model = match &session.model {
        Some(chosen) => text::same(chosen.as_str(), model),
        None => false,
    };
    if !allowed || (session.provider == provider && same_model) {
        return ModelChoiceStep::Unchanged;
    }
    ModelChoiceStep::Choose { remember: remember_selected_model_traits(session, current) }
}

/// Choose a model with what it was last used with; the picker shows the models
/// of its provider. `allowed` says whether the session can still change to the
/// provider. What the old model is used with has been remembered before, as
/// `begin_model_choice` says.
pub fn choose_model(
    session: &mut AgentSession,
    remembered: &mut RememberedSettings,
    picker: &mut ModelPicker,
    allowed: bool,
    provider: ProviderKind,
    model: String,
    traits: ModelTraits,
) -> (choice: ModelChoice)
    ensures
        ({
            let changes = changes_model(old(session)@, allowed, provider, model@);
            &&& *final(picker) == (if changes {
                ModelPicker { tab: ModelPickerTab::Provider(provider), ..*old(picker) }
            } else {
                *old(picker)
            })
            &&& choice == if !changes {
                ModelChoice::Unchanged
            } else if old(session).provider != provider {
                ModelChoice::Restart
            } else {
                ModelChoice::Apply
            }
            &&& final(session)@ == (if changes {
                with_model(old(session)@, provider, model@, traits)
            } else {
                old(session)@
            })
            &&& final(remembered)@ == (if changes {
                RememberedView {
                    provider,
                    runtime_mode: old(remembered)@.runtime_mode,
                    model: Some(model@),
                    reasoning_effort: text::text_view(traits.reasoning_effort),
                    service_tier: text::text_view(traits.service_tier),
                    context_window: text::text_view(traits.context_window),
                }
            } else {
                old(remembered)@
            })
        }),
{
    let provider_changed = session.provider != provider;
    let same_model = match &session.model {
        Some(current) => text::same(current.as_str(), model.as_str()),
        None => false,
    };
    if !allowed || (!provider_changed && same_model) {
        return ModelChoice::Unchanged;
    }
    session.provider = provider;
    session.model = Some(model.clone());
    if provider_changed {
        session.agent_preset = None;
    }
    session.reasoning_effort = text::copy_text(&traits.reasoning_effort);
    session.service_tier = text::copy_text(&traits.service_tier);
    session.context_window = text::copy_text(&traits.context_window);
    remembered.provider = provider;
    remembered.model = Some(model);
    remembered.reasoning_effort = traits.reasoning_effort;
    remembered.service_tier = traits.service_tier;
    remembered.context_window = traits.context_window;
    picker.tab = ModelPickerTab::Provider(provider);
    if provider_changed {
        ModelChoice::Restart
    } else {
        ModelChoice::Apply
    }
}

/// A model that the user keeps at hand.
pub struct FavoriteModel {
    pub provider: ProviderKind,
    pub model: String,
}

/// Where a model stands among the favorites, or -1.
pub open spec fn favorite_at(
    favorites: Seq<FavoriteModel>,
    provider: ProviderKind,
    model: Seq<char>,
) -> int
    decreases favorites.len(),
{
    if favorites.len() == 0 {
        -1
    } else if favorites[0].provider == provider && favorites[0].model@ == model {
        0
    } else if favorite_at(favorites.skip(1), provider, model) < 0 {
        -1
    } else {
        favorite_at(favorites.skip(1), provider, model) + 1
    }
}

/// Put a model among the favorites, or take it out.
pub fn toggle_favorite_model(
    favorites: &mut Vec<FavoriteModel>,
    provider: ProviderKind,
    model: String,
)
    ensures
        final(favorites)@ == ({
            let at = favorite_at(old(favorites)@, provider, model@);
            if at >= 0 {
                old(favorites)@.remove(at)
            } else {
                old(favorites)@.push(FavoriteModel { provider, model })
            }
        }),
{
    let mut i: usize = 0;
    assert(favorites@.skip(0) =~= favorites@);
    while i < favorites.len()
        invariant
            i <= favorites@.len(),
            favorites@ == old(favorites)@,
            favorite_at(favorites@, provider, model@) == (if favorite_at(
                favorites@.skip(i as int),
                provider,
                model@,
            ) < 0 {
                -1
            } else {
                favorite_at(favorites@.skip(i as int), provider, model@) + i
            }),
        decreases favorites@.len() - i,
    {
        assert(favorites@.skip(i as int)[0] == favorites@[i as int]);
        assert(favorites@.skip(i as int).skip(1) =~= favorites@.skip(i + 1));
        if favorites[i].provider == provider && text::same(
            favorites[i].model.as_str(),
            model.as_str(),
        ) {
            favorites.remove(i);
            return;
        }
        i += 1;
    }
    favorites.push(FavoriteModel { provider, model });
}

/// What follows a change of how a session may touch the workspace.
#[derive(Clone, Copy, Debug, PartialEq, Eq, Structural)]
pub struct ModeChange {
    /// The running provider is told.
    pub apply: bool,
    /// The settings are saved.
    pub save: bool,
}

/// Change how a session may touch the workspace, and remember it for new
/// tasks.
pub fn set_runtime_mode(
    session: &mut AgentSession,
    remembered: &mut RememberedSettings,
    mode: RuntimeMode,
) -> (change: ModeChange)
    ensures
        change.apply == (old(session).runtime_mode != mode),
        change.save == (change.apply || old(remembered).runtime_mode != mode),
        final(session)@ == (SessionView { runtime_mode: mode, ..old(session)@ }),
        final(remembered)@ == (RememberedView { runtime_mode: mode, ..old(remembered)@ }),
{
    let apply = session.runtime_mode != mode;
    let save = apply || remembered.runtime_mode != mode;
    session.runtime_mode = mode;
    remembered.runtime_mode = mode;
    ModeChange { apply, save }
}

fn is_text(current: &Option<String>, wanted: &str) -> (same: bool)
    ensures
        same == (text::text_view(*current) == Some(wanted@)),
{
    match current {
        Some(current) => text::same(current.as_str(), wanted),
        None => false,
    }
}

/// What follows a change of a model's options: what the model is now used with
/// is remembered, and the running provider is told.
pub struct OptionChange {
    pub remember: Option<ModelUse>,
}

/// Change how hard the model thinks, and what follows where that is a change.
/// `model` is the one that the session uses.
pub fn set_reasoning_effort(
    session: &mut AgentSession,
    remembered: &mut RememberedSettings,
    model: &Option<String>,
    effort: String,
) -> (change: Option<OptionChange>)
    ensures
        change is Some <==> old(session)@.reasoning_effort != Some(effort@),
        final(session)@ == (SessionView { reasoning_effort: Some(effort@), ..old(session)@ }),
        final(remembered)@ == (if change is Some {
            RememberedView { reasoning_effort: Some(effort@), ..old(remembered)@ }
        } else {
            old(remembered)@
        }),
        change matches Some(change) ==> use_view(change.remember) == use_of(
            final(session)@,
            text::text_view(*model),
        ),
{
    if is_text(&session.reasoning_effort, effort.as_str()) {
        return None;
    }
    session.reasoning_effort = Some(effort.clone());
    remembered.reasoning_effort = Some(effort);
    Some(OptionChange { remember: remember_selected_model_traits(session, model) })
}

/// Change the tier that the provider serves from, and what follows where that
/// is a change.
pub fn set_service_tier(
    session: &mut AgentSession,
    remembered: &mut RememberedSettings,
    model: &Option<String>,
    tier: String,
) -> (change: Option<OptionChange>)
    ensures
        change is Some <==> old(session)@.service_tier != Some(tier@),
        final(session)@ == (SessionView { service_tier: Some(tier@), ..old(session)@ }),
        final(remembered)@ == (if change is Some {
            RememberedView { service_tier: Some(tier@), ..old(remembered)@ }
        } else {
            old(remembered)@
        }),
        change matches Some(change) ==> use_view(change.remember) == use_of(
            final(session)@,
            text::text_view(*model),
        ),
{
    if is_text(&session.service_tier, tier.as_str()) {
        return None;
    }
    session.service_tier = Some(tier.clone());
    remembered.service_tier = Some(tier);
    Some(OptionChange { remember: remember_selected_model_traits(session, model) })
}

/// Change the size of the context window, and what follows where that is a
/// change.
pub fn set_context_window(
    session: &mut AgentSession,
    remembered: &mut RememberedSettings,
    model: &Option<String>,
    window: String,
) -> (change: Option<OptionChange>)
    ensures
        change is Some <==> old(session)@.context_window != Some(window@),
        final(session)@ == (SessionView { context_window: Some(window@), ..old(session)@ }),
        final(remembered)@ == (if change is Some {
            RememberedView { context_window: Some(window@), ..old(remembered)@ }
        } else {
            old(remembered)@
        }),
        change matches Some(change) ==> use_view(change.remember) == use_of(
            final(session)@,
            text::text_view(*model),
        ),
{
    if is_text(&session.context_window, window.as_str()) {
        return None;
    }
    session.context_window = Some(window.clone());
    remembered.context_window = Some(window);
    Some(OptionChange { remember: remember_selected_model_traits(session, model) })
}

/// Change the agent's preset to one that the provider offers; whether that is
/// a change, after which the runtime is ended. `selectable` says whether the
/// session can still change it.
pub fn set_agent_preset(
    session: &mut AgentSession,
    offered: &Vec<String>,
    selectable: bool,
    preset: String,
) -> (changed: bool)
    ensures
        changed == (selectable && text::texts_view(offered@).contains(preset@) && old(session)@.agent_preset != Some(preset@)),
        final(session)@ == (if changed {
            SessionView { agent_preset: Some(preset@), ..old(session)@ }
        } else {
            old(session)@
        }),
{
    let ghost views = text::texts_view(offered@);
    let mut found: bool = false;
    let mut i: usize = 0;
    while i < offered.len()
        invariant
            i <= offered@.len(),
            views == text::texts_view(offered@),
            found == exists|k: int| 0 <= k < i && #[trigger] views[k] == preset@,
        decreases offered@.len() - i,
    {
        assert(views[i as int] == offered@[i as int]@);
        if text::same(offered[i].as_str(), preset.as_str()) {
            found = true;
        }
        i += 1;
    }
    if !selectable || !found || is_text(&session.agent_preset, preset.as_str()) {
        return false;
    }
    session.agent_preset = Some(preset);
    true
}

/// A list of models to pick from.
#[derive(Clone, Copy, Debug, PartialEq, Eq, Structural)]
pub enum ModelPickerTab {
    Favorites,
    Provider(ProviderKind),
}

/// What the picker shows.
#[derive(Clone, Copy, Debug, PartialEq, Eq, Structural)]
pub struct ModelPicker {
    pub tab: ModelPickerTab,
    /// The row under the keyboard's cursor.
    pub highlight: Option<usize>,
}

/// Show another tab of the picker; whether it is another, in which case the
/// model in use is scrolled to. Its rows are others, so no row stays under the
/// cursor. Nothing is looked up: every provider's models were asked for at
/// launch.
pub fn select_model_picker_tab(picker: &mut ModelPicker, tab: ModelPickerTab) -> (changed: bool)
    ensures
        changed == (old(picker).tab != tab),
        *final(picker) == (if old(picker).tab != tab {
            ModelPicker { tab, highlight: None }
        } else {
            *old(picker)
        }),
{
    if picker.tab == tab {
        return false;
    }
    picker.tab = tab;
    picker.highlight = None;
    true
}

/// A menu on screen.
#[derive(Clone, Copy, Debug, PartialEq, Eq, Structural)]
pub struct Menu {
    /// It is the picker for models.
    pub picker: bool,
    pub open: bool,
}

/// The other menus that are open, among the first `n`.
pub open spec fn other_open_menus(menus: Seq<Menu>, n: int) -> Seq<usize>
    decreases n,
{
    if n <= 0 {
        Seq::empty()
    } else if !menus[n - 1].picker && menus[n - 1].open {
        other_open_menus(menus, n - 1).push((n - 1) as usize)
    } else {
        other_open_menus(menus, n - 1)
    }
}

/// What the key for the picker of models does: nothing on a settings page,
/// while the task cannot change its model, or without a picker; otherwise the
/// picker is toggled, and the menus that are returned are closed.
pub fn toggle_model_picker_action(settings_open: bool, selectable: bool, menus: &Vec<Menu>) -> (
toggled: Option<Vec<usize>>)
    ensures
        toggled is Some <==> !settings_open && selectable && exists|i: int|
            0 <= i < menus@.len() && (#[trigger] menus@[i]).picker,
        toggled matches Some(closed) ==> closed@ == other_open_menus(
            menus@,
            menus@.len() as int,
        ),
{
    if settings_open || !selectable {
        return None;
    }
    let mut closed: Vec<usize> = Vec::new();
    let mut found: bool = false;
    let mut i: usize = 0;
    while i < menus.len()
        invariant
            i <= menus@.len(),
            found == exists|k: int| 0 <= k < i && (#[trigger] menus@[k]).picker,
            closed@ == other_open_menus(menus@, i as int),
        decreases menus@.len() - i,
    {
        let menu = menus[i];
        if menu.picker {
            found = true;
        } else if menu.open {
            closed.push(i);
        }
        i += 1;
    }
    if found {
        Some(closed)
    } else {
        None
    }
}

/// The row of a picker that a key moves to: down and up wrap around, and
/// start at the first and the last row. Other keys are left to the filter.
pub fn next_picker_highlight(current: Option<usize>, count: usize, key: &str) -> (next: Option<
    usize,
>)
    ensures
        next == if count == 0 {
            None
        } else if key@ == "down"@ {
            match current {
                Some(row) => if row % count == count - 1 {
                    Some(0usize)
                } else {
                    Some((row % count + 1) as usize)
                },
                None => Some(0usize),
            }
        } else if key@ == "up"@ {
            match current {
                Some(row) => if row % count == 0 {
                    Some((count - 1) as usize)
                } else {
                    Some((row % count - 1) as usize)
                },
                None => Some((count - 1) as usize),
            }
        } else {
            None
        },
{
    if count == 0 {
        return None;
    }
    if text::same(key, "down") {
        return match current {
            Some(row) => {
                let place: usize = row % count;
                if place == count - 1 {
                    Some(0)
                } else {
                    Some(place + 1)
                }
            },
            None => Some(0),
        };
    }
    if text::same(key, "up") {
        return match current {
            Some(row) => {
                let place: usize = row % count;
                if place == 0 {
                    Some(count - 1)
                } else {
                    Some(place - 1)
                }
            },
            None => Some(count - 1),
        };
    }
    None
}

// ── What the agent asks ────────────────────────────────────────────────────

/// The permission that was asked for has been answered: the agent goes on.
pub fn respond_permission(session: &mut AgentSession, runtime: &mut SessionRuntime)
    ensures
        final(session)@ == (SessionView { status: SessionStatus::Working, ..old(session)@ }),
        final(runtime)@ == (RuntimeView { pending_permission: None, ..old(runtime)@ }),
        old(runtime).wf() ==> final(runtime).wf(),
{
    runtime.pending_permission = None;
    session.status = SessionStatus::Working;
}

/// The user typed a text for the question on screen.
pub fn update_user_input_custom_answer(runtime: &mut SessionRuntime, answer: String)
    requires
        old(runtime).wf(),
    ensures
        final(runtime).wf(),
        final(runtime)@ == typed_runtime(old(runtime)@, answer@),
{
    if let Some(mut pending) = runtime.pending_user_input.take() {
        pending.update_custom_answer(answer);
        runtime.pending_user_input = Some(pending);
    }
}

/// The user picked an option for the question on screen.
pub fn select_user_input_option(runtime: &mut SessionRuntime, label: String)
    requires
        old(runtime).wf(),
    ensures
        final(runtime).wf(),
        final(runtime)@ == (RuntimeView {
            pending_user_input: match old(runtime)@.pending_user_input {
                Some(pending) => Some(pending.selected(label@)),
                None => None,
            },
            ..old(runtime)@
        }),
{
    if let Some(mut pending) = runtime.pending_user_input.take() {
        pending.select_option(label);
        runtime.pending_user_input = Some(pending);
    }
}

/// The user goes back to the question before; whether there is one.
pub fn previous_user_input(runtime: &mut SessionRuntime) -> (moved: bool)
    requires
        old(runtime).wf(),
    ensures
        final(runtime).wf(),
        moved == (old(runtime)@.pending_user_input matches Some(pending)
            && pending.question_index > 0),
        final(runtime)@ == (RuntimeView {
            pending_user_input: match old(runtime)@.pending_user_input {
                Some(pending) => Some(
                    UserInputView {
                        question_index: if moved {
                            (pending.question_index - 1) as usize
                        } else {
                            pending.question_index
                        },
                        ..pending
                    },
                ),
                None => None,
            },
            ..old(runtime)@
        }),
{
    if let Some(mut pending) = runtime.pending_user_input.take() {
        let moved = pending.previous();
        runtime.pending_user_input = Some(pending);
        return moved;
    }
    false
}

/// What moving on from a question leads to.
pub enum UserInputStep {
    /// Nothing is asked, or the question on screen has no answer yet.
    Ignored,
    /// The next question is on screen.
    Next,
    /// The answers are sent.
    Send { request_id: String, answers: Vec<UserInputAnswer> },
}

/// Where moving on from a round of questions leads.
pub open spec fn advance_of(pending: Option<UserInputView>) -> Option<Advance> {
    match pending {
        Some(pending) => match pending.current() {
            None => None,
            Some(question) => if !pending.answered(question) {
                None
            } else if pending.question_index + 1 < pending.questions.len() {
                Some(Advance::Next)
            } else {
                Some(Advance::Submit)
            },
        },
        None => None,
    }
}

/// The session after the user moved on: it goes on once every question has
/// an answer.
pub open spec fn advanced_session(session: SessionView, runtime: RuntimeView) -> SessionView {
    if advance_of(runtime.pending_user_input) == Some(Advance::Submit) {
        SessionView { status: SessionStatus::Working, ..session }
    } else {
        session
    }
}

/// The runtime after the user moved on: the next question is on screen, or
/// none is any longer.
pub open spec fn advanced_runtime(runtime: RuntimeView) -> RuntimeView {
    match advance_of(runtime.pending_user_input) {
        Some(Advance::Next) => RuntimeView {
            pending_user_input: Some(
                UserInputView {
                    question_index: (runtime.pending_user_input->0.question_index + 1) as usize,
                    ..runtime.pending_user_input->0
                },
            ),
            ..runtime
        },
        Some(Advance::Submit) => RuntimeView { pending_user_input: None, ..runtime },
        _ => runtime,
    }
}

/// Whether this is what moving on leads to: the answers, in the order of the
/// questions, once every question has been passed.
pub open spec fn leads_to(pending: Option<UserInputView>, step: UserInputStep) -> bool {
    match advance_of(pending) {
        Some(Advance::Next) => step is Next,
        Some(Advance::Submit) => {
            &&& step matches UserInputStep::Send { request_id, answers }
            &&& request_id@ == pending->0.request_id
            &&& answers@.len() == pending->0.questions.len()
            &&& forall|i: int|
                0 <= i < answers@.len() ==> (#[trigger] answers@[i]).question_id@
                    == pending->0.questions[i].id@ && text::texts_view(answers@[i].answers@)
                    == pending->0.answer(pending->0.questions[i].id@)
        },
        _ => step is Ignored,
    }
}

/// The user moves on from the question on screen: to the next one, or, after
/// the last, by sending every answer in the order of the questions; the agent
/// then goes on.
pub fn advance_user_input(session: &mut AgentSession, runtime: &mut SessionRuntime) -> (step:
    UserInputStep)
    requires
        old(runtime).wf(),
    ensures
        final(runtime).wf(),
        leads_to(old(runtime)@.pending_user_input, step),
        final(session)@ == advanced_session(old(session)@, old(runtime)@),
        final(runtime)@ == advanced_runtime(old(runtime)@),
{
    if let Some(mut pending) = runtime.pending_user_input.take() {
        match pending.advance() {
            Advance::Unanswered => {
                runtime.pending_user_input = Some(pending);
                UserInputStep::Ignored
            },
            Advance::Next => {
                runtime.pending_user_input = Some(pending);
                UserInputStep::Next
            },
            Advance::Submit => {
                let answers = pending.answers();
                session.status = SessionStatus::Working;
                UserInputStep::Send { request_id: pending.request_id, answers }
            },
        }
    } else {
        UserInputStep::Ignored
    }
}

/// The runtime after the user typed a text for the question on screen.
pub open spec fn typed_runtime(runtime: RuntimeView, answer: Seq<char>) -> RuntimeView {
    RuntimeView {
        pending_user_input: match runtime.pending_user_input {
            Some(pending) => Some(pending.typed(answer)),
            None => None,
        },
        ..runtime
    }
}

/// The user sends a text of their own for the question on screen: a blank
/// one is left alone, any other is taken and moved on from.
pub fn submit_user_input_custom_answer(
    session: &mut AgentSession,
    runtime: &mut SessionRuntime,
    answer: String,
) -> (step: UserInputStep)
    requires
        old(runtime).wf(),
    ensures
        final(runtime).wf(),
        if text::blank(answer@) {
            step is Ignored && final(session)@ == old(session)@ && final(runtime)@ == old(runtime)@
        } else {
            let typed = typed_runtime(old(runtime)@, answer@);
            &&& leads_to(typed.pending_user_input, step)
            &&& final(session)@ == advanced_session(old(session)@, typed)
            &&& final(runtime)@ == advanced_runtime(typed)
        },
{
    if text::is_blank(answer.as_str()) {
        return UserInputStep::Ignored;
    }
    update_user_input_custom_answer(runtime, answer);
    advance_user_input(session, runtime)
}

/// An application that the user lets every agent control.
pub struct AppGrant {
    pub bundle_id: String,
    pub app_name: String,
    pub key: String,
}

/// Whether the user already lets every agent control an application.
pub open spec fn has_grant(grants: Seq<AppGrant>, key: Seq<char>) -> bool {
    exists|i: int| 0 <= i < grants.len() && (#[trigger] grants[i]).key@ == key
}

fn grant_exists(grants: &Vec<AppGrant>, key: &str) -> (found: bool)
    ensures
        found == has_grant(grants@, key@),
{
    let mut i: usize = 0;
    while i < grants.len()
        invariant
            i <= grants@.len(),
            forall|k: int| 0 <= k < i ==> (#[trigger] grants@[k]).key@ != key@,
        decreases grants@.len() - i,
    {
        if text::same(grants[i].key.as_str(), key) {
            return true;
        }
        i += 1;
    }
    false
}

/// What the driver is told about the control of an application.
pub enum ComputerReply {
    /// Nothing was asked.
    Nothing,
    /// The agent may not: with the reason it is given.
    Reject { request: String, reason: String },
    /// The agent may, in this session under the key; whether the consent is
    /// to be saved for good.
    Run { request: String, grant_key: String, save: bool },
}

/// Whether consent is kept for good: where the user said so, the application
/// can be recognised again and has not been allowed before.
pub open spec fn keeps_grant(
    pending: PendingComputerApproval,
    grants: Seq<AppGrant>,
    decision: Seq<char>,
) -> bool {
    decision == "always"@ && pending.target.persistable && !has_grant(
        grants,
        pending.target.grant_key@,
    )
}

/// Answer a request to control an application.
pub fn respond_computer_permission(
    session: &mut AgentSession,
    runtime: &mut SessionRuntime,
    grants: &mut Vec<AppGrant>,
    decision: &str,
) -> (reply: ComputerReply)
    requires
        old(runtime).wf(),
    ensures
        final(runtime).wf(),
        match old(runtime).pending_computer_approval {
            None => reply is Nothing && final(session)@ == old(session)@ && final(runtime)@ == old(runtime)@ && final(grants)@ == old(grants)@,
            Some(pending) => {
                &&& final(session)@ == (SessionView {
                    status: SessionStatus::Working,
                    ..old(session)@
                })
                &&& final(runtime)@ == (RuntimeView {
                    pending_computer_approval: None,
                    ..old(runtime)@
                })
                &&& if decision@ == "deny"@ {
                    &&& reply matches ComputerReply::Reject { request, reason }
                    &&& request == pending.request
                    &&& reason@ == "The user denied control of this app."@
                    &&& final(grants)@ == old(grants)@
                } else {
                    let keep = keeps_grant(pending, old(grants)@, decision@);
                    &&& reply matches ComputerReply::Run { request, grant_key, save }
                    &&& request == pending.request
                    &&& grant_key@ == pending.target.grant_key@
                    &&& save == keep
                    &&& final(grants)@ == (if keep {
                        old(grants)@.push(
                            AppGrant {
                                bundle_id: pending.target.bundle_id,
                                app_name: pending.target.app_name,
                                key: pending.target.grant_key,
                            },
                        )
                    } else {
                        old(grants)@
                    })
                }
            },
        },
{
    let pending = match runtime.pending_computer_approval.take() {
        Some(pending) => pending,
        None => {
            return ComputerReply::Nothing;
        },
    };
    session.status = SessionStatus::Working;
    if text::same(decision, "deny") {
        return ComputerReply::Reject {
            request: pending.request,
            reason: text::owned("The user denied control of this app."),
        };
    }
    let grant_key = pending.target.grant_key.clone();
    let mut save: bool = false;
    if text::same(decision, "always") && pending.target.persistable && !grant_exists(
        grants,
        pending.target.grant_key.as_str(),
    ) {
        save = true;
        grants.push(
            AppGrant {
                bundle_id: pending.target.bundle_id,
                app_name: pending.target.app_name,
                key: pending.target.grant_key,
            },
        );
    }
    ComputerReply::Run { request: pending.request, grant_key, save }
}

/// Bring an application's preview to the front, which is the end of the list.
pub fn bring_computer_use_to_front(previews: &mut Vec<ComputerUsePreview>, window_id: u32)
    ensures
        final(previews)@ == ({
            let at = events::preview_of(old(previews)@, window_id);
            if at >= 0 {
                old(previews)@.remove(at).push(old(previews)@[at])
            } else {
                old(previews)@
            }
        }),
{
    if let Some(i) = events::find_preview(previews, window_id) {
        let preview = previews.remove(i);
        previews.push(preview);
    }
}

/// The previews that do not show a window.
pub open spec fn dismissed(previews: Seq<ComputerUsePreview>, window_id: u32) -> Seq<
    ComputerUsePreview,
>
    decreases previews.len(),
{
    if previews.len() == 0 {
        previews
    } else if events::shows_window(previews[0], window_id) {
        dismissed(previews.skip(1), window_id)
    } else {
        seq![previews[0]] + dismissed(previews.skip(1), window_id)
    }
}

/// Take every preview of a window away.
pub fn dismiss_computer_use(previews: &mut Vec<ComputerUsePreview>, window_id: u32)
    ensures
        final(previews)@ == dismissed(old(previews)@, window_id),
{
    let ghost before = previews@;
    let mut i: usize = 0;
    let ghost mut passed: int = 0;
    assert(before.skip(0) =~= before);
    assert(previews@.take(0) + dismissed(before, window_id) =~= dismissed(before, window_id));
    while i < previews.len()
        invariant
            i <= previews@.len(),
            0 <= passed <= before.len(),
            previews@.skip(i as int) == before.skip(passed),
            previews@.take(i as int) + dismissed(before.skip(passed), window_id) == dismissed(
                before,
                window_id,
            ),
        decreases previews@.len() - i,
    {
        let shown = match &previews[i].target {
            Some(target) => target.window_id == window_id,
            None => false,
        };
        let ghost rest = before.skip(passed);
        let ghost here = previews@;
        assert(rest[0] == here.skip(i as int)[0]);
        assert(rest[0] == here[i as int]);
        assert(rest.len() == here.len() - i);
        assert(rest.skip(1) =~= before.skip(passed + 1));
        if shown {
            previews.remove(i);
            assert(previews@.skip(i as int) =~= here.skip(i as int).skip(1));
            assert(previews@.take(i as int) =~= here.take(i as int));
        } else {
            assert(here.take(i as int) + (seq![rest[0]] + dismissed(rest.skip(1), window_id))
                =~= here.take(i + 1) + dismissed(rest.skip(1), window_id));
            assert(here.skip(i + 1) =~= here.skip(i as int).skip(1));
            i += 1;
        }
        proof {
            passed = passed + 1;
        }
    }
    assert(previews@.take(i as int) =~= previews@);
    assert(previews@.skip(i as int).len() == 0);
    assert(before.skip(passed).len() == 0);
    assert(dismissed(before.skip(passed), window_id).len() == 0);
    assert(previews@ + dismissed(before.skip(passed), window_id) =~= previews@);
}

// ── What is still arriving ─────────────────────────────────────────────────

/// The assistant's messages that are still arriving.
pub open spec fn arriving_messages(messages: Seq<MessageView>, n: int) -> Seq<Id>
    decreases n,
{
    if n <= 0 {
        Seq::empty()
    } else {
        let above = arriving_messages(messages, n - 1);
        if messages[n - 1].role == MessageRole::Assistant && messages[n - 1].streaming {
            above.push(messages[n - 1].id)
        } else {
            above
        }
    }
}

/// The assistant's messages that are still arriving when a task is opened:
/// what they hold already is not shown anew.
pub fn streaming_message_ids(session: &AgentSession) -> (ids: Vec<Id>)
    ensures
        ids@ == arriving_messages(session@.messages, session@.messages.len() as int),
{
    let ghost views = session@.messages;
    let mut ids: Vec<Id> = Vec::new();
    let mut i: usize = 0;
    assert(views.len() == session.messages@.len());
    while i < session.messages.len()
        invariant
            i <= session.messages@.len(),
            views == session@.messages,
            ids@ == arriving_messages(views, i as int),
        decreases session.messages@.len() - i,
    {
        let message = &session.messages[i];
        assert(views[i as int] == message@);
        if message.role == MessageRole::Assistant && message.streaming {
            ids.push(message.id);
        }
        i += 1;
    }
    ids
}

/// The first `n` steps of thought that are still going on.
pub open spec fn live_steps(activities: Seq<ActivityView>, n: int) -> Seq<Id>
    decreases n,
{
    if n <= 0 {
        Seq::empty()
    } else {
        let above = live_steps(activities, n - 1);
        if activities[n - 1].reasoning is Some && !activities[n - 1].complete {
            above.push(activities[n - 1].id)
        } else {
            above
        }
    }
}

/// The steps of thought in the first `n` blocks that are still going on.
pub open spec fn live_thoughts(blocks: Seq<BlockView>, n: int) -> Seq<Id>
    decreases n,
{
    if n <= 0 {
        Seq::empty()
    } else {
        live_thoughts(blocks, n - 1) + live_steps(
            blocks[n - 1].activities,
            blocks[n - 1].activities.len() as int,
        )
    }
}

/// The steps of thought that are still going on when a task is opened.
pub fn live_reasoning_ids(session: &AgentSession) -> (ids: Vec<Id>)
    ensures
        ids@ == live_thoughts(session@.blocks, session@.blocks.len() as int),
{
    let ghost blocks = session@.blocks;
    let mut ids: Vec<Id> = Vec::new();
    let mut i: usize = 0;
    assert(blocks.len() == session.transcript_blocks@.len());
    while i < session.transcript_blocks.len()
        invariant
            i <= session.transcript_blocks@.len(),
            blocks == session@.blocks,
            ids@ == live_thoughts(blocks, i as int),
        decreases session.transcript_blocks@.len() - i,
    {
        let block = &session.transcript_blocks[i];
        assert(blocks[i as int] == block@);
        let ghost above = ids@;
        let ghost steps = block@.activities;
        let mut j: usize = 0;
        assert(steps.len() == block.activities@.len());
        assert(above + Seq::<Id>::empty() =~= above);
        while j < block.activities.len()
            invariant
                j <= block.activities@.len(),
                steps == block@.activities,
                ids@ == above + live_steps(steps, j as int),
            decreases block.activities@.len() - j,
        {
            let activity = &block.activities[j];
            assert(steps[j as int] == activity@);
            if activity.reasoning.is_some() && !activity.complete {
                ids.push(activity.id);
                assert(ids@ =~= above + live_steps(steps, j + 1));
            }
            j += 1;
        }
        i += 1;
    }
    ids
}

// ── The window's frame ─────────────────────────────────────────────────────

/// Where a window lies.
#[derive(Clone, Copy, Debug, PartialEq, Eq, Structural)]
pub struct Frame {
    pub x: Length,
    pub y: Length,
    pub width: Length,
    pub height: Length,
}

/// How the system shows a window.
#[derive(Clone, Copy, Debug, PartialEq, Eq, Structural)]
pub enum WindowBounds {
    Fullscreen(Frame),
    Maximized(Frame),
    Windowed(Frame),
}

/// How a window is opened the next time.
#[derive(Clone, Copy, Debug, PartialEq, Eq, Structural)]
pub struct PersistedWindowState {
    pub frame: Frame,
    pub maximized: bool,
    pub display: Option<Id>,
}

/// How the window is opened the next time. Only a window in front is
/// captured, since the system moves others. A zoomed or fullscreen window
/// keeps the last floating frame and the display it was on.
pub fn capture_window_state(
    previous: Option<PersistedWindowState>,
    active: bool,
    bounds: WindowBounds,
    zoomed: bool,
    display: Option<Id>,
) -> (captured: Option<PersistedWindowState>)
    ensures
        captured == if !active {
            previous
        } else {
            match bounds {
                WindowBounds::Fullscreen(frame) => match previous {
                    Some(previous) => Some(previous),
                    None => Some(PersistedWindowState { frame, maximized: false, display }),
                },
                WindowBounds::Maximized(frame) => Some(
                    PersistedWindowState { frame, maximized: true, display },
                ),
                WindowBounds::Windowed(frame) => if zoomed {
                    match previous {
                        Some(previous) => Some(
                            PersistedWindowState { maximized: true, ..previous },
                        ),
                        None => Some(PersistedWindowState { frame, maximized: true, display }),
                    }
                } else {
                    Some(PersistedWindowState { frame, maximized: false, display })
                },
            }
        },
{
    if !active {
        return previous;
    }
    match bounds {
        WindowBounds::Fullscreen(frame) => match previous {
            Some(previous) => Some(previous),
            None => Some(PersistedWindowState { frame, maximized: false, display }),
        },
        WindowBounds::Maximized(frame) => Some(
            PersistedWindowState { frame, maximized: true, display },
        ),
        WindowBounds::Windowed(frame) => {
            if zoomed {
                match previous {
                    Some(previous) => Some(PersistedWindowState { maximized: true, ..previous }),
                    None => Some(PersistedWindowState { frame, maximized: true, display }),
                }
            } else {
                Some(PersistedWindowState { frame, maximized: false, display })
            }
        },
    }
}

} // verus!
