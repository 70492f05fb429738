//! What a provider's events are for: what each of them leaves of the session
//! and its runtime, and which of the application's duties follow from it.
use crate::analytics::TurnOutcome;
use crate::events;
use crate::events::{BackgroundWorkStatus, DriverEvent, EffectView, EventContext, RuntimeView};
use crate::i18n;
use crate::model::{Id, MessageRole, MessageView, SessionStatus, TurnStatus};
use crate::session;
use crate::session::{SessionView, SubmissionView};
use crate::streaming;
use crate::text;
use vstd::prelude::*;

verus! {

broadcast use {
    vstd::seq_lib::lemma_seq_concat_contains_all_elements,
    vstd::seq_lib::lemma_seq_contains_after_push,
    vstd::seq_lib::lemma_seq_empty_contains_nothing,
};

/// Whether a turn runs: the last one does.
pub open spec fn running(session: SessionView) -> bool {
    session.turns.len() > 0 && session.turns.last().status == TurnStatus::Running
}

/// Whether a turn runs whose output is expected.
pub open spec fn producing(ctx: EventContext, session: SessionView) -> bool {
    running(session) && !ctx.preparing && session.status != SessionStatus::Idle && session.status
        != SessionStatus::Failed
}

/// Whether somebody spoke in the running turn.
pub open spec fn spoke(session: SessionView, role: MessageRole) -> bool {
    exists|i: int|
        0 <= i < session.messages.len() && (#[trigger] session.messages[i]).role == role
            && session.messages[i].turn_id == Some(session.turns.last().id)
}

/// Whether the messages stay, but for the mark of those that still receive
/// text.
pub open spec fn same_words(before: Seq<MessageView>, after: Seq<MessageView>) -> bool {
    &&& after.len() >= before.len()
    &&& forall|i: int|
        0 <= i < before.len() ==> #[trigger] after[i] == (MessageView {
            streaming: after[i].streaming,
            ..before[i]
        })
}

/// Whether nothing of a session goes on any more: no message of the assistant
/// receives text, and every step is over.
pub open spec fn quiet(session: SessionView) -> bool {
    &&& forall|i: int|
        0 <= i < session.messages.len() && (#[trigger] session.messages[i]).role
            == MessageRole::Assistant ==> !session.messages[i].streaming
    &&& forall|b: int, a: int|
        0 <= b < session.blocks.len() && 0 <= a < session.blocks[b].activities.len()
            ==> #[trigger] session.blocks[b].activities[a].complete
}

// ── The end of a turn ──────────────────────────────────────────────────────

/// The next queued message starts after a turn that went well, where queued
/// messages may start, and never after one that failed or where none ran.
pub proof fn a_good_ending_starts_the_next_message(
    ctx: EventContext,
    entries: Seq<(Seq<char>, Seq<char>)>,
    expanded: Set<Id>,
    session: SessionView,
    runtime: RuntimeView,
    success: bool,
    summary: Option<String>,
)
    ensures
        events::event_outcome(
            ctx,
            entries,
            expanded,
            session,
            runtime,
            DriverEvent::TurnFinished { success, summary },
        ).effects.contains(EffectView::DrainQueue) <==> (running(session)
            && ctx.allow_queue_drain && success),
{
    an_ended_turn_is_followed_up(
        ctx,
        entries,
        expanded,
        session,
        runtime,
        success,
        summary,
        EffectView::DrainQueue,
    );
}

/// What follows the end of a turn: the foreground's work ends as the turn did,
/// which is reported; the workspace on screen is read again, the turn's changes
/// are recorded, and a turn that went well is looked through for facts. A user
/// who looks elsewhere is told. Where no turn ran, only the work is settled.
pub proof fn an_ended_turn_is_followed_up(
    ctx: EventContext,
    entries: Seq<(Seq<char>, Seq<char>)>,
    expanded: Set<Id>,
    session: SessionView,
    runtime: RuntimeView,
    success: bool,
    summary: Option<String>,
    effect: EffectView,
)
    ensures
        ({
            let follows = events::event_outcome(
                ctx,
                entries,
                expanded,
                session,
                runtime,
                DriverEvent::TurnFinished { success, summary },
            ).effects.contains(effect);
            match effect {
                EffectView::SettleForegroundWork(work) => follows <==> work == if success {
                    BackgroundWorkStatus::Completed
                } else {
                    BackgroundWorkStatus::Failed
                },
                EffectView::PlanUsageStale(provider) => follows <==> ctx.meters_plan_usage
                    && provider == session.provider,
                EffectView::TrackTurn(told) => follows <==> running(session) && told == if success {
                    TurnOutcome::Completed
                } else {
                    TurnOutcome::Failed
                },
                EffectView::CancelComputerUse => follows <==> running(session),
                EffectView::RefreshBackgroundWork => follows <==> running(session),
                EffectView::CaptureCheckpoint => follows <==> running(session),
                EffectView::WorkspaceQueriesStale => follows <==> running(session)
                    && ctx.selected,
                EffectView::ExtractMemory => follows <==> running(session) && success,
                EffectView::DrainQueue => follows <==> running(session) && success
                    && ctx.allow_queue_drain,
                EffectView::SpliceRows(_) => follows ==> running(session) && ctx.selected,
                EffectView::Notify { title, body } => follows <==> {
                    &&& running(session) && !ctx.window_active
                    &&& title == match session.title {
                        Some(title) => title,
                        None => i18n::plain(entries, "session.new_task"@),
                    }
                    &&& body == i18n::plain(
                        entries,
                        if success {
                            "session.turn_completed"@
                        } else {
                            "session.stopped"@
                        },
                    )
                },
                _ => !follows,
            }
        }),
{
    let active = RuntimeView { last_active_at: ctx.now_ms, ..runtime };
    let said = text::text_view(summary);
    assert(events::event_outcome(
        ctx,
        entries,
        expanded,
        session,
        runtime,
        DriverEvent::TurnFinished { success, summary },
    ) == events::turn_ended(ctx, entries, expanded, session, active, success, said));
    lemma_effects_of_an_ending(ctx, entries, expanded, session, active, success, said, effect);
}

proof fn lemma_effects_of_an_ending(
    ctx: EventContext,
    entries: Seq<(Seq<char>, Seq<char>)>,
    expanded: Set<Id>,
    session: SessionView,
    runtime: RuntimeView,
    success: bool,
    summary: Option<Seq<char>>,
    effect: EffectView,
)
    ensures
        ({
            let settle = EffectView::SettleForegroundWork(
                if success {
                    BackgroundWorkStatus::Completed
                } else {
                    BackgroundWorkStatus::Failed
                },
            );
            let track = EffectView::TrackTurn(
                if success {
                    TurnOutcome::Completed
                } else {
                    TurnOutcome::Failed
                },
            );
            let notice = EffectView::Notify {
                title: events::shown_title(entries, session),
                body: i18n::plain(
                    entries,
                    if success {
                        "session.turn_completed"@
                    } else {
                        "session.stopped"@
                    },
                ),
            };
            let stale = EffectView::PlanUsageStale(session.provider);
            let follows = events::turn_ended(
                ctx,
                entries,
                expanded,
                session,
                runtime,
                success,
                summary,
            ).effects.contains(effect);
            !(effect is SpliceRows) ==> (follows <==> effect == settle || (effect == stale
                && ctx.meters_plan_usage) || (session.active_turn() is Some && (effect == track
                || effect is CancelComputerUse || (effect is WorkspaceQueriesStale && ctx.selected)
                || effect is RefreshBackgroundWork || effect is CaptureCheckpoint || (
            effect is ExtractMemory && success) || (effect is DrainQueue && ctx.allow_queue_drain
                && success) || (effect == notice && !ctx.window_active))))
        }),
        effect is SpliceRows && events::turn_ended(
            ctx,
            entries,
            expanded,
            session,
            runtime,
            success,
            summary,
        ).effects.contains(effect) ==> session.active_turn() is Some && ctx.selected,
{
    let settle = EffectView::SettleForegroundWork(
        if success {
            BackgroundWorkStatus::Completed
        } else {
            BackgroundWorkStatus::Failed
        },
    );
    let track = EffectView::TrackTurn(
        if success {
            TurnOutcome::Completed
        } else {
            TurnOutcome::Failed
        },
    );
    let notice = EffectView::Notify {
        title: events::shown_title(entries, session),
        body: i18n::plain(
            entries,
            if success {
                "session.turn_completed"@
            } else {
                "session.stopped"@
            },
        ),
    };
    let stale = EffectView::PlanUsageStale(session.provider);
    let after = events::finished_session(ctx, entries, session, success, summary);
    let splices = events::splice_effects(ctx.selected, expanded, session, after);
    lemma_splices_only(ctx.selected, expanded, session, after, effect);
    lemma_first_list(settle, ctx.meters_plan_usage, stale, effect);
    lemma_ending_list(
        seq![settle] + events::when(ctx.meters_plan_usage, stale),
        track,
        ctx.selected,
        success,
        ctx.allow_queue_drain,
        splices,
        !ctx.window_active,
        notice,
        effect,
    );
}

proof fn lemma_splices_only(
    selected: bool,
    expanded: Set<Id>,
    before: SessionView,
    after: SessionView,
    effect: EffectView,
)
    ensures
        events::splice_effects(selected, expanded, before, after).contains(effect) ==> effect
            is SpliceRows && selected,
{
}

proof fn lemma_first_list(settle: EffectView, metered: bool, stale: EffectView, effect: EffectView)
    ensures
        (seq![settle] + events::when(metered, stale)).contains(effect) <==> effect == settle || (
        metered && effect == stale),
{
}

proof fn lemma_ending_list(
    first: Seq<EffectView>,
    track: EffectView,
    selected: bool,
    success: bool,
    allowed: bool,
    splices: Seq<EffectView>,
    away: bool,
    notice: EffectView,
    effect: EffectView,
)
    ensures
        (first + seq![track] + seq![EffectView::CancelComputerUse] + events::when(
            selected,
            EffectView::WorkspaceQueriesStale,
        ) + seq![EffectView::RefreshBackgroundWork] + seq![EffectView::CaptureCheckpoint]
            + events::when(success, EffectView::ExtractMemory) + events::when(
            allowed && success,
            EffectView::DrainQueue,
        ) + splices + events::when(away, notice)).contains(effect) <==> {
            ||| first.contains(effect)
            ||| effect == track
            ||| effect is CancelComputerUse
            ||| selected && effect is WorkspaceQueriesStale
            ||| effect is RefreshBackgroundWork
            ||| effect is CaptureCheckpoint
            ||| success && effect is ExtractMemory
            ||| allowed && success && effect is DrainQueue
            ||| splices.contains(effect)
            ||| away && effect == notice
        },
{
}

/// How a turn ends: as well as the provider says, now. The session rests or has
/// failed with it, nothing goes on or waits for the user, everything that was
/// said stays, and what is queued stays queued. Where the assistant said
/// nothing, one message closes the turn, with the provider's summary if there
/// is one.
pub proof fn an_ended_turn_is_closed(
    ctx: EventContext,
    entries: Seq<(Seq<char>, Seq<char>)>,
    expanded: Set<Id>,
    session: SessionView,
    runtime: RuntimeView,
    success: bool,
    summary: Option<String>,
)
    requires
        running(session),
    ensures
        ({
            let outcome = events::event_outcome(
                ctx,
                entries,
                expanded,
                session,
                runtime,
                DriverEvent::TurnFinished { success, summary },
            );
            let after = outcome.session;
            let count = session.messages.len() as int;
            let turn = session.turns.last();
            &&& outcome.keep
            &&& after.turns.len() == session.turns.len()
            &&& after.turns.drop_last() == session.turns.drop_last()
            &&& after.turns.last().id == turn.id
            &&& after.turns.last().checkpoint == turn.checkpoint
            &&& after.turns.last().status == if success {
                TurnStatus::Completed
            } else {
                TurnStatus::Failed
            }
            &&& after.turns.last().completed_at == Some(ctx.now)
            &&& after.status == if success {
                SessionStatus::Idle
            } else {
                SessionStatus::Failed
            }
            &&& quiet(after)
            &&& same_words(session.messages, after.messages)
            &&& after.queued_messages == session.queued_messages
            &&& spoke(session, MessageRole::Assistant) ==> after.messages.len() == count
            &&& !spoke(session, MessageRole::Assistant) ==> {
                &&& after.messages.len() == count + 1
                &&& after.messages[count].role == MessageRole::Assistant
                &&& after.messages[count].turn_id == Some(turn.id)
                &&& summary matches Some(summary) ==> after.messages[count].content == summary@
                &&& summary is None ==> after.messages[count].content == i18n::plain(
                    entries,
                    if success {
                        "session.turn_completed"@
                    } else {
                        "session.stopped_before_response"@
                    },
                )
            }
            &&& outcome.runtime.last_driver_error is None
            &&& outcome.runtime.stream_phase is None
            &&& outcome.runtime.pending_permission is None
            &&& outcome.runtime.pending_user_input is None
            &&& outcome.runtime.pending_computer_approval is None
            &&& outcome.runtime.previews.len() == 0
            &&& !outcome.runtime.park_announced
            &&& outcome.runtime.pending_steers == runtime.pending_steers
        }),
{
    let after = events::event_outcome(
        ctx,
        entries,
        expanded,
        session,
        runtime,
        DriverEvent::TurnFinished { success, summary },
    ).session;
    assert(after.turns.drop_last() =~= session.turns.drop_last());
}

/// The end of a turn that is already over changes nothing in the session.
pub proof fn a_turn_ends_once(
    ctx: EventContext,
    entries: Seq<(Seq<char>, Seq<char>)>,
    expanded: Set<Id>,
    session: SessionView,
    runtime: RuntimeView,
    success: bool,
    summary: Option<String>,
)
    requires
        !running(session),
    ensures
        events::event_outcome(
            ctx,
            entries,
            expanded,
            session,
            runtime,
            DriverEvent::TurnFinished { success, summary },
        ).session == session,
{
}

// ── Messages sent into a turn ──────────────────────────────────────────────

/// Whether an acknowledgement is about the waiting message at a place: the
/// first with its text, or the oldest where none has it.
pub open spec fn acknowledges(steers: Seq<SubmissionView>, message: Seq<char>, at: int) -> bool {
    &&& 0 <= at < steers.len()
    &&& ({
        ||| steers[at].prompt == message && forall|k: int|
            0 <= k < at ==> (#[trigger] steers[k]).prompt != message
        ||| at == 0 && forall|k: int|
            0 <= k < steers.len() ==> (#[trigger] steers[k]).prompt != message
    })
}

pub(crate) proof fn lemma_steer_with(steers: Seq<SubmissionView>, message: Seq<char>)
    ensures
        ({
            let at = events::steer_with(steers, message);
            &&& -1 <= at < steers.len()
            &&& at >= 0 ==> steers[at].prompt == message && forall|k: int|
                0 <= k < at ==> (#[trigger] steers[k]).prompt != message
            &&& at < 0 ==> forall|k: int|
                0 <= k < steers.len() ==> (#[trigger] steers[k]).prompt != message
        }),
    decreases steers.len(),
{
    if steers.len() > 0 {
        let rest = steers.skip(1);
        lemma_steer_with(rest, message);
        assert forall|k: int| 0 < k < steers.len() implies #[trigger] steers[k] == rest[k - 1] by {}
    }
}

/// A message that the provider took into the running turn stands in the
/// transcript, behind everything said before, as the user's and in that turn,
/// with what the composer kept of it; it no longer waits, and the others do.
pub proof fn an_accepted_steer_joins_the_turn(
    ctx: EventContext,
    entries: Seq<(Seq<char>, Seq<char>)>,
    expanded: Set<Id>,
    session: SessionView,
    runtime: RuntimeView,
    message: String,
    at: int,
)
    requires
        runtime.pending_steers.len() > 0 ==> acknowledges(runtime.pending_steers, message@, at),
    ensures
        ({
            let outcome = events::event_outcome(
                ctx,
                entries,
                expanded,
                session,
                runtime,
                DriverEvent::SteerAccepted { message },
            );
            let after = outcome.session.messages;
            let count = session.messages.len() as int;
            &&& after.len() == count + 1
            &&& after.take(count) == session.messages
            &&& after[count].id == ctx.fresh_id
            &&& after[count].role == MessageRole::User
            &&& after[count].content == message@
            &&& after[count].turn_id == if running(session) {
                Some(session.turns.last().id)
            } else {
                None
            }
            &&& !after[count].streaming
            &&& after[count].created_at == ctx.now
            &&& runtime.pending_steers.len() > 0 ==> {
                &&& after[count].display_content == runtime.pending_steers[at].display_content
                &&& after[count].attachments == runtime.pending_steers[at].attachments
                &&& outcome.runtime.pending_steers == runtime.pending_steers.remove(at)
            }
            &&& runtime.pending_steers.len() == 0 ==> {
                &&& after[count].display_content is None
                &&& after[count].attachments.len() == 0
                &&& outcome.runtime.pending_steers.len() == 0
            }
            &&& outcome.session.turns == session.turns
            &&& outcome.session.status == session.status
            &&& outcome.session.queued_messages == session.queued_messages
            &&& outcome.effects.len() == 0
            &&& outcome.keep
        }),
{
    lemma_steer_with(runtime.pending_steers, message@);
    let after = events::event_outcome(
        ctx,
        entries,
        expanded,
        session,
        runtime,
        DriverEvent::SteerAccepted { message },
    ).session.messages;
    assert(after.take(session.messages.len() as int) =~= session.messages);
}

/// A message that the provider refused is not lost: while the session is busy,
/// or where its last turn did not go well, it is queued as a follow-up; where
/// the turn has gone well it stands at the head of the queue, which starts
/// where queued messages may. It no longer waits, the others do, and the
/// transcript does not show it.
pub proof fn a_refused_steer_is_not_lost(
    ctx: EventContext,
    entries: Seq<(Seq<char>, Seq<char>)>,
    expanded: Set<Id>,
    session: SessionView,
    runtime: RuntimeView,
    message: String,
    reason: String,
    at: int,
    other: SubmissionView,
)
    requires
        runtime.pending_steers.len() > 0 ==> acknowledges(runtime.pending_steers, message@, at),
    ensures
        ({
            let outcome = events::event_outcome(
                ctx,
                entries,
                expanded,
                session,
                runtime,
                DriverEvent::SteerRejected { message, reason },
            );
            let waits = runtime.pending_steers;
            let busy = session.status != SessionStatus::Idle && session.status
                != SessionStatus::Failed;
            let well = session.turns.len() > 0 && session.turns.last().status
                == TurnStatus::Completed;
            let follow_up = EffectView::EnqueueFollowUp(other);
            let is_it = if waits.len() > 0 {
                other == waits[at]
            } else {
                other.prompt == message@ && other.display_content is None
                    && other.attachments.len() == 0
            };
            &&& outcome.session.messages == session.messages
            &&& outcome.session.turns == session.turns
            &&& outcome.session.status == session.status
            &&& waits.len() > 0 ==> outcome.runtime.pending_steers == waits.remove(at)
            &&& waits.len() == 0 ==> outcome.runtime.pending_steers.len() == 0
            &&& busy || !well ==> {
                &&& outcome.effects.contains(follow_up) <==> is_it
                &&& outcome.session.queued_messages == session.queued_messages
                &&& !outcome.effects.contains(EffectView::DrainQueue)
            }
            &&& !busy && well ==> {
                &&& !outcome.effects.contains(follow_up)
                &&& outcome.session.queued_messages.len() == session.queued_messages.len() + 1
                &&& is_it <==> other == outcome.session.queued_messages[0]
                &&& outcome.session.queued_messages.skip(1) == session.queued_messages
                &&& outcome.effects.contains(EffectView::DrainQueue) <==> ctx.allow_queue_drain
            }
            &&& (exists|toast: Seq<char>| #[trigger]
                outcome.effects.contains(EffectView::ShowToast(toast))) <==> busy && ctx.selected
        }),
{
    lemma_steer_with(runtime.pending_steers, message@);
    let outcome = events::event_outcome(
        ctx,
        entries,
        expanded,
        session,
        runtime,
        DriverEvent::SteerRejected { message, reason },
    );
    let plain = SubmissionView::plain(message@);
    assert(other.prompt == message@ && other.display_content is None && other.attachments.len()
        == 0 ==> other =~= plain) by {
        if other.attachments.len() == 0 {
            assert(other.attachments =~= plain.attachments);
        }
    }
    let busy = session.status != SessionStatus::Idle && session.status != SessionStatus::Failed;
    if !busy && session.turns.len() > 0 && session.turns.last().status == TurnStatus::Completed {
        assert(outcome.session.queued_messages.skip(1) =~= session.queued_messages);
    }
    if busy && ctx.selected {
        let toast = i18n::localized(
            entries,
            "session.steer_rejected"@,
            seq![i18n::argument("error"@, streaming::compact_error(reason@))],
        );
        assert(outcome.effects.contains(EffectView::ShowToast(toast)));
    }
}

} // verus!
