//! What a provider's replies are for: what its words, steps, requests and
//! reports leave of the session and its runtime, said of their fields alone.
use crate::event_laws;
use crate::events;
use crate::events::{
    ComputerUsePreview, DriverEvent, EffectView, EventContext, Outcome, PendingPermission,
    RuntimeView,
};
use crate::i18n;
use crate::model::{
    ActivityItem, ActivityKind, Id, MessageRole, MessageView, ProviderKind, SessionStatus,
    TurnStatus, TurnView,
};
use crate::session;
use crate::session::{ProviderCursor, SessionView, ThreadGoal, TodoItem};
use crate::streaming;
use crate::streaming::StreamPhase;
use crate::streaming_laws;
use crate::text;
use crate::user_input::UserInputQuestion;
use vstd::prelude::*;

verus! {

/// Whether output was taken up: the running turn is known to have started, and
/// a session that was connecting works.
pub open spec fn heard(session: SessionView, after: SessionView) -> bool {
    &&& after.turns.len() == session.turns.len()
    &&& after.turns.drop_last() == session.turns.drop_last()
    &&& after.turns.last() == (TurnView { provider_started: true, ..session.turns.last() })
    &&& after.status == if session.status == SessionStatus::Connecting {
        SessionStatus::Working
    } else {
        session.status
    }
}

/// Whether an event left nothing behind but the time it came.
pub open spec fn ignored(
    ctx: EventContext,
    session: SessionView,
    runtime: RuntimeView,
    outcome: Outcome,
) -> bool {
    &&& outcome.session == session
    &&& outcome.runtime == (RuntimeView { last_active_at: ctx.now_ms, ..runtime })
    &&& outcome.effects.len() == 0
    &&& outcome.keep
}

proof fn lemma_heard(session: SessionView)
    requires
        session.turns.len() > 0,
        session.turns.last().status == TurnStatus::Running,
        session.status != SessionStatus::Idle && session.status != SessionStatus::Failed,
    ensures
        heard(session, streaming::output_accepted(session)),
        streaming::output_accepted(session) == (SessionView {
            turns: streaming::output_accepted(session).turns,
            status: streaming::output_accepted(session).status,
            ..session
        }),
{
    streaming_laws::output_confirms_the_turn(session);
}

// ── The course of a turn ───────────────────────────────────────────────────

/// A connection notes where the provider can be resumed, in the session and in
/// the running turn, puts a connecting session to work and forgets the last
/// error; the work beside the conversation is read again.
pub proof fn a_connection_is_noted(
    ctx: EventContext,
    entries: Seq<(Seq<char>, Seq<char>)>,
    expanded: Set<Id>,
    session: SessionView,
    runtime: RuntimeView,
    provider_cursor: Option<ProviderCursor>,
)
    ensures
        ({
            let outcome = events::event_outcome(
                ctx,
                entries,
                expanded,
                session,
                runtime,
                DriverEvent::Connected { provider_cursor },
            );
            let after = outcome.session;
            let resumes = provider_cursor is Some && provider_cursor->0.resume_at is Some;
            &&& after.status == if session.status == SessionStatus::Connecting {
                SessionStatus::Working
            } else {
                session.status
            }
            &&& after.provider_cursor is Some <==> provider_cursor is Some
            &&& provider_cursor matches Some(cursor) ==> after.provider_cursor->0.value
                == cursor.value@ && after.provider_cursor->0.resume_at == text::text_view(
                cursor.resume_at,
            )
            &&& after.turns.len() == session.turns.len()
            &&& resumes && event_laws::running(session) ==> {
                &&& after.turns.drop_last() == session.turns.drop_last()
                &&& after.turns.last() == (TurnView {
                    provider_resume_at: Some(provider_cursor->0.resume_at->0@),
                    ..session.turns.last()
                })
            }
            &&& !resumes || !event_laws::running(session) ==> after.turns == session.turns
            &&& after == (SessionView {
                status: after.status,
                provider_cursor: after.provider_cursor,
                turns: after.turns,
                ..session
            })
            &&& outcome.runtime == (RuntimeView {
                last_driver_error: None,
                last_active_at: ctx.now_ms,
                last_background_refresh_at: ctx.now_ms,
                ..runtime
            })
            &&& outcome.effects == seq![EffectView::RefreshBackgroundWork]
            &&& outcome.keep
        }),
{
    let after = events::event_outcome(
        ctx,
        entries,
        expanded,
        session,
        runtime,
        DriverEvent::Connected { provider_cursor },
    ).session;
    if event_laws::running(session) {
        assert(after.turns.drop_last() =~= session.turns.drop_last());
    }
    assert(after == SessionView {
        status: after.status,
        provider_cursor: after.provider_cursor,
        turns: after.turns,
        ..session
    });
}

/// A turn that the provider starts is the one that runs; where none runs, a
/// provider that begins turns of its own opens one, and from another nothing
/// comes. The last error is forgotten.
pub proof fn a_started_turn_runs(
    ctx: EventContext,
    entries: Seq<(Seq<char>, Seq<char>)>,
    expanded: Set<Id>,
    session: SessionView,
    runtime: RuntimeView,
)
    ensures
        ({
            let outcome = events::event_outcome(
                ctx,
                entries,
                expanded,
                session,
                runtime,
                DriverEvent::TurnStarted,
            );
            let after = outcome.session;
            let begins = session.provider == ProviderKind::Codex || session.provider
                == ProviderKind::Claude || session.provider == ProviderKind::OpenCode2;
            let runs = event_laws::running(session);
            &&& runs ==> {
                &&& after.turns.len() == session.turns.len()
                &&& after.turns.drop_last() == session.turns.drop_last()
                &&& after.turns.last() == (TurnView {
                    provider_started: true,
                    ..session.turns.last()
                })
                &&& after.started == session.started
                &&& outcome.effects.len() == 0
            }
            &&& !runs && begins ==> {
                &&& after.turns.len() == session.turns.len() + 1
                &&& after.turns.drop_last() == session.turns
                &&& after.turns.last() == (TurnView {
                    id: ctx.fresh_turn,
                    status: TurnStatus::Running,
                    started_at: ctx.now,
                    completed_at: None,
                    provider_started: true,
                    provider_resume_at: None,
                    checkpoint: None,
                })
                &&& after.started
                &&& outcome.effects == seq![EffectView::MarkDirty]
            }
            &&& !runs && !begins ==> after == session && outcome.effects.len() == 0
            &&& runs || begins ==> after.status == SessionStatus::Working
            &&& after == (SessionView {
                turns: after.turns,
                status: after.status,
                started: after.started,
                ..session
            })
            &&& outcome.runtime == (RuntimeView {
                last_driver_error: None,
                last_active_at: ctx.now_ms,
                ..runtime
            })
            &&& outcome.keep
        }),
{
    let after = events::event_outcome(
        ctx,
        entries,
        expanded,
        session,
        runtime,
        DriverEvent::TurnStarted,
    ).session;
    if event_laws::running(session) {
        assert(after.turns.drop_last() =~= session.turns.drop_last());
    } else if after.turns.len() > session.turns.len() {
        assert(after.turns.drop_last() =~= session.turns);
    }
    assert(after == SessionView {
        turns: after.turns,
        status: after.status,
        started: after.started,
        ..session
    });
}

/// A turn that waits for detached work still runs, while its reply and its
/// steps are over. A user who looks elsewhere is told once, of a turn that
/// they began. Where no turn runs nothing happens.
pub proof fn a_parked_turn_waits(
    ctx: EventContext,
    entries: Seq<(Seq<char>, Seq<char>)>,
    expanded: Set<Id>,
    session: SessionView,
    runtime: RuntimeView,
)
    ensures
        ({
            let outcome = events::event_outcome(
                ctx,
                entries,
                expanded,
                session,
                runtime,
                DriverEvent::TurnParked,
            );
            let after = outcome.session;
            let told = exists|title: Seq<char>, body: Seq<char>| #[trigger]
                outcome.effects.contains(EffectView::Notify { title, body });
            &&& !event_laws::running(session) ==> ignored(ctx, session, runtime, outcome)
            &&& event_laws::running(session) ==> {
                &&& after.status == SessionStatus::Background
                &&& after.updated_at == ctx.now
                &&& after.turns == session.turns
                &&& event_laws::quiet(after)
                &&& event_laws::same_words(session.messages, after.messages)
                &&& after.messages.len() == session.messages.len()
                &&& streaming_laws::same_steps(session.blocks, after.blocks)
                &&& after == (SessionView {
                    status: after.status,
                    updated_at: after.updated_at,
                    messages: after.messages,
                    blocks: after.blocks,
                    ..session
                })
                &&& outcome.runtime == (RuntimeView {
                    stream_phase: None,
                    park_announced: true,
                    last_active_at: ctx.now_ms,
                    ..runtime
                })
                &&& outcome.effects.contains(
                    EffectView::SettleForegroundWork(events::BackgroundWorkStatus::Completed),
                )
                &&& !outcome.effects.contains(EffectView::DrainQueue)
                &&& told <==> !ctx.window_active && !runtime.park_announced && event_laws::spoke(
                    session,
                    MessageRole::User,
                )
            }
            &&& outcome.keep
        }),
{
    let outcome = events::event_outcome(
        ctx,
        entries,
        expanded,
        session,
        runtime,
        DriverEvent::TurnParked,
    );
    let after = outcome.session;
    if event_laws::running(session) {
        assert(after == SessionView {
            status: after.status,
            updated_at: after.updated_at,
            messages: after.messages,
            blocks: after.blocks,
            ..session
        });
        let notice = EffectView::Notify {
            title: events::shown_title(entries, session),
            body: i18n::plain(entries, "session.turn_waiting_background"@),
        };
        let splices = events::splice_effects(ctx.selected, expanded, session, after);
        let announce = !ctx.window_active && !runtime.park_announced && event_laws::spoke(
            session,
            MessageRole::User,
        );
        assert(session.active_turn_has(MessageRole::User) == event_laws::spoke(
            session,
            MessageRole::User,
        ));
        assert(outcome.effects == seq![
            EffectView::SettleForegroundWork(events::BackgroundWorkStatus::Completed),
        ] + splices + events::when(announce, notice));
        lemma_parked_effects(outcome.effects, splices, announce, notice);
        if announce {
            assert(outcome.effects.contains(notice));
        }
    }
}

proof fn lemma_parked_effects(
    effects: Seq<EffectView>,
    splices: Seq<EffectView>,
    announce: bool,
    notice: EffectView,
)
    requires
        effects == seq![
            EffectView::SettleForegroundWork(events::BackgroundWorkStatus::Completed),
        ] + splices + events::when(announce, notice),
        splices.len() == 0 || (splices.len() == 1 && splices[0] is SpliceRows),
        notice is Notify,
    ensures
        effects.contains(
            EffectView::SettleForegroundWork(events::BackgroundWorkStatus::Completed),
        ),
        !effects.contains(EffectView::DrainQueue),
        announce ==> effects.contains(notice),
        !announce ==> forall|title: Seq<char>, body: Seq<char>|
            !#[trigger] effects.contains(EffectView::Notify { title, body }),
{
    broadcast use {
        vstd::seq_lib::lemma_seq_concat_contains_all_elements,
        vstd::seq_lib::lemma_seq_contains_after_push,
        vstd::seq_lib::lemma_seq_empty_contains_nothing,
    };

    assert(effects[0] == EffectView::SettleForegroundWork(
        events::BackgroundWorkStatus::Completed,
    ));
    if announce {
        assert(effects[effects.len() - 1] == notice);
    }
}

// ── Words and thoughts ─────────────────────────────────────────────────────

/// Words that arrive where none are expected leave nothing behind. Otherwise
/// they lengthen the message that receives text, where the reply is at words
/// and one does, and open another behind all messages where not; the session
/// is saved with the next save.
pub proof fn words_join_the_reply(
    ctx: EventContext,
    entries: Seq<(Seq<char>, Seq<char>)>,
    expanded: Set<Id>,
    session: SessionView,
    runtime: RuntimeView,
    delta: String,
    at: int,
)
    requires
        -1 <= at < session.messages.len(),
        at >= 0 ==> session.messages[at].role == MessageRole::Assistant
            && session.messages[at].streaming,
        forall|k: int|
            at < k < session.messages.len() ==> !((#[trigger] session.messages[k]).role
                == MessageRole::Assistant && session.messages[k].streaming),
        streaming_laws::numbered(session.blocks),
    ensures
        ({
            let outcome = events::event_outcome(
                ctx,
                entries,
                expanded,
                session,
                runtime,
                DriverEvent::TextDelta(delta),
            );
            let after = outcome.session;
            let count = session.messages.len() as int;
            let lengthens = runtime.stream_phase == Some(StreamPhase::Text) && at >= 0;
            &&& !event_laws::producing(ctx, session) ==> ignored(ctx, session, runtime, outcome)
            &&& event_laws::producing(ctx, session) ==> {
                &&& lengthens ==> after.messages == session.messages.update(
                    at,
                    MessageView {
                        content: session.messages[at].content + delta@,
                        ..session.messages[at]
                    },
                )
                &&& !lengthens ==> {
                    &&& after.messages.len() == count + 1
                    &&& event_laws::same_words(session.messages, after.messages)
                    &&& forall|k: int|
                        0 <= k < count && (#[trigger] after.messages[k]).role
                            == MessageRole::Assistant ==> !after.messages[k].streaming
                    &&& after.messages[count].id == ctx.fresh_id
                    &&& after.messages[count].role == MessageRole::Assistant
                    &&& after.messages[count].content == delta@
                    &&& after.messages[count].turn_id == Some(session.turns.last().id)
                    &&& after.messages[count].created_at == ctx.now
                    &&& after.messages[count].streaming
                }
                &&& heard(session, after)
                &&& streaming_laws::same_steps(session.blocks, after.blocks)
                &&& runtime.stream_phase != Some(StreamPhase::Reasoning) ==> after.blocks
                    == session.blocks
                &&& after.updated_at == ctx.now
                &&& after.queued_messages == session.queued_messages
                &&& outcome.runtime == (RuntimeView {
                    stream_phase: Some(StreamPhase::Text),
                    last_active_at: ctx.now_ms,
                    ..runtime
                })
                &&& outcome.effects == seq![EffectView::MarkDirty]
                &&& outcome.keep
            }
        }),
{
    if event_laws::producing(ctx, session) {
        lemma_heard(session);
        let accepted = streaming::output_accepted(session);
        let phase = runtime.stream_phase;
        let ready = if phase == Some(StreamPhase::Reasoning) {
            streaming::reasoning_completed(accepted, ctx.now)
        } else {
            accepted
        };
        streaming_laws::a_thought_leaves_the_rest(accepted, ctx.now);
        assert(ready.messages == session.messages);
        let continuing = phase == Some(StreamPhase::Text);
        if continuing && at >= 0 {
            streaming_laws::text_lengthens_the_open_message(
                ready,
                delta@,
                ctx.fresh_id,
                ctx.now,
                at,
            );
            let after = streaming::text_appended(ready, true, delta@, ctx.fresh_id, ctx.now);
            assert(after.messages =~= session.messages.update(
                at,
                MessageView {
                    content: session.messages[at].content + delta@,
                    ..session.messages[at]
                },
            ));
        } else {
            streaming_laws::text_opens_a_message(
                ready,
                continuing,
                delta@,
                ctx.fresh_id,
                ctx.now,
            );
        }
    }
}

/// Words end the thought before them.
pub proof fn words_end_the_thought(
    ctx: EventContext,
    entries: Seq<(Seq<char>, Seq<char>)>,
    expanded: Set<Id>,
    session: SessionView,
    runtime: RuntimeView,
    delta: String,
    b: int,
    a: int,
)
    requires
        event_laws::producing(ctx, session),
        runtime.stream_phase == Some(StreamPhase::Reasoning),
        streaming_laws::numbered(session.blocks),
        streaming_laws::stands(session.blocks, b, a),
        session.blocks[b].activities[a].reasoning is Some,
        !session.blocks[b].activities[a].complete,
        forall|x: int, y: int|
            streaming_laws::stands(session.blocks, x, y) && streaming_laws::behind(b, a, x, y) ==> (
            #[trigger] session.blocks[x].activities[y]).reasoning is None
                || session.blocks[x].activities[y].complete,
    ensures
        events::event_outcome(
            ctx,
            entries,
            expanded,
            session,
            runtime,
            DriverEvent::TextDelta(delta),
        ).session.blocks[b].activities[a].complete,
{
    lemma_heard(session);
    streaming_laws::a_thought_ends_once(streaming::output_accepted(session), ctx.now, b, a);
}

/// Thought that arrives where none is expected leaves nothing behind.
/// Otherwise a thought that goes on grows by it, and one that begins stands
/// last with it.
pub proof fn thought_joins_the_reply(
    ctx: EventContext,
    entries: Seq<(Seq<char>, Seq<char>)>,
    expanded: Set<Id>,
    session: SessionView,
    runtime: RuntimeView,
    delta: String,
)
    requires
        streaming_laws::numbered(session.blocks),
        session.messages.len() <= usize::MAX,
    ensures
        ({
            let outcome = events::event_outcome(
                ctx,
                entries,
                expanded,
                session,
                runtime,
                DriverEvent::ReasoningDelta(delta),
            );
            let after = outcome.session;
            let thinking = runtime.stream_phase == Some(StreamPhase::Reasoning);
            let held = session.blocks.len() > 0 && session.blocks.last().activities.len() > 0
                && session.blocks.last().activities.last().reasoning is Some;
            let step = after.blocks.last().activities.last();
            &&& !event_laws::producing(ctx, session) ==> ignored(ctx, session, runtime, outcome)
            &&& event_laws::producing(ctx, session) ==> {
                &&& heard(session, after)
                &&& after.messages.len() == session.messages.len()
                &&& outcome.effects.len() == 0
                &&& outcome.keep
                &&& outcome.runtime == (RuntimeView {
                    stream_phase: if thinking || !text::blank(delta@) {
                        Some(StreamPhase::Reasoning)
                    } else {
                        runtime.stream_phase
                    },
                    last_active_at: ctx.now_ms,
                    ..runtime
                })
                &&& !thinking && text::blank(delta@) ==> after.blocks == session.blocks
                    && after.messages == session.messages
                &&& thinking && held ==> {
                    &&& after.blocks.len() == session.blocks.len()
                    &&& step.reasoning is Some
                    &&& step.reasoning->0.content
                        == session.blocks.last().activities.last().reasoning->0.content + delta@
                    &&& after.messages == session.messages
                }
                &&& !thinking && !text::blank(delta@) ==> {
                    &&& step.id == ctx.fresh_id
                    &&& step.kind == ActivityKind::Reasoning
                    &&& step.title == ctx.reasoning_title@
                    &&& step.reasoning is Some
                    &&& step.reasoning->0.content == delta@
                    &&& step.reasoning->0.started_at_ms == ctx.now_ms
                }
            }
        }),
{
    if event_laws::producing(ctx, session) {
        lemma_heard(session);
        let accepted = streaming::output_accepted(session);
        let thinking = runtime.stream_phase == Some(StreamPhase::Reasoning);
        let held = session.blocks.len() > 0 && session.blocks.last().activities.len() > 0
            && session.blocks.last().activities.last().reasoning is Some;
        if thinking && held {
            streaming_laws::thought_lengthens_the_last_step(
                accepted,
                delta@,
                ctx.fresh_id,
                ctx.reasoning_title@,
                ctx.now,
                ctx.now_ms,
            );
        } else if !thinking {
            streaming_laws::thought_begins_with_words(
                accepted,
                runtime.stream_phase,
                delta@,
                ctx.fresh_id,
                ctx.reasoning_title@,
                ctx.now,
                ctx.now_ms,
            );
        }
    }
}

// ── Steps ──────────────────────────────────────────────────────────────────

/// A report about a step that the provider named before reaches that step,
/// with everything it brings; the foreground's work takes it up, and the branch
/// on screen is read again after a command or a file change that is over.
/// Where no step is expected nothing happens.
pub proof fn a_report_reaches_its_step(
    ctx: EventContext,
    entries: Seq<(Seq<char>, Seq<char>)>,
    expanded: Set<Id>,
    session: SessionView,
    runtime: RuntimeView,
    item: ActivityItem,
    b: int,
    a: int,
)
    requires
        streaming_laws::numbered(session.blocks),
        streaming_laws::stands(session.blocks, b, a),
        item@.source_id is Some,
        session.blocks[b].activities[a].source_id == item@.source_id,
        forall|x: int, y: int|
            streaming_laws::stands(session.blocks, x, y) && streaming_laws::behind(b, a, x, y) ==> (
            #[trigger] session.blocks[x].activities[y]).source_id != item@.source_id,
    ensures
        ({
            let outcome = events::event_outcome(
                ctx,
                entries,
                expanded,
                session,
                runtime,
                DriverEvent::RichActivity(item),
            );
            let after = outcome.session;
            let step = session.blocks[b].activities[a];
            &&& !event_laws::producing(ctx, session) ==> ignored(ctx, session, runtime, outcome)
            &&& event_laws::producing(ctx, session) ==> {
                &&& streaming_laws::takes_up(step, item@, after.blocks[b].activities[a])
                &&& after.blocks.len() == session.blocks.len()
                &&& after.messages.len() == session.messages.len()
                &&& heard(session, after)
                &&& outcome.runtime == (RuntimeView {
                    stream_phase: Some(StreamPhase::Activity),
                    last_active_at: ctx.now_ms,
                    ..runtime
                })
                &&& outcome.effects.contains(EffectView::ObserveActivity(item@))
                &&& outcome.effects.contains(EffectView::DropActivityDiff(step.id))
                    <==> item@.file_changes.len() > 0
                &&& outcome.effects.contains(EffectView::RefreshBranch) <==> ctx.selected
                    && item@.complete && (item@.kind == ActivityKind::Command || item@.kind
                    == ActivityKind::FileChange)
                &&& outcome.keep
            }
        }),
{
    if event_laws::producing(ctx, session) {
        lemma_heard(session);
        let accepted = streaming::output_accepted(session);
        streaming_laws::a_named_step_takes_up_its_report(
            accepted,
            runtime.stream_phase,
            item@,
            ctx.now,
            b,
            a,
        );
        streaming_laws::a_report_leaves_the_turns(
            accepted,
            runtime.stream_phase,
            item@,
            ctx.now,
        );
        let effects = events::event_outcome(
            ctx,
            entries,
            expanded,
            session,
            runtime,
            DriverEvent::RichActivity(item),
        ).effects;
        let refresh = ctx.selected && item@.complete && (item@.kind == ActivityKind::Command
            || item@.kind == ActivityKind::FileChange);
        let stale = streaming::stale_diff(accepted, runtime.stream_phase, item@, ctx.now);
        let second = match stale {
            Some(id) => seq![EffectView::DropActivityDiff(id)],
            None => Seq::empty(),
        };
        assert(effects == seq![EffectView::ObserveActivity(item@)] + second + events::when(
            refresh,
            EffectView::RefreshBranch,
        ));
        lemma_report_effects(effects, item, stale, refresh);
    }
}

proof fn lemma_report_effects(
    effects: Seq<EffectView>,
    item: ActivityItem,
    stale: Option<Id>,
    refresh: bool,
)
    requires
        effects == seq![EffectView::ObserveActivity(item@)] + (match stale {
            Some(id) => seq![EffectView::DropActivityDiff(id)],
            None => Seq::empty(),
        }) + events::when(refresh, EffectView::RefreshBranch),
    ensures
        effects.contains(EffectView::ObserveActivity(item@)),
        forall|id: Id| #[trigger]
            effects.contains(EffectView::DropActivityDiff(id)) <==> stale == Some(id),
        effects.contains(EffectView::RefreshBranch) <==> refresh,
{
    broadcast use {
        vstd::seq_lib::lemma_seq_concat_contains_all_elements,
        vstd::seq_lib::lemma_seq_contains_after_push,
        vstd::seq_lib::lemma_seq_empty_contains_nothing,
    };

    assert(effects[0] == EffectView::ObserveActivity(item@));
    if stale is Some {
        assert(effects[1] == EffectView::DropActivityDiff(stale->0));
    }
    if refresh {
        assert(effects[effects.len() - 1] == EffectView::RefreshBranch);
    }
}

// ── Requests to the user ───────────────────────────────────────────────────

/// A request for permission is what the session then waits with; where no
/// output is expected nothing happens.
pub proof fn a_permission_is_waited_for(
    ctx: EventContext,
    entries: Seq<(Seq<char>, Seq<char>)>,
    expanded: Set<Id>,
    session: SessionView,
    runtime: RuntimeView,
    permission: PendingPermission,
)
    ensures
        ({
            let outcome = events::event_outcome(
                ctx,
                entries,
                expanded,
                session,
                runtime,
                DriverEvent::Permission(permission),
            );
            let after = outcome.session;
            &&& !event_laws::producing(ctx, session) ==> ignored(ctx, session, runtime, outcome)
            &&& event_laws::producing(ctx, session) ==> {
                &&& after.status == SessionStatus::Waiting
                &&& after.turns.last().provider_started
                &&& after == (SessionView {
                    status: after.status,
                    turns: after.turns,
                    ..session
                })
                &&& outcome.runtime == (RuntimeView {
                    pending_permission: Some(permission),
                    last_active_at: ctx.now_ms,
                    ..runtime
                })
                &&& outcome.effects.len() == 0
                &&& outcome.keep
            }
        }),
{
    if event_laws::producing(ctx, session) {
        lemma_heard(session);
    }
}

/// Questions to the user are put from the first on, with nothing chosen and
/// nothing answered, and the field for the answer on screen is emptied; no
/// questions are no request.
pub proof fn questions_are_put_from_the_first(
    ctx: EventContext,
    entries: Seq<(Seq<char>, Seq<char>)>,
    expanded: Set<Id>,
    session: SessionView,
    runtime: RuntimeView,
    request_id: String,
    questions: Vec<UserInputQuestion>,
)
    ensures
        ({
            let outcome = events::event_outcome(
                ctx,
                entries,
                expanded,
                session,
                runtime,
                DriverEvent::UserInputRequested { request_id, questions },
            );
            let after = outcome.session;
            let asked = outcome.runtime.pending_user_input;
            &&& !event_laws::producing(ctx, session) ==> ignored(ctx, session, runtime, outcome)
            &&& event_laws::producing(ctx, session) && questions@.len() == 0 ==> {
                &&& heard(session, after)
                &&& outcome.runtime == (RuntimeView { last_active_at: ctx.now_ms, ..runtime })
                &&& outcome.effects.len() == 0
            }
            &&& event_laws::producing(ctx, session) && questions@.len() > 0 ==> {
                &&& after.status == SessionStatus::Waiting
                &&& asked is Some
                &&& asked->0.request_id == request_id@
                &&& asked->0.questions == questions@
                &&& asked->0.question_index == 0
                &&& forall|id: Seq<char>|
                    !(#[trigger] asked->0.answers.selections.dom().contains(id))
                        && !asked->0.answers.custom.dom().contains(id)
                &&& outcome.runtime == (RuntimeView {
                    pending_user_input: asked,
                    last_active_at: ctx.now_ms,
                    ..runtime
                })
                &&& outcome.effects.contains(EffectView::ClearAnswerField) <==> ctx.selected
                &&& outcome.effects.len() <= 1
            }
            &&& outcome.keep
            &&& after == (SessionView { status: after.status, turns: after.turns, ..session })
        }),
{
    broadcast use {
        vstd::seq_lib::lemma_seq_concat_contains_all_elements,
        vstd::seq_lib::lemma_seq_contains_after_push,
        vstd::seq_lib::lemma_seq_empty_contains_nothing,
    };

    let outcome = events::event_outcome(
        ctx,
        entries,
        expanded,
        session,
        runtime,
        DriverEvent::UserInputRequested { request_id, questions },
    );
    if event_laws::producing(ctx, session) {
        lemma_heard(session);
        if ctx.selected && questions@.len() > 0 {
            assert(outcome.effects[0] == EffectView::ClearAnswerField);
        }
    }
}

// ── What is reported beside the reply ──────────────────────────────────────

/// A goal is noted or forgotten as it is reported, its clock with it. A session
/// without messages is named after it, and one whose goal changed is saved.
pub proof fn a_goal_is_noted(
    ctx: EventContext,
    entries: Seq<(Seq<char>, Seq<char>)>,
    expanded: Set<Id>,
    session: SessionView,
    runtime: RuntimeView,
    goal: Option<ThreadGoal>,
    title: Seq<char>,
    observed: bool,
)
    ensures
        ({
            let outcome = events::event_outcome(
                ctx,
                entries,
                expanded,
                session,
                runtime,
                DriverEvent::GoalUpdated(goal),
            );
            let noted = outcome.session.thread_goal;
            &&& noted is Some <==> goal is Some
            &&& goal is Some ==> noted->0.objective == goal->0.objective@ && noted->0.state
                == goal->0.state@
            &&& outcome.session == (SessionView { thread_goal: noted, ..session })
            &&& outcome.runtime == (RuntimeView { last_active_at: ctx.now_ms, ..runtime })
            &&& outcome.effects.contains(EffectView::GoalObserved(observed)) <==> observed
                == goal is Some
            &&& outcome.effects.contains(EffectView::SetTitleFromPrompt(title)) <==> goal is Some
                && session.messages.len() == 0 && title == goal->0.objective@
            &&& outcome.effects.contains(EffectView::MarkDirty) <==> noted != session.thread_goal
            &&& outcome.keep
        }),
{
    broadcast use {
        vstd::seq_lib::lemma_seq_concat_contains_all_elements,
        vstd::seq_lib::lemma_seq_contains_after_push,
        vstd::seq_lib::lemma_seq_empty_contains_nothing,
    };

    let effects = events::event_outcome(
        ctx,
        entries,
        expanded,
        session,
        runtime,
        DriverEvent::GoalUpdated(goal),
    ).effects;
    assert(effects[0] == EffectView::GoalObserved(goal is Some));
    if goal is Some && session.messages.len() == 0 {
        assert(effects[1] == EffectView::SetTitleFromPrompt(goal->0.objective@));
    }
    if session::goal_view(goal) != session.thread_goal {
        assert(effects[effects.len() - 1] == EffectView::MarkDirty);
    }
}

/// What a session used of its context is what was reported last of each figure.
pub proof fn usage_is_what_was_reported_last(
    ctx: EventContext,
    entries: Seq<(Seq<char>, Seq<char>)>,
    expanded: Set<Id>,
    session: SessionView,
    runtime: RuntimeView,
    context_tokens: Option<u64>,
    context_window: Option<u64>,
)
    ensures
        ({
            let outcome = events::event_outcome(
                ctx,
                entries,
                expanded,
                session,
                runtime,
                DriverEvent::UsageUpdated { context_tokens, context_window },
            );
            let usage = outcome.session.context_usage;
            &&& usage is Some
            &&& context_tokens is Some ==> usage->0.tokens == context_tokens->0
            &&& context_tokens is None ==> usage->0.tokens == if session.context_usage is Some {
                session.context_usage->0.tokens
            } else {
                0
            }
            &&& context_window is Some ==> usage->0.window == context_window
            &&& context_window is None ==> usage->0.window == if session.context_usage is Some {
                session.context_usage->0.window
            } else {
                None
            }
            &&& outcome.session == (SessionView { context_usage: usage, ..session })
            &&& outcome.runtime == (RuntimeView { last_active_at: ctx.now_ms, ..runtime })
            &&& outcome.effects == seq![EffectView::MarkDirty]
            &&& outcome.keep
        }),
{
}

/// A plan is what was reported last, and is saved where it changed.
pub proof fn a_plan_is_what_was_reported_last(
    ctx: EventContext,
    entries: Seq<(Seq<char>, Seq<char>)>,
    expanded: Set<Id>,
    session: SessionView,
    runtime: RuntimeView,
    todos: Vec<TodoItem>,
)
    ensures
        ({
            let outcome = events::event_outcome(
                ctx,
                entries,
                expanded,
                session,
                runtime,
                DriverEvent::TodoUpdated(todos),
            );
            let plan = outcome.session.todos;
            &&& plan.len() == todos@.len()
            &&& forall|i: int|
                0 <= i < plan.len() ==> (#[trigger] plan[i]).content == todos@[i].content@
                    && plan[i].status == todos@[i].status
            &&& outcome.session == (SessionView { todos: plan, ..session })
            &&& outcome.runtime == (RuntimeView { last_active_at: ctx.now_ms, ..runtime })
            &&& outcome.effects.contains(EffectView::MarkDirty) <==> plan != session.todos
            &&& outcome.effects.len() <= 1
            &&& outcome.keep
        }),
{
    broadcast use {
        vstd::seq_lib::lemma_seq_concat_contains_all_elements,
        vstd::seq_lib::lemma_seq_contains_after_push,
        vstd::seq_lib::lemma_seq_empty_contains_nothing,
    };

    let outcome = events::event_outcome(
        ctx,
        entries,
        expanded,
        session,
        runtime,
        DriverEvent::TodoUpdated(todos),
    );
    if outcome.session.todos != session.todos {
        assert(outcome.effects[0] == EffectView::MarkDirty);
    }
}

/// What other reports leave: the position in the event log, the preset, the
/// commands on offer; and which of the application's duties follow from a
/// suggested name, a prompt, detached work or the account's usage.
pub proof fn a_report_is_passed_on(
    ctx: EventContext,
    entries: Seq<(Seq<char>, Seq<char>)>,
    expanded: Set<Id>,
    session: SessionView,
    runtime: RuntimeView,
    event: DriverEvent,
)
    ensures
        ({
            let outcome = events::event_outcome(ctx, entries, expanded, session, runtime, event);
            let after = outcome.session;
            let calm = outcome.keep && outcome.runtime == (RuntimeView {
                last_active_at: ctx.now_ms,
                ..runtime
            });
            match event {
                DriverEvent::RuntimeEventCursorAdvanced(cursor) => calm && after == (SessionView {
                    runtime_event_cursor: Some(cursor),
                    ..session
                }) && outcome.effects.len() == 0,
                DriverEvent::AgentPresetSelected(preset) => calm && after == (SessionView {
                    agent_preset: text::text_view(preset),
                    ..session
                }) && outcome.effects.len() == 0,
                DriverEvent::AutoTitleUpdated(title) => calm && after == session && outcome.effects
                    == seq![EffectView::SetAutoTitle(title@)],
                DriverEvent::AvailableCommands(names) => calm && after == (SessionView {
                    available_commands: after.available_commands,
                    ..session
                }) && after.available_commands.len() == names@.len() && (forall|i: int|
                    0 <= i < names@.len() ==> #[trigger] after.available_commands[i]
                        == names@[i]@) && outcome.effects == (if after.available_commands
                    != session.available_commands {
                    seq![EffectView::ComposerSourcesStale]
                } else {
                    Seq::empty()
                }),
                DriverEvent::PromptSubmitted { message, turn_id, message_id } => calm && after
                    == session && outcome.effects == seq![
                    EffectView::AdoptPrompt { message: message@, turn_id, message_id },
                ],
                DriverEvent::BackgroundWork(work) => calm && after == session && outcome.effects
                    == seq![EffectView::TrackBackgroundWork(work)],
                DriverEvent::PlanUsageUpdated(usage) => calm && after == session && outcome.effects
                    == seq![EffectView::ShowPlanUsage(session.provider, usage)],
                _ => true,
            }
        }),
{
}

// ── What the agent does in other applications ──────────────────────────────

proof fn lemma_preview_of(previews: Seq<ComputerUsePreview>, window_id: u32)
    ensures
        ({
            let at = events::preview_of(previews, window_id);
            &&& -1 <= at < previews.len()
            &&& at >= 0 ==> events::shows_window(previews[at], window_id)
            &&& forall|k: int|
                0 <= k < previews.len() && (at < 0 || k < at) ==> !events::shows_window(
                    #[trigger] previews[k],
                    window_id,
                )
        }),
    decreases previews.len(),
{
    if previews.len() > 0 {
        let rest = previews.skip(1);
        lemma_preview_of(rest, window_id);
        assert forall|k: int| 0 < k < previews.len() implies #[trigger] previews[k] == rest[k
            - 1] by {}
    }
}

/// Whether a preview shows a window.
pub open spec fn shows(preview: ComputerUsePreview, window_id: u32) -> bool {
    preview.target is Some && preview.target->0.window_id == window_id
}

/// News of a window that can be seen stand last and in place of what was shown
/// of it first; a picture that the news lack is kept. News without a window,
/// or of one that cannot be seen, change nothing.
pub proof fn news_of_a_window_stand_last(
    ctx: EventContext,
    entries: Seq<(Seq<char>, Seq<char>)>,
    expanded: Set<Id>,
    session: SessionView,
    runtime: RuntimeView,
    news: ComputerUsePreview,
    at: int,
)
    requires
        news.target is Some ==> {
            let window_id = news.target->0.window_id;
            &&& -1 <= at < runtime.previews.len()
            &&& at >= 0 ==> shows(runtime.previews[at], window_id)
            &&& forall|k: int|
                0 <= k < runtime.previews.len() && (at < 0 || k < at) ==> !shows(
                    #[trigger] runtime.previews[k],
                    window_id,
                )
        },
    ensures
        ({
            let outcome = events::event_outcome(
                ctx,
                entries,
                expanded,
                session,
                runtime,
                DriverEvent::ComputerUseUpdated(news),
            );
            let before = runtime.previews;
            let after = outcome.runtime.previews;
            let seen = news.target is Some && news.visible;
            &&& !event_laws::producing(ctx, session) ==> ignored(ctx, session, runtime, outcome)
            &&& event_laws::producing(ctx, session) ==> {
                &&& !seen ==> after == before
                &&& seen && at < 0 ==> after == before.push(news)
                &&& seen && at >= 0 ==> {
                    &&& after.len() == before.len()
                    &&& after.drop_last() == before.take(at) + before.skip(at + 1)
                    &&& after.last().target == news.target
                    &&& after.last().phase == news.phase
                    &&& after.last().visible
                    &&& after.last().screenshot == if news.screenshot is Some {
                        news.screenshot
                    } else {
                        before[at].screenshot
                    }
                }
                &&& heard(session, outcome.session)
                &&& outcome.runtime == (RuntimeView {
                    previews: after,
                    last_active_at: ctx.now_ms,
                    ..runtime
                })
                &&& outcome.effects.len() == 0
                &&& outcome.keep
            }
        }),
{
    if event_laws::producing(ctx, session) {
        lemma_heard(session);
        if news.target is Some {
            let window_id = news.target->0.window_id;
            lemma_preview_of(runtime.previews, window_id);
            let found = events::preview_of(runtime.previews, window_id);
            assert(forall|k: int|
                0 <= k < runtime.previews.len() ==> events::shows_window(
                    #[trigger] runtime.previews[k],
                    window_id,
                ) == shows(runtime.previews[k], window_id));
            if found >= 0 && at >= 0 {
                assert(shows(runtime.previews[found], window_id));
                assert(events::shows_window(runtime.previews[at], window_id));
            } else if found >= 0 {
                assert(!shows(runtime.previews[found], window_id));
            } else if at >= 0 {
                assert(!events::shows_window(runtime.previews[at], window_id));
            }
            assert(found == at);
            if at >= 0 && news.visible {
                let after = events::upserted(runtime.previews, news);
                assert(after.drop_last() =~= runtime.previews.take(at) + runtime.previews.skip(
                    at + 1,
                ));
            }
        }
    }
}

// ── Errors ─────────────────────────────────────────────────────────────────

/// An error is remembered, and told to the user who looks at the session. A
/// turn at work goes on; one that has not come to work has failed, and where
/// the assistant said nothing the error closes it. A turn that was only opened
/// for a goal and never confirmed is taken back first.
pub proof fn an_error_is_shown(
    ctx: EventContext,
    entries: Seq<(Seq<char>, Seq<char>)>,
    expanded: Set<Id>,
    session: SessionView,
    runtime: RuntimeView,
    error: String,
)
    ensures
        ({
            let outcome = events::event_outcome(
                ctx,
                entries,
                expanded,
                session,
                runtime,
                DriverEvent::Error(error),
            );
            let after = outcome.session;
            let shown = streaming::compact_error(error@);
            let count = session.messages.len() as int;
            let taken_back = ctx.pursuit && event_laws::running(session)
                && !session.turns.last().provider_started;
            let fails = !taken_back && event_laws::running(session) && session.status
                != SessionStatus::Working;
            &&& outcome.runtime == (RuntimeView {
                last_driver_error: Some(shown),
                last_active_at: ctx.now_ms,
                ..runtime
            })
            &&& outcome.effects == if ctx.selected {
                seq![EffectView::ShowToast(shown)]
            } else {
                Seq::empty()
            }
            &&& outcome.keep
            &&& !taken_back && !fails ==> after == session
            &&& fails ==> {
                &&& after.status == SessionStatus::Failed
                &&& after.turns == session.turns
                &&& event_laws::spoke(session, MessageRole::Assistant) ==> after.messages
                    == session.messages
                &&& !event_laws::spoke(session, MessageRole::Assistant) ==> {
                    &&& after.messages.len() == count + 1
                    &&& after.messages.drop_last() == session.messages
                    &&& after.messages.last().role == MessageRole::Assistant
                    &&& after.messages.last().content == shown
                    &&& after.messages.last().turn_id == Some(session.turns.last().id)
                }
            }
            &&& taken_back ==> {
                &&& session.turns.len() == 1 || session.turns[session.turns.len() - 2].status
                    != TurnStatus::Running ==> {
                    &&& after.turns == session.turns.drop_last()
                    &&& after.status == SessionStatus::Idle
                    &&& after.messages == session.messages
                }
            }
        }),
{
    let after = events::event_outcome(
        ctx,
        entries,
        expanded,
        session,
        runtime,
        DriverEvent::Error(error),
    ).session;
    if after.messages.len() > session.messages.len() {
        assert(after.messages.drop_last() =~= session.messages);
    }
}

/// A process that exits ends everything: nothing goes on and nothing waits for
/// the user. A turn that ran has failed, and where the assistant said nothing
/// the last error closes it, or a note that the provider left. A session that
/// rested stays as it was. The runtime is detached.
pub proof fn an_exit_ends_everything(
    ctx: EventContext,
    entries: Seq<(Seq<char>, Seq<char>)>,
    expanded: Set<Id>,
    session: SessionView,
    runtime: RuntimeView,
)
    ensures
        ({
            let outcome = events::event_outcome(
                ctx,
                entries,
                expanded,
                session,
                runtime,
                DriverEvent::ProcessExited,
            );
            let after = outcome.session;
            let count = session.messages.len() as int;
            let runs = event_laws::running(session);
            let busy = session.status != SessionStatus::Idle && session.status
                != SessionStatus::Failed;
            let answered = runs && event_laws::spoke(session, MessageRole::Assistant);
            &&& !outcome.keep
            &&& event_laws::quiet(after)
            &&& event_laws::same_words(session.messages, after.messages)
            &&& streaming_laws::same_steps(session.blocks, after.blocks)
            &&& after.queued_messages == session.queued_messages
            &&& busy ==> {
                &&& after.status == SessionStatus::Failed
                &&& after.updated_at == ctx.now
                &&& after.turns.len() == session.turns.len()
                &&& runs ==> {
                    &&& after.turns.drop_last() == session.turns.drop_last()
                    &&& after.turns.last() == (TurnView {
                        status: TurnStatus::Failed,
                        completed_at: Some(ctx.now),
                        ..session.turns.last()
                    })
                }
                &&& !runs ==> after.turns == session.turns
                &&& answered ==> after.messages.len() == count
                &&& !answered ==> {
                    &&& after.messages.len() == count + 1
                    &&& after.messages[count].role == MessageRole::Assistant
                    &&& after.messages[count].turn_id == if runs {
                        Some(session.turns.last().id)
                    } else {
                        None
                    }
                    &&& after.messages[count].content == if runtime.last_driver_error is Some {
                        runtime.last_driver_error->0
                    } else {
                        i18n::plain(entries, "session.codex_exited_before_response"@)
                    }
                }
            }
            &&& !busy ==> {
                &&& after.status == session.status
                &&& after.turns == session.turns
                &&& after.messages.len() == count
            }
            &&& outcome.runtime.stream_phase is None
            &&& outcome.runtime.pending_permission is None
            &&& outcome.runtime.pending_user_input is None
            &&& outcome.runtime.pending_computer_approval is None
            &&& outcome.runtime.previews.len() == 0
            &&& outcome.runtime.last_driver_error is None
            &&& outcome.runtime.pending_steers == runtime.pending_steers
        }),
{
    let after = events::event_outcome(
        ctx,
        entries,
        expanded,
        session,
        runtime,
        DriverEvent::ProcessExited,
    ).session;
    if event_laws::running(session) {
        assert(after.turns.drop_last() =~= session.turns.drop_last());
    }
}

/// What follows an exit: the work beside the conversation is lost and nothing
/// is done in other applications any more; a turn that ran is reported and
/// what it changed is recorded. Nothing queued starts.
pub proof fn an_exit_is_followed_up(
    ctx: EventContext,
    entries: Seq<(Seq<char>, Seq<char>)>,
    expanded: Set<Id>,
    session: SessionView,
    runtime: RuntimeView,
    effect: EffectView,
)
    ensures
        ({
            let outcome = events::event_outcome(
                ctx,
                entries,
                expanded,
                session,
                runtime,
                DriverEvent::ProcessExited,
            );
            let follows = outcome.effects.contains(effect);
            let ended = event_laws::running(session) && session.status != SessionStatus::Idle
                && session.status != SessionStatus::Failed;
            match effect {
                EffectView::MarkBackgroundWorkLost => follows,
                EffectView::CancelComputerUse => follows,
                EffectView::TrackTurn(how) => follows <==> ended && how
                    == crate::analytics::TurnOutcome::ProcessExited,
                EffectView::CaptureCheckpoint => follows <==> ended,
                EffectView::SpliceRows(_) => follows ==> ctx.selected,
                _ => !follows,
            }
        }),
{
    let outcome = events::event_outcome(
        ctx,
        entries,
        expanded,
        session,
        runtime,
        DriverEvent::ProcessExited,
    );
    let splices = events::splice_effects(ctx.selected, expanded, session, outcome.session);
    let ended = event_laws::running(session) && session.status != SessionStatus::Idle
        && session.status != SessionStatus::Failed;
    assert(outcome.effects == seq![
        EffectView::MarkBackgroundWorkLost,
        EffectView::CancelComputerUse,
    ] + events::when(
        ended,
        EffectView::TrackTurn(crate::analytics::TurnOutcome::ProcessExited),
    ) + events::when(ended, EffectView::CaptureCheckpoint) + splices);
    lemma_exit_effects(outcome.effects, splices, ended, effect);
}

proof fn lemma_exit_effects(
    effects: Seq<EffectView>,
    splices: Seq<EffectView>,
    ended: bool,
    effect: EffectView,
)
    requires
        effects == seq![EffectView::MarkBackgroundWorkLost, EffectView::CancelComputerUse]
            + events::when(
            ended,
            EffectView::TrackTurn(crate::analytics::TurnOutcome::ProcessExited),
        ) + events::when(ended, EffectView::CaptureCheckpoint) + splices,
        splices.len() == 0 || (splices.len() == 1 && splices[0] is SpliceRows),
    ensures
        effects.contains(effect) <==> {
            ||| effect is MarkBackgroundWorkLost
            ||| effect is CancelComputerUse
            ||| ended && effect == EffectView::TrackTurn(
                crate::analytics::TurnOutcome::ProcessExited,
            )
            ||| ended && effect is CaptureCheckpoint
            ||| splices.contains(effect)
        },
{
    broadcast use {
        vstd::seq_lib::lemma_seq_concat_contains_all_elements,
        vstd::seq_lib::lemma_seq_contains_after_push,
        vstd::seq_lib::lemma_seq_empty_contains_nothing,
    };

    assert(effects[0] is MarkBackgroundWorkLost);
    assert(effects[1] is CancelComputerUse);
}

} // verus!
