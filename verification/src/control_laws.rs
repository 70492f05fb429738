//! What the user's controls are for: stopping a turn, choosing models,
//! answering what the agent asks and looking at what it does, said of the
//! fields that they change.
use crate::controls;
use crate::controls::{
    AppGrant, EscapeStopConfirmation, EscapeStopTarget, FavoriteModel, FreshIds, Menu, ModelTraits,
    StopEffectView,
};
use crate::event_laws;
use crate::events;
use crate::events::{
    ComputerUsePreview, DriverEvent, EffectView, EventContext, PendingComputerApproval, RuntimeView,
};
use crate::i18n;
use crate::model::{
    ActivityView, BlockView, Id, MessageRole, MessageView, ProviderKind, SessionStatus, TurnStatus,
    TurnView,
};
use crate::reply_laws;
use crate::session::SessionView;
use crate::streaming_laws;
use crate::text;
use crate::user_input::{Advance, UserInputView};
use vstd::prelude::*;

verus! {

// ── Stopping ───────────────────────────────────────────────────────────────

/// A first press waits three seconds for a second one for the same turn, and
/// for no other.
pub proof fn a_press_waits_for_its_turn(
    confirmation: EscapeStopConfirmation,
    target: EscapeStopTarget,
    other: EscapeStopTarget,
    now: u64,
    later: u64,
)
    ensures
        ({
            let arm = confirmation.next_arm(target, now);
            let waiting = EscapeStopConfirmation { armed: Some(arm), ..confirmation };
            let idle = EscapeStopConfirmation { armed: None, ..confirmation };
            &&& arm.target == target
            &&& arm.generation != confirmation.generation
            &&& !idle.armed_for(other, later)
            &&& other != target ==> !waiting.armed_for(other, later)
            &&& later >= now && later - now >= 3000 ==> !waiting.armed_for(target, later)
            &&& later < u64::MAX && later - now < 3000 ==> waiting.armed_for(target, later)
        }),
{
}

/// A stopped session rests, and nothing in it goes on. The turn that ran was
/// interrupted, now; everything said stays, and where the assistant said
/// nothing one message says that it was stopped. Where no turn ran its status
/// and turns stay.
pub proof fn a_stopped_session_rests(
    entries: Seq<(Seq<char>, Seq<char>)>,
    session: SessionView,
    message_id: Id,
    now: u64,
)
    ensures
        ({
            let after = controls::stopped_session(entries, session, message_id, now);
            let runs = event_laws::running(session);
            let count = session.messages.len() as int;
            &&& event_laws::quiet(after)
            &&& event_laws::same_words(session.messages, after.messages)
            &&& streaming_laws::same_steps(session.blocks, after.blocks)
            &&& after == (SessionView {
                status: after.status,
                turns: after.turns,
                messages: after.messages,
                blocks: after.blocks,
                ..session
            })
            &&& !runs ==> {
                &&& after.status == session.status
                &&& after.turns == session.turns
                &&& after.messages.len() == count
            }
            &&& runs ==> {
                &&& after.status == SessionStatus::Idle
                &&& after.turns.len() == session.turns.len()
                &&& after.turns.drop_last() == session.turns.drop_last()
                &&& after.turns.last() == (TurnView {
                    status: TurnStatus::Interrupted,
                    completed_at: Some(now),
                    ..session.turns.last()
                })
                &&& event_laws::spoke(session, MessageRole::Assistant) ==> after.messages.len()
                    == count
                &&& !event_laws::spoke(session, MessageRole::Assistant) ==> {
                    &&& after.messages.len() == count + 1
                    &&& after.messages[count].id == message_id
                    &&& after.messages[count].role == MessageRole::Assistant
                    &&& after.messages[count].turn_id == Some(session.turns.last().id)
                    &&& after.messages[count].content == i18n::plain(
                        entries,
                        "session.stopped"@,
                    )
                }
            }
        }),
{
    let after = controls::stopped_session(entries, session, message_id, now);
    if event_laws::running(session) {
        assert(after.turns.drop_last() =~= session.turns.drop_last());
    }
    assert(after == SessionView {
        status: after.status,
        turns: after.turns,
        messages: after.messages,
        blocks: after.blocks,
        ..session
    });
}

/// What had been received before a stop is taken up in order: what came first
/// first, and what followed from where that left the session, unless the
/// process was gone by then.
pub proof fn what_was_received_is_taken_up_in_order(
    ctx: EventContext,
    entries: Seq<(Seq<char>, Seq<char>)>,
    expanded: Set<Id>,
    session: SessionView,
    runtime: RuntimeView,
    first: Seq<DriverEvent>,
    second: Seq<DriverEvent>,
    fresh: Seq<FreshIds>,
)
    requires
        fresh.len() == first.len() + second.len(),
    ensures
        ({
            let all = controls::drained(
                ctx,
                entries,
                expanded,
                session,
                runtime,
                first + second,
                fresh,
            );
            let begun = controls::drained(
                ctx,
                entries,
                expanded,
                session,
                runtime,
                first,
                fresh.take(first.len() as int),
            );
            let rest = controls::drained(
                ctx,
                entries,
                expanded,
                begun.session,
                begun.runtime,
                second,
                fresh.skip(first.len() as int),
            );
            &&& begun.keep ==> {
                &&& all.session == rest.session
                &&& all.runtime == rest.runtime
                &&& all.effects == begun.effects + rest.effects
                &&& all.keep == rest.keep
                &&& all.left == rest.left
            }
            &&& !begun.keep ==> {
                &&& all.session == begun.session
                &&& all.runtime == begun.runtime
                &&& all.effects == begun.effects
                &&& !all.keep
                &&& all.left == begun.left + second
            }
        }),
    decreases first.len(),
{
    if first.len() == 0 {
        assert(first + second =~= second);
        assert(fresh.skip(0) =~= fresh);
        let rest = controls::drained(ctx, entries, expanded, session, runtime, second, fresh);
        assert(Seq::<EffectView>::empty() + rest.effects =~= rest.effects);
    } else {
        let n = first.len() as int;
        let outcome = controls::stop_step(
            ctx,
            entries,
            expanded,
            session,
            runtime,
            first[0],
            fresh[0],
        );
        assert((first + second)[0] == first[0]);
        assert((first + second).skip(1) =~= first.skip(1) + second);
        assert(fresh.take(n).skip(1) =~= fresh.skip(1).take(n - 1));
        assert(fresh.take(n)[0] == fresh[0]);
        assert(fresh.skip(1).skip(n - 1) =~= fresh.skip(n));
        if outcome.keep {
            what_was_received_is_taken_up_in_order(
                ctx,
                entries,
                expanded,
                outcome.session,
                outcome.runtime,
                first.skip(1),
                second,
                fresh.skip(1),
            );
            let begun = controls::drained(
                ctx,
                entries,
                expanded,
                outcome.session,
                outcome.runtime,
                first.skip(1),
                fresh.skip(1).take(n - 1),
            );
            let rest = controls::drained(
                ctx,
                entries,
                expanded,
                begun.session,
                begun.runtime,
                second,
                fresh.skip(n),
            );
            assert(outcome.effects + (begun.effects + rest.effects) =~= (outcome.effects
                + begun.effects) + rest.effects);
        }
    }
}

/// An event that was received before a stop is taken up as at any time, but
/// for the start of queued messages; what follows the end of the process is
/// left.
pub proof fn what_was_received_is_taken_up(
    ctx: EventContext,
    entries: Seq<(Seq<char>, Seq<char>)>,
    expanded: Set<Id>,
    session: SessionView,
    runtime: RuntimeView,
    event: DriverEvent,
    fresh: Seq<FreshIds>,
)
    requires
        fresh.len() > 0,
    ensures
        ({
            let taken = controls::drained(
                ctx,
                entries,
                expanded,
                session,
                runtime,
                seq![event],
                fresh,
            );
            let outcome = events::event_outcome(
                EventContext {
                    allow_queue_drain: false,
                    fresh_id: fresh[0].message,
                    fresh_turn: fresh[0].turn,
                    ..ctx
                },
                entries,
                expanded,
                session,
                runtime,
                event,
            );
            &&& taken.session == outcome.session
            &&& taken.runtime == outcome.runtime
            &&& taken.effects == outcome.effects
            &&& taken.keep == outcome.keep
            &&& taken.left.len() == 0
        }),
{
    reveal(controls::stop_step);
    reveal_with_fuel(controls::drained, 2);
    let outcome = controls::stop_step(ctx, entries, expanded, session, runtime, event, fresh[0]);
    assert(seq![event].skip(1).len() == 0);
    assert(outcome.effects + Seq::<EffectView>::empty() =~= outcome.effects);
}

/// The course of a stop: goal operations are dropped and the provider is
/// interrupted before anything else, and saving comes last. Exactly one of
/// keeping and closing the runtime follows: it is kept where its process still
/// runs and either detached work goes on in it or its provider can be
/// interrupted without being closed.
pub proof fn a_stop_has_its_order(
    ctx: EventContext,
    entries: Seq<(Seq<char>, Seq<char>)>,
    expanded: Set<Id>,
    session: SessionView,
    runtime: RuntimeView,
    events: Seq<DriverEvent>,
    fresh: Seq<FreshIds>,
    message_id: Id,
    has_detached_work: bool,
)
    ensures
        ({
            let stopped = controls::turn_stopped(
                ctx,
                entries,
                expanded,
                session,
                runtime,
                events,
                fresh,
                message_id,
                has_detached_work,
            );
            let received = controls::drained(
                ctx,
                entries,
                expanded,
                session,
                runtime,
                events,
                fresh,
            );
            let stays = has_detached_work || (session.provider != ProviderKind::Codex
                && session.provider != ProviderKind::Amp);
            let count = stopped.effects.len() as int;
            &&& count >= 6
            &&& stopped.effects[0] == StopEffectView::DropGoalOperations
            &&& stopped.effects[1] == StopEffectView::CancelDriver
            &&& stays ==> stopped.effects[2] == StopEffectView::Apply(
                EffectView::CancelComputerUse,
            )
            &&& stopped.effects[count - 3] == if stays && received.keep {
                StopEffectView::KeepRuntime
            } else {
                StopEffectView::CloseRuntime
            }
            &&& stopped.effects[count - 2] == StopEffectView::RemeasureTail
            &&& stopped.effects[count - 1] == StopEffectView::Save
            &&& exists|i: int|
                2 <= i < count - 3 && #[trigger] stopped.effects[i]
                    == StopEffectView::DropQueueDrains
            &&& stopped.session == controls::stopped_session(
                entries,
                received.session,
                message_id,
                ctx.now,
            )
            &&& stopped.runtime == (RuntimeView {
                stream_phase: None,
                pending_permission: None,
                pending_user_input: None,
                pending_computer_approval: None,
                previews: Seq::empty(),
                ..received.runtime
            })
            &&& stopped.left == received.left
        }),
{
    let stopped = controls::turn_stopped(
        ctx,
        entries,
        expanded,
        session,
        runtime,
        events,
        fresh,
        message_id,
        has_detached_work,
    );
    let received = controls::drained(ctx, entries, expanded, session, runtime, events, fresh);
    let stays = has_detached_work || (session.provider != ProviderKind::Codex && session.provider
        != ProviderKind::Amp);
    let cancels = controls::applied(events::when(stays, EffectView::CancelComputerUse));
    let applied = controls::applied(received.effects);
    assert(controls::retains_runtime(session, has_detached_work) == stays);
    assert(stopped.effects[2int + cancels.len() + applied.len()] == StopEffectView::DropQueueDrains);
    if stays {
        assert(cancels[0] == StopEffectView::Apply(EffectView::CancelComputerUse));
    }
}

/// What settles a stopped turn: the foreground's work was stopped, and what the
/// turn changed is recorded where one ran.
pub proof fn a_stopped_turn_is_settled(
    selected: bool,
    expanded: Set<Id>,
    before: SessionView,
    after: SessionView,
    effect: EffectView,
)
    ensures
        ({
            let follows = controls::settle_effects(selected, expanded, before, after).contains(
                effect,
            );
            match effect {
                EffectView::SettleForegroundWork(how) => follows <==> how
                    == events::BackgroundWorkStatus::Stopped,
                EffectView::CaptureCheckpoint => follows <==> event_laws::running(before),
                EffectView::SpliceRows(_) => follows ==> selected && event_laws::running(before),
                _ => !follows,
            }
        }),
{
    broadcast use {
        vstd::seq_lib::lemma_seq_concat_contains_all_elements,
        vstd::seq_lib::lemma_seq_empty_contains_nothing,
    };

    let effects = controls::settle_effects(selected, expanded, before, after);
    assert(effects[0] == EffectView::SettleForegroundWork(events::BackgroundWorkStatus::Stopped));
    if event_laws::running(before) {
        assert(effects[1] == EffectView::CaptureCheckpoint);
    }
}

// ── Models ─────────────────────────────────────────────────────────────────

/// Choosing a model changes which model is used, through whom and how; another
/// provider knows no preset of the last one, and nothing else changes.
pub proof fn a_chosen_model_is_used(
    session: SessionView,
    provider: ProviderKind,
    model: Seq<char>,
    traits: ModelTraits,
    allowed: bool,
)
    ensures
        ({
            let after = controls::with_model(session, provider, model, traits);
            &&& after.provider == provider
            &&& after.model == Some(model)
            &&& after.reasoning_effort == text::text_view(traits.reasoning_effort)
            &&& after.service_tier == text::text_view(traits.service_tier)
            &&& after.context_window == text::text_view(traits.context_window)
            &&& session.provider == provider ==> after.agent_preset == session.agent_preset
            &&& session.provider != provider ==> after.agent_preset is None
            &&& after == (SessionView {
                provider: after.provider,
                model: after.model,
                reasoning_effort: after.reasoning_effort,
                service_tier: after.service_tier,
                context_window: after.context_window,
                agent_preset: after.agent_preset,
                ..session
            })
            &&& !controls::changes_model(session, false, provider, model)
            &&& !controls::changes_model(after, allowed, provider, model)
            &&& session.provider != provider || session.model is None || session.model->0 != model
                ==> controls::changes_model(session, true, provider, model)
        }),
{
    let after = controls::with_model(session, provider, model, traits);
    assert(after == SessionView {
        provider: after.provider,
        model: after.model,
        reasoning_effort: after.reasoning_effort,
        service_tier: after.service_tier,
        context_window: after.context_window,
        agent_preset: after.agent_preset,
        ..session
    });
}

/// What a model is remembered with is what the session used it with.
pub proof fn a_model_is_remembered_as_used(session: SessionView, model: Option<Seq<char>>)
    ensures
        ({
            let used = controls::use_of(session, model);
            &&& used is Some <==> model is Some
            &&& used is Some ==> {
                &&& used->0.provider == session.provider
                &&& used->0.model == model->0
                &&& used->0.reasoning_effort == session.reasoning_effort
                &&& used->0.service_tier == session.service_tier
                &&& used->0.context_window == session.context_window
            }
        }),
{
}

/// A favorite is found where it first stands, by its provider and its name.
pub proof fn a_favorite_is_found(
    favorites: Seq<FavoriteModel>,
    provider: ProviderKind,
    model: Seq<char>,
)
    ensures
        ({
            let at = controls::favorite_at(favorites, provider, model);
            &&& -1 <= at < favorites.len()
            &&& at >= 0 ==> favorites[at].provider == provider && favorites[at].model@ == model
            &&& forall|k: int|
                0 <= k < favorites.len() && (at < 0 || k < at) ==> (
                #[trigger] favorites[k]).provider != provider || favorites[k].model@ != model
        }),
    decreases favorites.len(),
{
    if favorites.len() > 0 {
        let rest = favorites.skip(1);
        a_favorite_is_found(rest, provider, model);
        assert forall|k: int| 0 < k < favorites.len() implies #[trigger] favorites[k] == rest[k
            - 1] by {}
    }
}

/// The menus that close when the picker opens are all open ones but itself, in
/// their order.
pub proof fn other_menus_close(menus: Seq<Menu>, n: int)
    requires
        0 <= n <= menus.len() <= usize::MAX,
    ensures
        ({
            let closed = controls::other_open_menus(menus, n);
            &&& forall|i: int|
                #![trigger menus[i]]
                0 <= i < n ==> (closed.contains(i as usize) <==> menus[i].open
                    && !menus[i].picker)
            &&& forall|k: int| 0 <= k < closed.len() ==> (#[trigger] closed[k]) < n
            &&& forall|j: int, k: int|
                0 <= j < k < closed.len() ==> (#[trigger] closed[j]) < (#[trigger] closed[k])
        }),
    decreases n,
{
    if n > 0 {
        other_menus_close(menus, n - 1);
        let above = controls::other_open_menus(menus, n - 1);
        let closed = controls::other_open_menus(menus, n);
        broadcast use vstd::seq_lib::lemma_seq_contains_after_push;

        assert forall|i: int|
            #![trigger menus[i]]
            0 <= i < n implies (closed.contains(i as usize) <==> menus[i].open
            && !menus[i].picker) by {
            if i == n - 1 && above.contains(i as usize) {
                let k = choose|k: int| 0 <= k < above.len() && above[k] == i as usize;
                assert(above[k] < n - 1);
            }
        }
    }
}

// ── What the agent asks ────────────────────────────────────────────────────

/// Whether a question of those on screen has an answer.
pub open spec fn has_answer(pending: UserInputView, question: Seq<char>) -> bool {
    ||| pending.answers.custom.dom().contains(question) && !text::blank(
        pending.answers.custom[question],
    )
    ||| pending.answers.selections.dom().contains(question)
        && pending.answers.selections[question].len() > 0
}

/// Moving on from a question needs an answer to it. The next question comes on
/// screen with all answers kept; behind the last one the agent goes back to
/// work and nothing is asked any more.
pub proof fn moving_on_needs_an_answer(session: SessionView, runtime: RuntimeView)
    ensures
        ({
            let asked = runtime.pending_user_input;
            let on_screen = asked is Some && asked->0.question_index < asked->0.questions.len();
            let at = asked->0.question_index as int;
            let moves = on_screen && has_answer(asked->0, asked->0.questions[at].id@);
            let after = controls::advanced_runtime(runtime);
            let advance = controls::advance_of(asked);
            &&& advance is None <==> !moves
            &&& !moves ==> after == runtime && controls::advanced_session(session, runtime)
                == session
            &&& moves && at + 1 < asked->0.questions.len() ==> {
                &&& advance == Some(Advance::Next)
                &&& after.pending_user_input is Some
                &&& after.pending_user_input->0 == (UserInputView {
                    question_index: after.pending_user_input->0.question_index,
                    ..asked->0
                })
                &&& asked->0.questions.len() <= usize::MAX
                    ==> after.pending_user_input->0.question_index == at + 1
                &&& controls::advanced_session(session, runtime) == session
            }
            &&& moves && at + 1 == asked->0.questions.len() ==> {
                &&& advance == Some(Advance::Submit)
                &&& after.pending_user_input is None
                &&& controls::advanced_session(session, runtime) == (SessionView {
                    status: SessionStatus::Working,
                    ..session
                })
            }
            &&& after == (RuntimeView { pending_user_input: after.pending_user_input, ..runtime })
        }),
{
    let asked = runtime.pending_user_input;
    if asked is Some && asked->0.question_index < asked->0.questions.len() {
        let question = asked->0.questions[asked->0.question_index as int].id@;
        assert(asked->0.answered(question) == has_answer(asked->0, question));
    }
}

/// A text of the user's own is the answer to the question on screen, in place
/// of any choice; an empty one takes the text back and leaves the choices. No
/// other question's answer changes.
pub proof fn a_typed_answer_stands(pending: UserInputView, typed: Seq<char>, other: Seq<char>)
    ensures
        ({
            let after = pending.typed(typed);
            let on_screen = pending.question_index < pending.questions.len();
            let question = pending.questions[pending.question_index as int].id@;
            &&& !on_screen ==> after == pending
            &&& on_screen && !text::blank(typed) ==> after.answer(question) == seq![typed]
                && has_answer(after, question)
            &&& on_screen && text::blank(typed) ==> {
                &&& after.answers.selections == pending.answers.selections
                &&& pending.answers.selections.dom().contains(question) ==> after.answer(question)
                    == pending.answers.selections[question]
                &&& !pending.answers.selections.dom().contains(question) ==> after.answer(
                    question,
                ).len() == 0 && !has_answer(after, question)
            }
            &&& other != question ==> after.answer(other) == pending.answer(other) && has_answer(
                after,
                other,
            ) == has_answer(pending, other)
            &&& after.request_id == pending.request_id
            &&& after.questions == pending.questions
            &&& after.question_index == pending.question_index
        }),
{
}

/// A choice is the answer to a question with one answer, in place of any other;
/// with several answers it joins the others, and leaves them when it is made
/// again. It stands in place of a text. No other question's answer changes.
pub proof fn a_choice_stands(pending: UserInputView, label: Seq<char>, other: Seq<char>)
    ensures
        ({
            let after = pending.selected(label);
            let again = after.selected(label);
            let on_screen = pending.question_index < pending.questions.len();
            let at = pending.question_index as int;
            let question = pending.questions[at].id@;
            let before = if pending.answers.selections.dom().contains(question) {
                pending.answers.selections[question]
            } else {
                Seq::empty()
            };
            &&& !on_screen ==> after == pending
            &&& on_screen && !pending.questions[at].multi_select ==> after.answer(question)
                == seq![label] && has_answer(after, question)
            &&& on_screen && pending.questions[at].multi_select && !before.contains(label) ==> {
                &&& after.answer(question) == before.push(label)
                &&& again.answer(question) == before
            }
            &&& on_screen && pending.questions[at].multi_select && before.contains(label)
                ==> after.answer(question).len() == before.len() - 1 && after.answer(
                question,
            ).to_multiset() == before.to_multiset().remove(label)
            &&& other != question ==> after.answer(other) == pending.answer(other) && has_answer(
                after,
                other,
            ) == has_answer(pending, other)
            &&& after.request_id == pending.request_id
            &&& after.questions == pending.questions
            &&& after.question_index == pending.question_index
        }),
{
    let on_screen = pending.question_index < pending.questions.len();
    if on_screen {
        let at = pending.question_index as int;
        let question = pending.questions[at].id@;
        let before = pending.chosen(question);
        let after = pending.selected(label);
        if pending.questions[at].multi_select {
            if before.contains(label) {
                before.index_of_first_ensures(label);
                let place = before.index_of_first(label)->0;
                broadcast use vstd::seq_lib::group_to_multiset_ensures;

                assert(before.remove(place).to_multiset() =~= before.to_multiset().remove(label));
                if before.len() == 1 {
                    assert(before.remove(place) =~= Seq::empty());
                }
            } else {
                let grown = before.push(label);
                assert(grown.last() == label);
                assert(after.chosen(question) == grown);
                assert(grown.contains(label));
                grown.index_of_first_ensures(label);
                let place = grown.index_of_first(label)->0;
                if place < before.len() {
                    assert(before[place] == label);
                }
                assert(grown.remove(place) =~= before);
            }
        }
    }
}

// ── What the agent does elsewhere ──────────────────────────────────────────

/// Consent is kept for good where the user said so, where it can outlive the
/// session and where it is not kept yet.
pub proof fn consent_is_kept_once(
    pending: PendingComputerApproval,
    grants: Seq<AppGrant>,
    decision: Seq<char>,
    grant: AppGrant,
)
    requires
        grant.key@ == pending.target.grant_key@,
    ensures
        controls::keeps_grant(pending, grants, decision) ==> decision == "always"@
            && pending.target.persistable,
        !controls::keeps_grant(pending, grants.push(grant), decision),
        decision == "always"@ && pending.target.persistable && (forall|i: int|
            0 <= i < grants.len() ==> (#[trigger] grants[i]).key@ != pending.target.grant_key@)
            ==> controls::keeps_grant(pending, grants, decision),
{
    assert(grants.push(grant)[grants.len() as int].key@ == pending.target.grant_key@);
}

/// Dismissing a window takes away everything shown of it, and nothing else.
pub proof fn a_dismissed_window_is_gone(previews: Seq<ComputerUsePreview>, window_id: u32)
    ensures
        controls::dismissed(previews, window_id) == previews.filter(
            |preview: ComputerUsePreview| !reply_laws::shows(preview, window_id),
        ),
    decreases previews.len(),
{
    let keeps = |preview: ComputerUsePreview| !reply_laws::shows(preview, window_id);
    reveal(Seq::filter);
    if previews.len() > 0 {
        let rest = previews.skip(1);
        a_dismissed_window_is_gone(rest, window_id);
        assert(previews =~= seq![previews[0]] + rest);
        Seq::filter_distributes_over_add(seq![previews[0]], rest, keeps);
        let first = seq![previews[0]];
        assert(first.drop_last() =~= Seq::empty());
        assert(first.drop_last().filter(keeps) =~= Seq::empty());
        assert(first.filter(keeps) =~= if keeps(previews[0]) {
            first
        } else {
            Seq::empty()
        });
        assert(Seq::empty() + rest.filter(keeps) =~= rest.filter(keeps));
    }
}

/// The messages that still receive text are the assistant's open ones, each
/// once and in their order.
pub proof fn arriving_messages_are_the_open_ones(messages: Seq<MessageView>, n: int)
    requires
        0 <= n <= messages.len(),
    ensures
        controls::arriving_messages(messages, n) == messages.take(n).filter(
            |message: MessageView| message.role == MessageRole::Assistant && message.streaming,
        ).map_values(|message: MessageView| message.id),
    decreases n,
{
    reveal(Seq::filter);
    let open = |message: MessageView| message.role == MessageRole::Assistant && message.streaming;
    let id = |message: MessageView| message.id;
    if n > 0 {
        arriving_messages_are_the_open_ones(messages, n - 1);
        assert(messages.take(n).drop_last() =~= messages.take(n - 1));
        let above = messages.take(n - 1).filter(open);
        assert(above.push(messages[n - 1]).map_values(id) =~= above.map_values(id).push(
            messages[n - 1].id,
        ));
    } else {
        assert(messages.take(0).filter(open).map_values(id) =~= Seq::<Id>::empty());
    }
}

/// The thoughts that still grow are the steps that hold one and are not over,
/// each once and in their order.
pub proof fn live_steps_are_the_open_thoughts(activities: Seq<ActivityView>, n: int)
    requires
        0 <= n <= activities.len(),
    ensures
        controls::live_steps(activities, n) == activities.take(n).filter(
            |step: ActivityView| step.reasoning is Some && !step.complete,
        ).map_values(|step: ActivityView| step.id),
    decreases n,
{
    reveal(Seq::filter);
    let open = |step: ActivityView| step.reasoning is Some && !step.complete;
    let id = |step: ActivityView| step.id;
    if n > 0 {
        live_steps_are_the_open_thoughts(activities, n - 1);
        assert(activities.take(n).drop_last() =~= activities.take(n - 1));
        let above = activities.take(n - 1).filter(open);
        assert(above.push(activities[n - 1]).map_values(id) =~= above.map_values(id).push(
            activities[n - 1].id,
        ));
    } else {
        assert(activities.take(0).filter(open).map_values(id) =~= Seq::<Id>::empty());
    }
}

/// Every step of a transcript that holds an open thought is live, and nothing
/// else is.
pub proof fn live_thoughts_are_the_open_ones(blocks: Seq<BlockView>, n: int, id: Id)
    requires
        0 <= n <= blocks.len(),
    ensures
        controls::live_thoughts(blocks, n).contains(id) <==> exists|b: int, a: int|
            {
                &&& 0 <= b < n
                &&& 0 <= a < blocks[b].activities.len()
                &&& (#[trigger] blocks[b].activities[a]).id == id
                &&& blocks[b].activities[a].reasoning is Some
                &&& !blocks[b].activities[a].complete
            },
    decreases n,
{
    if n > 0 {
        live_thoughts_are_the_open_ones(blocks, n - 1, id);
        broadcast use vstd::seq_lib::lemma_seq_concat_contains_all_elements;

        let steps = blocks[n - 1].activities;
        lemma_live_step(steps, steps.len() as int, id);
        if exists|a: int|
            0 <= a < steps.len() && (#[trigger] steps[a]).id == id && steps[a].reasoning is Some
                && !steps[a].complete {
            let a = choose|a: int|
                0 <= a < steps.len() && (#[trigger] steps[a]).id == id && steps[a].reasoning is Some
                    && !steps[a].complete;
            assert(blocks[n - 1].activities[a].id == id);
        }
    }
}

proof fn lemma_live_step(steps: Seq<ActivityView>, n: int, id: Id)
    requires
        0 <= n <= steps.len(),
    ensures
        controls::live_steps(steps, n).contains(id) <==> exists|a: int|
            0 <= a < n && (#[trigger] steps[a]).id == id && steps[a].reasoning is Some
                && !steps[a].complete,
    decreases n,
{
    if n > 0 {
        lemma_live_step(steps, n - 1, id);
        broadcast use vstd::seq_lib::lemma_seq_contains_after_push;

        if steps[n - 1].id == id && steps[n - 1].reasoning is Some && !steps[n - 1].complete {
            assert(steps[n - 1].id == id);
        }
    }
}

} // verus!
