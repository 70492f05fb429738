//! What streaming is for: every piece of a reply reaches the transcript at its
//! place, and nothing else in the session moves.
use crate::model::{
    ActivityKind, ActivityView, BlockView, Id, MessageRole, MessageView, SessionStatus, TurnStatus,
    TurnView,
};
use crate::session::SessionView;
use crate::streaming;
use crate::streaming::{Place, StreamPhase};
use crate::text;
use vstd::prelude::*;

verus! {

// ── Steps ──────────────────────────────────────────────────────────────────

/// Whether there are few enough steps to be numbered.
pub open spec fn numbered(blocks: Seq<BlockView>) -> bool {
    &&& blocks.len() <= usize::MAX
    &&& forall|b: int|
        0 <= b < blocks.len() ==> (#[trigger] blocks[b]).activities.len() <= usize::MAX
}

/// Whether a step stands at a place.
pub open spec fn stands(blocks: Seq<BlockView>, b: int, a: int) -> bool {
    0 <= b < blocks.len() && 0 <= a < blocks[b].activities.len()
}

/// Whether one place comes behind another.
pub open spec fn behind(b: int, a: int, other_b: int, other_a: int) -> bool {
    other_b > b || (other_b == b && other_a > a)
}

/// Whether a step is what a report becomes of an earlier one: what the report
/// brings replaces what was known, and what it leaves out stays.
pub open spec fn takes_up(step: ActivityView, report: ActivityView, after: ActivityView) -> bool {
    &&& after.id == step.id
    &&& after.source_id == step.source_id
    &&& after.kind == report.kind
    &&& after.title == report.title
    &&& after.title_is_generic == report.title_is_generic
    &&& after.title_names_search == report.title_names_search
    &&& after.complete == report.complete
    &&& after.failed == report.failed
    &&& report.detail is Some ==> after.detail == report.detail
    &&& report.detail is None ==> after.detail == step.detail
    &&& report.arguments is Some ==> after.arguments == report.arguments
    &&& report.arguments is None ==> after.arguments == step.arguments
    &&& report.output is Some ==> after.output == report.output
    &&& report.output is None ==> after.output == step.output
    &&& report.reasoning is Some ==> after.reasoning == report.reasoning
    &&& report.reasoning is None ==> after.reasoning == step.reasoning
    &&& report.image_urls.len() > 0 ==> after.image_urls == report.image_urls
    &&& report.image_urls.len() == 0 ==> after.image_urls == step.image_urls
    &&& report.file_changes.len() > 0 ==> after.file_changes == report.file_changes
    &&& report.file_changes.len() == 0 ==> after.file_changes == step.file_changes
    &&& report.display_target is Some && (report.arguments is Some || step.display_target is None)
        ==> after.display_target == report.display_target
    &&& report.display_target is None || (report.arguments is None && step.display_target is Some)
        ==> after.display_target == step.display_target
    &&& report.display_description is Some && (report.arguments is Some
        || step.display_description is None) ==> after.display_description
        == report.display_description
    &&& report.display_description is None || (report.arguments is None
        && step.display_description is Some) ==> after.display_description
        == step.display_description
}

proof fn lemma_last_in_block(
    activities: Seq<ActivityView>,
    property: spec_fn(ActivityView) -> bool,
    a: int,
)
    requires
        -1 <= a < activities.len(),
        a >= 0 ==> property(activities[a]),
        forall|k: int| a < k < activities.len() ==> !property(#[trigger] activities[k]),
    ensures
        streaming::last_in_block(activities, property) == a,
    decreases activities.len(),
{
    if activities.len() > 0 && a < activities.len() - 1 {
        assert(!property(activities[activities.len() - 1]));
        let front = activities.drop_last();
        assert forall|k: int| a < k < front.len() implies !property(#[trigger] front[k]) by {
            assert(front[k] == activities[k]);
        }
        lemma_last_in_block(front, property, a);
    }
}

proof fn lemma_last_place(
    blocks: Seq<BlockView>,
    property: spec_fn(ActivityView) -> bool,
    b: int,
    a: int,
)
    requires
        numbered(blocks),
        stands(blocks, b, a),
        property(blocks[b].activities[a]),
        forall|x: int, y: int|
            stands(blocks, x, y) && behind(b, a, x, y) ==> !property(
                #[trigger] blocks[x].activities[y],
            ),
    ensures
        streaming::last_place(blocks, property) == Some(
            Place { block: b as usize, activity: a as usize },
        ),
    decreases blocks.len(),
{
    let n = blocks.len() - 1;
    assert(blocks[n] == blocks.last());
    if b == n {
        assert forall|k: int| a < k < blocks[n].activities.len() implies !property(
            #[trigger] blocks[n].activities[k],
        ) by {
            assert(stands(blocks, n, k) && behind(b, a, n, k));
        }
        lemma_last_in_block(blocks[n].activities, property, a);
    } else {
        assert forall|k: int| -1 < k < blocks[n].activities.len() implies !property(
            #[trigger] blocks[n].activities[k],
        ) by {
            assert(stands(blocks, n, k) && behind(b, a, n, k));
        }
        lemma_last_in_block(blocks[n].activities, property, -1);
        let front = blocks.drop_last();
        assert forall|x: int, y: int| stands(front, x, y) && behind(b, a, x, y) implies !property(
            #[trigger] front[x].activities[y],
        ) by {
            assert(front[x] == blocks[x]);
            assert(stands(blocks, x, y));
        }
        assert forall|k: int| 0 <= k < front.len() implies (
        #[trigger] front[k]).activities.len() <= usize::MAX by {
            assert(front[k] == blocks[k]);
        }
        lemma_last_place(front, property, b, a);
    }
}

proof fn lemma_no_place(blocks: Seq<BlockView>, property: spec_fn(ActivityView) -> bool)
    requires
        forall|x: int, y: int|
            stands(blocks, x, y) ==> !property(#[trigger] blocks[x].activities[y]),
    ensures
        streaming::last_place(blocks, property) is None,
    decreases blocks.len(),
{
    if blocks.len() > 0 {
        let n = blocks.len() - 1;
        assert forall|k: int| -1 < k < blocks[n].activities.len() implies !property(
            #[trigger] blocks[n].activities[k],
        ) by {
            assert(stands(blocks, n, k));
        }
        lemma_last_in_block(blocks[n].activities, property, -1);
        let front = blocks.drop_last();
        assert forall|x: int, y: int| stands(front, x, y) implies !property(
            #[trigger] front[x].activities[y],
        ) by {
            assert(front[x] == blocks[x]);
            assert(stands(blocks, x, y));
        }
        lemma_no_place(front, property);
    }
}

proof fn lemma_in_block_found(
    activities: Seq<ActivityView>,
    property: spec_fn(ActivityView) -> bool,
)
    ensures
        ({
            let a = streaming::last_in_block(activities, property);
            -1 <= a < activities.len() && (a >= 0 ==> property(activities[a]))
        }),
    decreases activities.len(),
{
    if activities.len() > 0 {
        lemma_in_block_found(activities.drop_last(), property);
    }
}

proof fn lemma_place_found(blocks: Seq<BlockView>, property: spec_fn(ActivityView) -> bool)
    requires
        numbered(blocks),
    ensures
        streaming::last_place(blocks, property) matches Some(place) ==> stands(
            blocks,
            place.block as int,
            place.activity as int,
        ) && property(blocks[place.block as int].activities[place.activity as int]),
    decreases blocks.len(),
{
    if blocks.len() > 0 {
        let n = blocks.len() - 1;
        assert(blocks[n] == blocks.last());
        lemma_in_block_found(blocks[n].activities, property);
        let front = blocks.drop_last();
        assert forall|k: int| 0 <= k < front.len() implies (
        #[trigger] front[k]).activities.len() <= usize::MAX by {
            assert(front[k] == blocks[k]);
        }
        lemma_place_found(front, property);
        if streaming::last_in_block(blocks[n].activities, property) < 0 {
            if let Some(place) = streaming::last_place(front, property) {
                assert(front[place.block as int] == blocks[place.block as int]);
            }
        }
    }
}

/// Whether the steps of two transcripts are the same, but for which of them
/// are over.
pub open spec fn same_steps(before: Seq<BlockView>, after: Seq<BlockView>) -> bool {
    &&& after.len() == before.len()
    &&& forall|b: int|
        0 <= b < before.len() ==> (#[trigger] after[b]).after_message == before[b].after_message
            && after[b].turn_id == before[b].turn_id && after[b].activities.len()
            == before[b].activities.len()
    &&& forall|b: int, a: int|
        stands(before, b, a) ==> #[trigger] after[b].activities[a] == (ActivityView {
            complete: after[b].activities[a].complete,
            ..before[b].activities[a]
        })
}

proof fn lemma_phase_ends(session: SessionView, phase: Option<StreamPhase>, now: u64)
    requires
        numbered(session.blocks),
    ensures
        ({
            let ready = streaming::before_activity(session, phase, now);
            &&& same_steps(session.blocks, ready.blocks)
            &&& phase != Some(StreamPhase::Reasoning) ==> ready.blocks == session.blocks
            &&& ready.messages.len() == session.messages.len()
            &&& ready.turns == session.turns
        }),
{
    let ready = streaming::before_activity(session, phase, now);
    lemma_place_found(
        session.blocks,
        |activity: ActivityView| streaming::open_reasoning(activity),
    );
    assert forall|b: int, a: int| stands(
        session.blocks,
        b,
        a,
    ) implies #[trigger] ready.blocks[b].activities[a] == (ActivityView {
        complete: ready.blocks[b].activities[a].complete,
        ..session.blocks[b].activities[a]
    }) by {
        assert(ready.blocks[b].activities[a] =~= ActivityView {
            complete: ready.blocks[b].activities[a].complete,
            ..session.blocks[b].activities[a]
        });
    }
}

/// A report about a step whose identity the provider names is taken up by the
/// last step with that identity, and by no other: the transcript gains and
/// loses none. The step's cached diff is stale exactly where the report brings
/// file changes.
pub proof fn a_named_step_takes_up_its_report(
    session: SessionView,
    phase: Option<StreamPhase>,
    report: ActivityView,
    now: u64,
    b: int,
    a: int,
)
    requires
        numbered(session.blocks),
        stands(session.blocks, b, a),
        report.source_id is Some,
        session.blocks[b].activities[a].source_id == report.source_id,
        forall|x: int, y: int|
            stands(session.blocks, x, y) && behind(b, a, x, y) ==> (
            #[trigger] session.blocks[x].activities[y]).source_id != report.source_id,
    ensures
        ({
            let after = streaming::activity_updated(session, phase, report, now);
            let step = session.blocks[b].activities[a];
            &&& after.blocks.len() == session.blocks.len()
            &&& forall|x: int|
                0 <= x < session.blocks.len() ==> (#[trigger] after.blocks[x]).activities.len()
                    == session.blocks[x].activities.len()
            &&& takes_up(step, report, after.blocks[b].activities[a])
            &&& forall|x: int, y: int|
                stands(session.blocks, x, y) && !(x == b && y == a) ==> (
                #[trigger] after.blocks[x].activities[y]) == (ActivityView {
                    complete: after.blocks[x].activities[y].complete,
                    ..session.blocks[x].activities[y]
                })
            &&& phase != Some(StreamPhase::Reasoning) ==> forall|x: int, y: int|
                stands(session.blocks, x, y) && !(x == b && y == a) ==> (
                #[trigger] after.blocks[x].activities[y]) == session.blocks[x].activities[y]
            &&& after.messages.len() == session.messages.len()
            &&& after.updated_at == now
            &&& streaming::stale_diff(session, phase, report, now) == if report.file_changes.len()
                > 0 {
                Some(step.id)
            } else {
                None
            }
        }),
{
    let ready = streaming::before_activity(session, phase, now);
    let property = |activity: ActivityView| streaming::continues(activity, report);
    lemma_phase_ends(session, phase, now);
    assert(stands(ready.blocks, b, a));
    assert(property(ready.blocks[b].activities[a])) by {
        assert(ready.blocks[b].activities[a].source_id == session.blocks[b].activities[a].source_id);
    }
    assert forall|x: int, y: int| stands(ready.blocks, x, y) && behind(b, a, x, y) implies !property(
        #[trigger] ready.blocks[x].activities[y],
    ) by {
        assert(stands(session.blocks, x, y));
        assert(session.blocks[x].activities[y].source_id != report.source_id);
        assert(ready.blocks[x].activities[y].source_id == session.blocks[x].activities[y].source_id);
    }
    assert(numbered(ready.blocks));
    lemma_last_place(ready.blocks, property, b, a);
}

/// A report about a step without an identity is taken up by the last step with
/// its title that is not over.
pub proof fn an_unnamed_step_takes_up_its_report(
    session: SessionView,
    phase: Option<StreamPhase>,
    report: ActivityView,
    now: u64,
    b: int,
    a: int,
)
    requires
        numbered(session.blocks),
        stands(session.blocks, b, a),
        phase != Some(StreamPhase::Reasoning),
        report.source_id is None,
        session.blocks[b].activities[a].title == report.title,
        !session.blocks[b].activities[a].complete,
        forall|x: int, y: int|
            stands(session.blocks, x, y) && behind(b, a, x, y) ==> (
            #[trigger] session.blocks[x].activities[y]).title != report.title
                || session.blocks[x].activities[y].complete,
    ensures
        ({
            let after = streaming::activity_updated(session, phase, report, now);
            let step = session.blocks[b].activities[a];
            &&& after.blocks.len() == session.blocks.len()
            &&& after.blocks[b].activities.len() == session.blocks[b].activities.len()
            &&& takes_up(step, report, after.blocks[b].activities[a])
            &&& forall|x: int, y: int|
                stands(session.blocks, x, y) && !(x == b && y == a) ==> (
                #[trigger] after.blocks[x].activities[y]) == session.blocks[x].activities[y]
            &&& streaming::stale_diff(session, phase, report, now) == if report.file_changes.len()
                > 0 {
                Some(step.id)
            } else {
                None
            }
        }),
{
    let property = |activity: ActivityView| streaming::continues(activity, report);
    lemma_phase_ends(session, phase, now);
    lemma_last_place(session.blocks, property, b, a);
}

/// Whether a transcript is another with one more step at its end, which joins
/// the last block exactly where work goes on there: at the same message and in
/// the same turn.
pub open spec fn one_step_more(
    session: SessionView,
    before: Seq<BlockView>,
    after: Seq<BlockView>,
    step: ActivityView,
    goes_on: bool,
) -> bool {
    let turn = if session.turns.len() > 0 && session.turns.last().status == TurnStatus::Running {
        Some(session.turns.last().id)
    } else {
        None
    };
    if goes_on && before.len() > 0 && before.last().after_message == session.messages.len()
        && before.last().turn_id == turn {
        &&& after.len() == before.len()
        &&& after.drop_last() == before.drop_last()
        &&& after.last().after_message == before.last().after_message
        &&& after.last().turn_id == turn
        &&& after.last().activities == before.last().activities.push(step)
    } else {
        &&& after.len() == before.len() + 1
        &&& after.drop_last() == before
        &&& after.last().after_message == session.messages.len()
        &&& after.last().turn_id == turn
        &&& after.last().activities == seq![step]
    }
}

/// A step that is added stands last, in a block of its own or behind the work
/// that it goes on with. Nothing else in the session changes.
pub proof fn an_added_step_stands_last(session: SessionView, step: ActivityView, goes_on: bool)
    requires
        session.messages.len() <= usize::MAX,
    ensures
        ({
            let after = streaming::with_step(session, step, goes_on);
            &&& one_step_more(session, session.blocks, after.blocks, step, goes_on)
            &&& after == (SessionView { blocks: after.blocks, ..session })
        }),
{
    let after = streaming::with_step(session, step, goes_on);
    assert(after.blocks.drop_last() =~= if after.blocks.len() == session.blocks.len() {
        session.blocks.drop_last()
    } else {
        session.blocks
    });
    assert(after == SessionView { blocks: after.blocks, ..session });
}

/// A report that continues no step adds one.
pub proof fn a_new_step_is_added(
    session: SessionView,
    phase: Option<StreamPhase>,
    report: ActivityView,
    now: u64,
)
    requires
        numbered(session.blocks),
        session.messages.len() <= usize::MAX,
        forall|x: int, y: int|
            stands(session.blocks, x, y) ==> match report.source_id {
                Some(source) => (#[trigger] session.blocks[x].activities[y]).source_id != Some(
                    source,
                ),
                None => session.blocks[x].activities[y].title != report.title
                    || session.blocks[x].activities[y].complete,
            },
    ensures
        ({
            let after = streaming::activity_updated(session, phase, report, now);
            let ready = streaming::before_activity(session, phase, now);
            &&& one_step_more(
                session,
                ready.blocks,
                after.blocks,
                report,
                phase == Some(StreamPhase::Reasoning) || phase == Some(StreamPhase::Activity),
            )
            &&& same_steps(session.blocks, ready.blocks)
            &&& after.messages.len() == session.messages.len()
            &&& after.updated_at == now
            &&& streaming::stale_diff(session, phase, report, now) is None
        }),
{
    let ready = streaming::before_activity(session, phase, now);
    let property = |activity: ActivityView| streaming::continues(activity, report);
    lemma_phase_ends(session, phase, now);
    assert forall|x: int, y: int| stands(ready.blocks, x, y) implies !property(
        #[trigger] ready.blocks[x].activities[y],
    ) by {
        assert(stands(session.blocks, x, y));
        let step = session.blocks[x].activities[y];
        assert(match report.source_id {
            Some(source) => step.source_id != Some(source),
            None => step.title != report.title || step.complete,
        });
        if step.complete {
            lemma_over_stays_over(session, phase, now, x, y);
        }
    }
    lemma_no_place(ready.blocks, property);
    an_added_step_stands_last(ready, report, streaming::work_continues(phase));
}

proof fn lemma_over_stays_over(
    session: SessionView,
    phase: Option<StreamPhase>,
    now: u64,
    x: int,
    y: int,
)
    requires
        numbered(session.blocks),
        stands(session.blocks, x, y),
        session.blocks[x].activities[y].complete,
    ensures
        streaming::before_activity(session, phase, now).blocks[x].activities[y].complete,
{
    lemma_place_found(
        session.blocks,
        |activity: ActivityView| streaming::open_reasoning(activity),
    );
}

// ── Text ───────────────────────────────────────────────────────────────────

proof fn lemma_last_streaming(messages: Seq<MessageView>, n: int, at: int)
    requires
        -1 <= at < n <= messages.len(),
        at >= 0 ==> messages[at].role == MessageRole::Assistant && messages[at].streaming,
        forall|k: int|
            at < k < n ==> !((#[trigger] messages[k]).role == MessageRole::Assistant
                && messages[k].streaming),
    ensures
        streaming::last_streaming(messages, n) == at,
    decreases n,
{
    if n > 0 && at < n - 1 {
        assert(!(messages[n - 1].role == MessageRole::Assistant && messages[n - 1].streaming));
        lemma_last_streaming(messages, n - 1, at);
    }
}

/// Text that continues a stream lengthens the message that receives it, the
/// last of the assistant's that is open; every other message stays.
pub proof fn text_lengthens_the_open_message(
    session: SessionView,
    delta: Seq<char>,
    message_id: Id,
    now: u64,
    at: int,
)
    requires
        0 <= at < session.messages.len(),
        session.messages[at].role == MessageRole::Assistant,
        session.messages[at].streaming,
        forall|k: int|
            at < k < session.messages.len() ==> !((#[trigger] session.messages[k]).role
                == MessageRole::Assistant && session.messages[k].streaming),
    ensures
        ({
            let after = streaming::text_appended(session, true, delta, message_id, now);
            &&& after.messages.len() == session.messages.len()
            &&& after.messages[at] == (MessageView {
                content: session.messages[at].content + delta,
                ..session.messages[at]
            })
            &&& forall|k: int|
                0 <= k < session.messages.len() && k != at ==> #[trigger] after.messages[k]
                    == session.messages[k]
            &&& after == (SessionView { messages: after.messages, updated_at: now, ..session })
        }),
{
    lemma_last_streaming(session.messages, session.messages.len() as int, at);
    let after = streaming::text_appended(session, true, delta, message_id, now);
    assert(after == SessionView { messages: after.messages, updated_at: now, ..session });
}

/// Text that continues no stream opens a message of the assistant's in the
/// running turn, behind all others, none of which receives text any more.
pub proof fn text_opens_a_message(
    session: SessionView,
    continuing: bool,
    delta: Seq<char>,
    message_id: Id,
    now: u64,
)
    requires
        continuing ==> forall|k: int|
            0 <= k < session.messages.len() ==> !((#[trigger] session.messages[k]).role
                == MessageRole::Assistant && session.messages[k].streaming),
    ensures
        ({
            let after = streaming::text_appended(session, continuing, delta, message_id, now);
            let count = session.messages.len() as int;
            &&& after.messages.len() == count + 1
            &&& forall|k: int|
                0 <= k < count ==> #[trigger] after.messages[k] == (MessageView {
                    streaming: after.messages[k].streaming,
                    ..session.messages[k]
                })
            &&& forall|k: int|
                0 <= k < count && (#[trigger] after.messages[k]).role == MessageRole::Assistant
                    ==> !after.messages[k].streaming
            &&& after.messages[count].id == message_id
            &&& after.messages[count].role == MessageRole::Assistant
            &&& after.messages[count].content == delta
            &&& after.messages[count].streaming
            &&& after.messages[count].created_at == now
            &&& after.messages[count].turn_id == if session.turns.len() > 0
                && session.turns.last().status == TurnStatus::Running {
                Some(session.turns.last().id)
            } else {
                None
            }
            &&& after == (SessionView { messages: after.messages, updated_at: now, ..session })
        }),
{
    if continuing {
        lemma_last_streaming(session.messages, session.messages.len() as int, -1);
    }
    let after = streaming::text_appended(session, continuing, delta, message_id, now);
    assert(after == SessionView { messages: after.messages, updated_at: now, ..session });
}

/// What the assistant says in several pieces is what it says in one.
pub proof fn pieces_of_text_add_up(
    session: SessionView,
    first: Seq<char>,
    second: Seq<char>,
    message_id: Id,
    other_id: Id,
    now: u64,
)
    ensures
        streaming::text_appended(
            streaming::text_appended(session, false, first, message_id, now),
            true,
            second,
            other_id,
            now,
        ) == streaming::text_appended(session, false, first + second, message_id, now),
{
    let opened = streaming::text_appended(session, false, first, message_id, now);
    let count = session.messages.len() as int;
    text_opens_a_message(session, false, first, message_id, now);
    text_opens_a_message(session, false, first + second, message_id, now);
    text_lengthens_the_open_message(opened, second, other_id, now, count);
    let whole = streaming::text_appended(session, false, first + second, message_id, now);
    let pieces = streaming::text_appended(opened, true, second, other_id, now);
    assert(pieces.messages =~= whole.messages);
}

// ── Thought ────────────────────────────────────────────────────────────────

/// Thought that goes on lengthens the thought that the last step holds, and
/// moves its end; nothing else changes.
pub proof fn thought_lengthens_the_last_step(
    session: SessionView,
    delta: Seq<char>,
    activity_id: Id,
    title: Seq<char>,
    now: u64,
    now_ms: u64,
)
    requires
        numbered(session.blocks),
        session.blocks.len() > 0,
        session.blocks.last().activities.len() > 0,
        session.blocks.last().activities.last().reasoning is Some,
    ensures
        ({
            let phase = Some(StreamPhase::Reasoning);
            let after = streaming::reasoning_appended(
                session,
                phase,
                delta,
                activity_id,
                title,
                now,
                now_ms,
            );
            let step = session.blocks.last().activities.last();
            let grown = after.blocks.last().activities.last();
            &&& after.blocks.len() == session.blocks.len()
            &&& after.blocks.drop_last() == session.blocks.drop_last()
            &&& after.blocks.last().activities.len() == session.blocks.last().activities.len()
            &&& after.blocks.last().activities.drop_last()
                == session.blocks.last().activities.drop_last()
            &&& grown == (ActivityView { reasoning: grown.reasoning, ..step })
            &&& grown.reasoning matches Some(thought)
            &&& thought.content == step.reasoning->0.content + delta
            &&& thought.started_at_ms == step.reasoning->0.started_at_ms
            &&& thought.finished_at_ms == now_ms
            &&& after.messages == session.messages
            &&& streaming::phase_after_reasoning(phase, delta) == phase
        }),
{
    let after = streaming::reasoning_appended(
        session,
        Some(StreamPhase::Reasoning),
        delta,
        activity_id,
        title,
        now,
        now_ms,
    );
    let n = session.blocks.len() - 1;
    assert(session.blocks[n].activities.len() <= usize::MAX);
    assert(after.blocks.drop_last() =~= session.blocks.drop_last());
    assert(after.blocks.last().activities.drop_last()
        =~= session.blocks.last().activities.drop_last());
    let grown = after.blocks.last().activities.last();
    let step = session.blocks.last().activities.last();
    assert(grown =~= ActivityView { reasoning: grown.reasoning, ..step });
}

/// Thought that begins is a step of its own, with the time it began; blank text
/// begins none and changes nothing.
pub proof fn thought_begins_with_words(
    session: SessionView,
    phase: Option<StreamPhase>,
    delta: Seq<char>,
    activity_id: Id,
    title: Seq<char>,
    now: u64,
    now_ms: u64,
)
    requires
        session.messages.len() <= usize::MAX,
        phase != Some(StreamPhase::Reasoning),
    ensures
        ({
            let after = streaming::reasoning_appended(
                session,
                phase,
                delta,
                activity_id,
                title,
                now,
                now_ms,
            );
            let next = streaming::phase_after_reasoning(phase, delta);
            if text::blank(delta) {
                after == session && next == phase
            } else {
                let step = after.blocks.last().activities.last();
                &&& next == Some(StreamPhase::Reasoning)
                &&& after.blocks.len() > 0 && after.blocks.last().activities.len() > 0
                &&& one_step_more(
                    session,
                    session.blocks,
                    after.blocks,
                    step,
                    phase == Some(StreamPhase::Activity),
                )
                &&& step.id == activity_id
                &&& step.kind == ActivityKind::Reasoning
                &&& step.title == title
                &&& !step.complete
                &&& step.reasoning matches Some(thought)
                &&& thought.content == delta
                &&& thought.started_at_ms == now_ms && thought.finished_at_ms == now_ms
                &&& after.messages.len() == session.messages.len()
            }
        }),
{
    let settled = streaming::finished_streaming(session);
    let after = streaming::reasoning_appended(
        session,
        phase,
        delta,
        activity_id,
        title,
        now,
        now_ms,
    );
    if !text::blank(delta) {
        let step = after.blocks.last().activities.last();
        an_added_step_stands_last(settled, step, streaming::work_continues(phase));
    }
}

/// The end of a thought ends the last one that is open, and no other step.
pub proof fn a_thought_ends_once(session: SessionView, now: u64, b: int, a: int)
    requires
        numbered(session.blocks),
        stands(session.blocks, b, a),
        session.blocks[b].activities[a].reasoning is Some,
        !session.blocks[b].activities[a].complete,
        forall|x: int, y: int|
            stands(session.blocks, x, y) && behind(b, a, x, y) ==> (
            #[trigger] session.blocks[x].activities[y]).reasoning is None
                || session.blocks[x].activities[y].complete,
    ensures
        ({
            let after = streaming::reasoning_completed(session, now);
            &&& after.blocks.len() == session.blocks.len()
            &&& after.blocks[b].activities[a] == (ActivityView {
                complete: true,
                ..session.blocks[b].activities[a]
            })
            &&& forall|x: int, y: int|
                stands(session.blocks, x, y) && !(x == b && y == a) ==> (
                #[trigger] after.blocks[x].activities[y]) == session.blocks[x].activities[y]
            &&& after.messages == session.messages && after.turns == session.turns
        }),
{
    lemma_last_place(
        session.blocks,
        |activity: ActivityView| streaming::open_reasoning(activity),
        b,
        a,
    );
}

/// The end of a thought moves nothing but that step.
pub proof fn a_thought_leaves_the_rest(session: SessionView, now: u64)
    requires
        numbered(session.blocks),
    ensures
        ({
            let after = streaming::reasoning_completed(session, now);
            &&& same_steps(session.blocks, after.blocks)
            &&& after == (SessionView {
                blocks: after.blocks,
                updated_at: after.updated_at,
                ..session
            })
        }),
{
    lemma_phase_ends(session, Some(StreamPhase::Reasoning), now);
    let after = streaming::reasoning_completed(session, now);
    assert(after == SessionView { blocks: after.blocks, updated_at: after.updated_at, ..session });
}

/// A report moves nothing but steps, and the marks of messages that still
/// received text.
pub proof fn a_report_leaves_the_turns(
    session: SessionView,
    phase: Option<StreamPhase>,
    report: ActivityView,
    now: u64,
)
    ensures
        ({
            let after = streaming::activity_updated(session, phase, report, now);
            &&& after == (SessionView {
                blocks: after.blocks,
                messages: after.messages,
                updated_at: now,
                ..session
            })
            &&& phase != Some(StreamPhase::Text) ==> after.messages == session.messages
            &&& after.messages.len() == session.messages.len()
            &&& forall|k: int|
                0 <= k < session.messages.len() ==> (#[trigger] after.messages[k])
                    == (MessageView {
                    streaming: after.messages[k].streaming,
                    ..session.messages[k]
                })
            &&& phase == Some(StreamPhase::Text) ==> forall|k: int|
                0 <= k < session.messages.len() && (#[trigger] after.messages[k]).role
                    == MessageRole::Assistant ==> !after.messages[k].streaming
        }),
{
    let after = streaming::activity_updated(session, phase, report, now);
    assert(after == SessionView {
        blocks: after.blocks,
        messages: after.messages,
        updated_at: now,
        ..session
    });
}

// ── What settles ───────────────────────────────────────────────────────────

/// Text that no longer streams stays as it is, whoever said it; only the mark
/// of the assistant's messages goes.
pub proof fn settled_text_stays(session: SessionView)
    ensures
        ({
            let after = streaming::finished_streaming(session);
            &&& after.messages.len() == session.messages.len()
            &&& forall|k: int|
                0 <= k < session.messages.len() ==> (#[trigger] after.messages[k])
                    == (MessageView {
                    streaming: session.messages[k].streaming && session.messages[k].role
                        != MessageRole::Assistant,
                    ..session.messages[k]
                })
            &&& after == (SessionView { messages: after.messages, ..session })
        }),
{
    let after = streaming::finished_streaming(session);
    assert(after == SessionView { messages: after.messages, ..session });
}

/// Steps that are over stay as they are.
pub proof fn settled_steps_stay(session: SessionView)
    ensures
        ({
            let after = streaming::completed_blocks(session);
            &&& after.blocks.len() == session.blocks.len()
            &&& forall|b: int|
                0 <= b < session.blocks.len() ==> (#[trigger] after.blocks[b]).after_message
                    == session.blocks[b].after_message && after.blocks[b].turn_id
                    == session.blocks[b].turn_id && after.blocks[b].activities.len()
                    == session.blocks[b].activities.len()
            &&& forall|b: int, a: int|
                stands(session.blocks, b, a) ==> (#[trigger] after.blocks[b].activities[a]) == (
                ActivityView { complete: true, ..session.blocks[b].activities[a] })
            &&& after == (SessionView { blocks: after.blocks, ..session })
        }),
{
    let after = streaming::completed_blocks(session);
    assert(after == SessionView { blocks: after.blocks, ..session });
}

/// A session is found by its identity: the first that has it.
pub proof fn a_session_is_found_by_its_identity(sessions: Seq<SessionView>, session_id: Id)
    ensures
        match streaming::session_index(sessions, session_id) {
            Some(i) => 0 <= i < sessions.len() && sessions[i].id == session_id && forall|k: int|
                0 <= k < i ==> (#[trigger] sessions[k]).id != session_id,
            None => forall|k: int|
                0 <= k < sessions.len() ==> (#[trigger] sessions[k]).id != session_id,
        },
    decreases sessions.len(),
{
    if sessions.len() > 0 {
        let rest = sessions.skip(1);
        a_session_is_found_by_its_identity(rest, session_id);
        assert forall|k: int| 0 < k < sessions.len() implies #[trigger] sessions[k]
            == rest[k - 1] by {}
    }
}

/// Output that is taken up shows that the turn has been started; nothing that
/// was said or done moves.
pub proof fn output_confirms_the_turn(session: SessionView)
    ensures
        ({
            let after = streaming::output_accepted(session);
            let runs = session.turns.len() > 0 && session.turns.last().status
                == TurnStatus::Running && session.status != SessionStatus::Idle && session.status
                != SessionStatus::Failed;
            &&& streaming::takes_output(session) <==> runs
            &&& !runs ==> after == session
            &&& runs ==> {
                &&& after.turns.len() == session.turns.len()
                &&& after.turns.drop_last() == session.turns.drop_last()
                &&& after.turns.last() == (TurnView {
                    provider_started: true,
                    ..session.turns.last()
                })
                &&& after.status == if session.status == SessionStatus::Connecting {
                    SessionStatus::Working
                } else {
                    session.status
                }
                &&& after == (SessionView {
                    turns: after.turns,
                    status: after.status,
                    ..session
                })
            }
        }),
{
    let after = streaming::output_accepted(session);
    assert(after.turns.drop_last() =~= session.turns.drop_last());
    assert(after == SessionView { turns: after.turns, status: after.status, ..session });
}

// ── Errors and excerpts ────────────────────────────────────────────────────

proof fn lemma_line_end_shifted(text: Seq<char>, from: int, k: int)
    requires
        0 <= k <= from <= text.len(),
    ensures
        streaming::line_end(text, from) == streaming::line_end(text.skip(k), from - k) + k,
    decreases text.len() - from,
{
    if from < text.len() && text[from] != '\n' {
        lemma_line_end_shifted(text, from + 1, k);
    }
}

proof fn lemma_line_end_bounds(text: Seq<char>, from: int)
    requires
        0 <= from <= text.len(),
    ensures
        from <= streaming::line_end(text, from) <= text.len(),
    decreases text.len() - from,
{
    if from < text.len() && text[from] != '\n' {
        lemma_line_end_bounds(text, from + 1);
    }
}

proof fn lemma_lines_shifted(text: Seq<char>, from: int, k: int)
    requires
        0 <= k <= from <= text.len(),
    ensures
        streaming::lines_from(text, from) == streaming::lines_from(text.skip(k), from - k),
    decreases text.len() - from,
{
    lemma_line_end_shifted(text, from, k);
    lemma_line_end_bounds(text, from);
    if from < text.len() {
        let end = streaming::line_end(text, from);
        assert(text.skip(k).subrange(from - k, end - k) =~= text.subrange(from, end));
        if end < text.len() {
            lemma_lines_shifted(text, end + 1, k);
        }
    }
}

proof fn lemma_line_end_of(line: Seq<char>, rest: Seq<char>, from: int)
    requires
        0 <= from <= line.len(),
        forall|i: int| 0 <= i < line.len() ==> #[trigger] line[i] != '\n',
    ensures
        streaming::line_end(line.push('\n') + rest, from) == line.len(),
        streaming::line_end(line, from) == line.len(),
    decreases line.len() - from,
{
    let text = line.push('\n') + rest;
    if from < line.len() {
        assert(text[from] == line[from]);
        lemma_line_end_of(line, rest, from + 1);
    } else {
        assert(text[from] == '\n');
    }
}

/// A line feed ends a line and belongs to none, nor does the carriage return
/// before it; what follows are the lines of the rest.
pub proof fn a_line_feed_ends_a_line(line: Seq<char>, rest: Seq<char>)
    requires
        forall|i: int| 0 <= i < line.len() ==> #[trigger] line[i] != '\n',
    ensures
        ({
            let lines = streaming::lines(line.push('\n') + rest);
            &&& lines.len() == streaming::lines(rest).len() + 1
            &&& lines.skip(1) == streaming::lines(rest)
            &&& lines[0] == if line.len() > 0 && line.last() == '\r' {
                line.drop_last()
            } else {
                line
            }
        }),
        streaming::lines(line) == if line.len() == 0 {
            Seq::<Seq<char>>::empty()
        } else {
            seq![line]
        },
{
    let text = line.push('\n') + rest;
    lemma_line_end_of(line, rest, 0);
    lemma_lines_shifted(text, line.len() as int + 1, line.len() as int + 1);
    assert(text.skip(line.len() as int + 1) =~= rest);
    assert(text.subrange(0, line.len() as int) =~= line);
    assert(line.subrange(0, line.len() as int) =~= line);
    assert(streaming::lines(text).skip(1) =~= streaming::lines(rest));
    assert(streaming::lines_from(line, line.len() as int) =~= Seq::<Seq<char>>::empty());
}

/// What is shown of an error is short, and it is the error's first lines: as
/// they are where there are few, and cut behind them otherwise.
pub proof fn an_error_is_cut_to_its_beginning(error: Seq<char>)
    ensures
        ({
            let shown = streaming::compact_error(error);
            let all = streaming::lines(error);
            let first = text::joined(
                if all.len() > 6 {
                    all.take(6)
                } else {
                    all
                },
                "\n"@,
            );
            &&& shown.len() <= 800
            &&& all.len() <= 6 && first.len() <= 800 ==> shown == first
            &&& all.len() > 6 && first.len() <= 798 ==> shown == first + "\n…"@
            &&& first.len() <= 799 ==> first.is_prefix_of(shown)
            &&& first.len() > 799 ==> shown.take(799) == first.take(799)
        }),
{
    reveal_strlit("…");
    reveal_strlit("\n…");
    let shown = streaming::compact_error(error);
    let all = streaming::lines(error);
    let first = text::joined(
        if all.len() > 6 {
            all.take(6)
        } else {
            all
        },
        "\n"@,
    );
    let head = streaming::error_head(error);
    assert(head.len() >= first.len());
    assert(head.take(first.len() as int) =~= first);
    if first.len() > 799 {
        assert(shown.take(799) =~= first.take(799));
    } else {
        assert(shown.take(first.len() as int) =~= first);
    }
}

/// What a turn's excerpt holds grows with the messages of its turn and role, a
/// line for each, and with no others.
pub proof fn an_excerpt_takes_up_its_turn(
    messages: Seq<MessageView>,
    message: MessageView,
    turn_id: Id,
    role: MessageRole,
)
    ensures
        ({
            let n = messages.len() as int;
            let before = streaming::turn_text(messages, turn_id, role, n);
            let after = streaming::turn_text(messages.push(message), turn_id, role, n + 1);
            if message.turn_id != Some(turn_id) || message.role != role {
                after == before
            } else if before.len() == 0 {
                after == message.content
            } else {
                after == before.push('\n') + message.content
            }
        }),
        streaming::turn_text(Seq::empty(), turn_id, role, 0).len() == 0,
{
    lemma_turn_text_front(messages, message, turn_id, role, messages.len() as int);
}

proof fn lemma_turn_text_front(
    messages: Seq<MessageView>,
    message: MessageView,
    turn_id: Id,
    role: MessageRole,
    n: int,
)
    requires
        0 <= n <= messages.len(),
    ensures
        streaming::turn_text(messages.push(message), turn_id, role, n) == streaming::turn_text(
            messages,
            turn_id,
            role,
            n,
        ),
    decreases n,
{
    if n > 0 {
        lemma_turn_text_front(messages, message, turn_id, role, n - 1);
    }
}

/// A session is excerpted where its last turn holds words of the user or of the
/// assistant; the excerpt names both, each cut to the limit.
pub proof fn an_excerpt_needs_words(session: SessionView, limit: nat)
    ensures
        ({
            let count = session.messages.len() as int;
            let turn = session.turns.last().id;
            let user = streaming::turn_text(session.messages, turn, MessageRole::User, count);
            let reply = streaming::turn_text(
                session.messages,
                turn,
                MessageRole::Assistant,
                count,
            );
            let excerpt = streaming::excerpt_of(session, limit);
            &&& excerpt is Some <==> session.turns.len() > 0 && !(text::blank(user)
                && text::blank(reply))
            &&& excerpt matches Some(excerpt) ==> excerpt == "User:\n"@ + text::byte_prefix(
                user,
                limit,
            ) + "\n\nAssistant:\n"@ + text::byte_prefix(reply, limit)
        }),
{
}

} // verus!
