//! What streamed provider output does to a session's transcript.
use crate::model::{
    ActivityItem, ActivityKind, ActivityView, BlockView, FileChange, Id, Message, MessageRole,
    MessageView, ReasoningBlock, ReasoningView, SessionStatus, TranscriptBlock,
};
use crate::session::{AgentSession, SessionView};
use crate::text;
use vstd::prelude::*;

verus! {

/// What the provider streamed last in this session.
#[derive(Clone, Copy, Debug, PartialEq, Eq, Structural, Hash)]
pub enum StreamPhase {
    Text,
    Reasoning,
    Activity,
}

// ── Finishing what streams ─────────────────────────────────────────────────

/// A message in which no more text arrives.
pub open spec fn finished_message(message: MessageView) -> MessageView {
    if message.role == MessageRole::Assistant {
        MessageView { streaming: false, ..message }
    } else {
        message
    }
}

/// The session with no assistant message still receiving text.
pub open spec fn finished_streaming(session: SessionView) -> SessionView {
    SessionView {
        messages: Seq::new(
            session.messages.len(),
            |i: int| finished_message(session.messages[i]),
        ),
        ..session
    }
}

/// Mark every assistant message as complete text.
pub fn finish_streaming_assistant(session: &mut AgentSession)
    ensures
        final(session)@ == finished_streaming(old(session)@),
        final(session).messages@.len() == old(session).messages@.len(),
{
    let ghost before = session@;
    let mut i: usize = 0;
    while i < session.messages.len()
        invariant
            i <= session.messages@.len(),
            session.messages@.len() == before.messages.len(),
            session@ == (SessionView { messages: session@.messages, ..before }),
            forall|k: int|
                0 <= k < i ==> #[trigger] session@.messages[k] == finished_message(
                    before.messages[k],
                ),
            forall|k: int|
                i <= k < before.messages.len() ==> #[trigger] session@.messages[k]
                    == before.messages[k],
        decreases session.messages@.len() - i,
    {
        assert(session@.messages[i as int] == session.messages@[i as int]@);
        let ghost current = session@.messages;
        if session.messages[i].role == MessageRole::Assistant && session.messages[i].streaming {
            session.messages[i].streaming = false;
            assert(session@.messages =~= current.update(
                i as int,
                finished_message(before.messages[i as int]),
            ));
        } else {
            assert(current[i as int] == finished_message(before.messages[i as int]));
        }
        i += 1;
    }
    assert(session@.messages =~= finished_streaming(before).messages);
}

/// A step that is over.
pub open spec fn completed_activity(activity: ActivityView) -> ActivityView {
    ActivityView { complete: true, ..activity }
}

/// A block all of whose steps are over.
pub open spec fn completed_block(block: BlockView) -> BlockView {
    BlockView {
        activities: Seq::new(
            block.activities.len(),
            |i: int| completed_activity(block.activities[i]),
        ),
        ..block
    }
}

/// The session with every step over.
pub open spec fn completed_blocks(session: SessionView) -> SessionView {
    SessionView {
        blocks: Seq::new(session.blocks.len(), |i: int| completed_block(session.blocks[i])),
        ..session
    }
}

fn complete_block(block: &mut TranscriptBlock)
    ensures
        final(block)@ == completed_block(old(block)@),
{
    let ghost before = block@;
    let mut i: usize = 0;
    while i < block.activities.len()
        invariant
            i <= block.activities@.len(),
            block.activities@.len() == before.activities.len(),
            block@ == (BlockView { activities: block@.activities, ..before }),
            forall|k: int|
                0 <= k < i ==> #[trigger] block@.activities[k] == completed_activity(
                    before.activities[k],
                ),
            forall|k: int|
                i <= k < before.activities.len() ==> #[trigger] block@.activities[k]
                    == before.activities[k],
        decreases block.activities@.len() - i,
    {
        let ghost current = block@.activities;
        assert(current[i as int] == block.activities@[i as int]@);
        block.activities[i].complete = true;
        assert(block@.activities =~= current.update(
            i as int,
            completed_activity(before.activities[i as int]),
        ));
        i += 1;
    }
    assert(block@ =~= completed_block(before));
}

/// Mark every step of the session as over.
pub fn complete_turn_blocks(session: &mut AgentSession)
    ensures
        final(session)@ == completed_blocks(old(session)@),
        final(session).messages == old(session).messages,
{
    let ghost before = session@;
    let mut i: usize = 0;
    while i < session.transcript_blocks.len()
        invariant
            i <= session.transcript_blocks@.len(),
            session.transcript_blocks@.len() == before.blocks.len(),
            session.messages == old(session).messages,
            session@ == (SessionView { blocks: session@.blocks, ..before }),
            forall|k: int|
                0 <= k < i ==> #[trigger] session@.blocks[k] == completed_block(before.blocks[k]),
            forall|k: int|
                i <= k < before.blocks.len() ==> #[trigger] session@.blocks[k] == before.blocks[k],
        decreases session.transcript_blocks@.len() - i,
    {
        let ghost current = session@.blocks;
        assert(current[i as int] == session.transcript_blocks@[i as int]@);
        complete_block(&mut session.transcript_blocks[i]);
        assert(session@.blocks =~= current.update(
            i as int,
            completed_block(before.blocks[i as int]),
        ));
        i += 1;
    }
    assert(session@.blocks =~= completed_blocks(before).blocks);
}

// ── Finding a step ─────────────────────────────────────────────────────────

/// A step's place: its block, and its place in the block.
#[derive(Clone, Copy, Debug, PartialEq, Eq, Structural)]
pub struct Place {
    pub block: usize,
    pub activity: usize,
}

/// The last step of a block with the property, or -1.
pub open spec fn last_in_block(
    activities: Seq<ActivityView>,
    property: spec_fn(ActivityView) -> bool,
) -> int
    decreases activities.len(),
{
    if activities.len() == 0 {
        -1
    } else if property(activities.last()) {
        activities.len() - 1
    } else {
        last_in_block(activities.drop_last(), property)
    }
}

/// The last step with the property, looking from the last block back.
pub open spec fn last_place(
    blocks: Seq<BlockView>,
    property: spec_fn(ActivityView) -> bool,
) -> Option<Place>
    decreases blocks.len(),
{
    if blocks.len() == 0 {
        None
    } else {
        let found = last_in_block(blocks.last().activities, property);
        if found >= 0 {
            Some(Place { block: (blocks.len() - 1) as usize, activity: found as usize })
        } else {
            last_place(blocks.drop_last(), property)
        }
    }
}

/// The session with the step at `place` replaced.
pub open spec fn with_activity(
    session: SessionView,
    place: Place,
    activity: ActivityView,
) -> SessionView {
    let block = session.blocks[place.block as int];
    SessionView {
        blocks: session.blocks.update(
            place.block as int,
            BlockView {
                activities: block.activities.update(place.activity as int, activity),
                ..block
            },
        ),
        ..session
    }
}

/// Whether a step is thought that is still going on.
pub open spec fn open_reasoning(activity: ActivityView) -> bool {
    activity.reasoning is Some && !activity.complete
}

/// Whether a report about `item` continues the step `activity`: it names the
/// same source, or it names none and an unfinished step has its title.
pub open spec fn continues(activity: ActivityView, item: ActivityView) -> bool {
    match item.source_id {
        Some(source) => activity.source_id == Some(source),
        None => activity.title == item.title && !activity.complete,
    }
}

fn is_open_reasoning(activity: &ActivityItem) -> (result: bool)
    ensures
        result == open_reasoning(activity@),
{
    activity.reasoning.is_some() && !activity.complete
}

fn same_option(a: &Option<String>, b: &Option<String>) -> (result: bool)
    ensures
        result == (text::text_view(*a) == text::text_view(*b)),
{
    match (a, b) {
        (Some(a), Some(b)) => text::same(a.as_str(), b.as_str()),
        (None, None) => true,
        _ => false,
    }
}

fn does_continue(activity: &ActivityItem, item: &ActivityItem) -> (result: bool)
    ensures
        result == continues(activity@, item@),
{
    match &item.source_id {
        Some(_) => same_option(&activity.source_id, &item.source_id),
        None => text::same(activity.title.as_str(), item.title.as_str()) && !activity.complete,
    }
}

fn find_open_reasoning(session: &AgentSession) -> (found: Option<Place>)
    ensures
        found == last_place(session@.blocks, |activity: ActivityView| open_reasoning(activity)),
        found matches Some(place) ==> place.block < session.transcript_blocks@.len()
            && place.activity < session.transcript_blocks@[place.block as int].activities@.len(),
{
    let ghost blocks = session@.blocks;
    let ghost property = |activity: ActivityView| open_reasoning(activity);
    let mut b: usize = session.transcript_blocks.len();
    assert(blocks.take(b as int) == blocks);
    while b > 0
        invariant
            b <= session.transcript_blocks@.len(),
            blocks == session@.blocks,
            property == (|activity: ActivityView| open_reasoning(activity)),
            last_place(blocks, property) == last_place(blocks.take(b as int), property),
        decreases b,
    {
        assert(blocks.take(b as int).last() == session.transcript_blocks@[b - 1]@);
        assert(blocks.take(b as int).drop_last() == blocks.take(b - 1));
        let block = &session.transcript_blocks[b - 1];
        let ghost activities = block@.activities;
        let mut a: usize = block.activities.len();
        assert(activities.take(a as int) == activities);
        while a > 0
            invariant
                a <= block.activities@.len(),
                activities == block@.activities,
                0 < b <= session.transcript_blocks@.len(),
                *block == session.transcript_blocks@[b - 1],
                blocks.take(b as int).last() == block@,
                blocks.take(b as int).len() == b,
                property == (|activity: ActivityView| open_reasoning(activity)),
                last_place(session@.blocks, property) == last_place(
                    blocks.take(b as int),
                    property,
                ),
                last_in_block(activities, property) == last_in_block(
                    activities.take(a as int),
                    property,
                ),
            decreases a,
        {
            assert(activities.take(a as int).last() == block.activities@[a - 1]@);
            assert(activities.take(a as int).drop_last() == activities.take(a - 1));
            if is_open_reasoning(&block.activities[a - 1]) {
                return Some(Place { block: b - 1, activity: a - 1 });
            }
            a -= 1;
        }
        b -= 1;
    }
    None
}

fn find_continued(session: &AgentSession, item: &ActivityItem) -> (found: Option<Place>)
    ensures
        found == last_place(
            session@.blocks,
            |activity: ActivityView| continues(activity, item@),
        ),
        found matches Some(place) ==> place.block < session.transcript_blocks@.len()
            && place.activity < session.transcript_blocks@[place.block as int].activities@.len(),
{
    let ghost blocks = session@.blocks;
    let ghost property = |activity: ActivityView| continues(activity, item@);
    let mut b: usize = session.transcript_blocks.len();
    assert(blocks.take(b as int) == blocks);
    while b > 0
        invariant
            b <= session.transcript_blocks@.len(),
            blocks == session@.blocks,
            property == (|activity: ActivityView| continues(activity, item@)),
            last_place(blocks, property) == last_place(blocks.take(b as int), property),
        decreases b,
    {
        assert(blocks.take(b as int).last() == session.transcript_blocks@[b - 1]@);
        assert(blocks.take(b as int).drop_last() == blocks.take(b - 1));
        let block = &session.transcript_blocks[b - 1];
        let ghost activities = block@.activities;
        let mut a: usize = block.activities.len();
        assert(activities.take(a as int) == activities);
        while a > 0
            invariant
                a <= block.activities@.len(),
                activities == block@.activities,
                0 < b <= session.transcript_blocks@.len(),
                *block == session.transcript_blocks@[b - 1],
                blocks.take(b as int).last() == block@,
                blocks.take(b as int).len() == b,
                property == (|activity: ActivityView| continues(activity, item@)),
                last_place(session@.blocks, property) == last_place(
                    blocks.take(b as int),
                    property,
                ),
                last_in_block(activities, property) == last_in_block(
                    activities.take(a as int),
                    property,
                ),
            decreases a,
        {
            assert(activities.take(a as int).last() == block.activities@[a - 1]@);
            assert(activities.take(a as int).drop_last() == activities.take(a - 1));
            if does_continue(&block.activities[a - 1], item) {
                return Some(Place { block: b - 1, activity: a - 1 });
            }
            a -= 1;
        }
        b -= 1;
    }
    None
}

// ── Reasoning ──────────────────────────────────────────────────────────────

/// The session after its last open thought ended.
pub open spec fn reasoning_completed(session: SessionView, now: u64) -> SessionView {
    match last_place(session.blocks, |activity: ActivityView| open_reasoning(activity)) {
        Some(place) => SessionView {
            updated_at: now,
            ..with_activity(
                session,
                place,
                completed_activity(
                    session.blocks[place.block as int].activities[place.activity as int],
                ),
            )
        },
        None => session,
    }
}

/// End the session's last open thought.
pub fn complete_reasoning_activity(session: &mut AgentSession, now: u64)
    ensures
        final(session)@ == reasoning_completed(old(session)@, now),
        final(session).messages == old(session).messages,
{
    let ghost before = session@;
    if let Some(place) = find_open_reasoning(session) {
        let ghost block = session.transcript_blocks@[place.block as int]@;
        assert(before.blocks[place.block as int] == block);
        session.transcript_blocks[place.block].activities[place.activity].complete = true;
        session.updated_at = now;
        proof {
            let after = session.transcript_blocks@[place.block as int]@;
            assert(after.activities =~= block.activities.update(
                place.activity as int,
                completed_activity(block.activities[place.activity as int]),
            ));
            assert(session@.blocks =~= reasoning_completed(before, now).blocks);
        }
    }
}

/// The session with one more step. It joins the last block while work
/// continues there, that is at the same message boundary and in the same
/// turn; otherwise it opens a block of its own.
pub open spec fn with_step(
    session: SessionView,
    item: ActivityView,
    continuing_work: bool,
) -> SessionView {
    let joins = continuing_work && session.blocks.len() > 0 && session.blocks.last().after_message
        == session.messages.len() && session.blocks.last().turn_id == session.active_turn();
    if joins {
        let last = session.blocks.last();
        SessionView {
            blocks: session.blocks.update(
                session.blocks.len() - 1,
                BlockView { activities: last.activities.push(item), ..last },
            ),
            ..session
        }
    } else {
        SessionView {
            blocks: session.blocks.push(
                BlockView {
                    after_message: session.messages.len() as usize,
                    turn_id: session.active_turn(),
                    activities: seq![item],
                },
            ),
            ..session
        }
    }
}

/// Add a step to the transcript.
pub fn push_transcript_activity(
    session: &mut AgentSession,
    item: ActivityItem,
    continuing_work: bool,
)
    ensures
        final(session)@ == with_step(old(session)@, item@, continuing_work),
        final(session).messages == old(session).messages,
{
    let ghost before = session@;
    let ghost added = item@;
    let after_message: usize = session.messages.len();
    let turn_id = session.active_turn_id();
    let count: usize = session.transcript_blocks.len();
    let mut joins: bool = false;
    if continuing_work && count > 0 {
        assert(before.blocks.last() == session.transcript_blocks@[count - 1]@);
        joins =
        session.transcript_blocks[count - 1].after_message == after_message
            && session.transcript_blocks[count - 1].turn_id == turn_id;
    }
    if joins {
        let ghost block = session.transcript_blocks@[count - 1]@;
        session.transcript_blocks[count - 1].activities.push(item);
        proof {
            let after = session.transcript_blocks@[count - 1]@;
            assert(after.activities =~= block.activities.push(added));
            assert(session@.blocks =~= with_step(before, added, continuing_work).blocks);
        }
    } else {
        let mut activities: Vec<ActivityItem> = Vec::new();
        activities.push(item);
        let block = TranscriptBlock { after_message, turn_id, activities };
        assert(block@.activities =~= seq![added]);
        session.transcript_blocks.push(block);
        assert(session@.blocks =~= with_step(before, added, continuing_work).blocks);
    }
}

/// Whether the last phase leaves room for more work in the same block.
pub open spec fn work_continues(phase: Option<StreamPhase>) -> bool {
    phase == Some(StreamPhase::Reasoning) || phase == Some(StreamPhase::Activity)
}

/// The thought that the last step of the last block holds.
pub open spec fn tail_reasoning(session: SessionView) -> Option<ReasoningView> {
    if session.blocks.len() > 0 && session.blocks.last().activities.len() > 0 {
        session.blocks.last().activities.last().reasoning
    } else {
        None
    }
}

/// The session after a piece of thought arrived in the given phase.
pub open spec fn reasoning_appended(
    session: SessionView,
    phase: Option<StreamPhase>,
    delta: Seq<char>,
    activity_id: Id,
    title: Seq<char>,
    now: u64,
    now_ms: u64,
) -> SessionView {
    let continuing = phase == Some(StreamPhase::Reasoning);
    if !continuing && text::blank(delta) {
        session
    } else if continuing && tail_reasoning(session) is Some {
        let reasoning = tail_reasoning(session)->0;
        let place = Place {
            block: (session.blocks.len() - 1) as usize,
            activity: (session.blocks.last().activities.len() - 1) as usize,
        };
        SessionView {
            updated_at: now,
            ..with_activity(
                session,
                place,
                ActivityView {
                    reasoning: Some(
                        ReasoningView {
                            content: reasoning.content + delta,
                            finished_at_ms: now_ms,
                            ..reasoning
                        },
                    ),
                    ..session.blocks.last().activities.last()
                },
            )
        }
    } else {
        let item = ActivityView {
            reasoning: Some(
                ReasoningView { content: delta, started_at_ms: now_ms, finished_at_ms: now_ms },
            ),
            ..ActivityView::plain(
                activity_id,
                None,
                ActivityKind::Reasoning,
                title,
                true,
                false,
                None,
                false,
            )
        };
        let settled = if continuing {
            session
        } else {
            finished_streaming(session)
        };
        SessionView { updated_at: now, ..with_step(settled, item, work_continues(phase)) }
    }
}

/// Where the stream stands after a piece of thought arrived.
pub open spec fn phase_after_reasoning(
    phase: Option<StreamPhase>,
    delta: Seq<char>,
) -> Option<StreamPhase> {
    if phase != Some(StreamPhase::Reasoning) && text::blank(delta) {
        phase
    } else {
        Some(StreamPhase::Reasoning)
    }
}

fn continues_work(phase: Option<StreamPhase>) -> (result: bool)
    ensures
        result == work_continues(phase),
{
    match phase {
        Some(StreamPhase::Reasoning) | Some(StreamPhase::Activity) => true,
        _ => false,
    }
}

fn has_tail_reasoning(session: &AgentSession) -> (result: bool)
    ensures
        result == (tail_reasoning(session@) is Some),
{
    let count: usize = session.transcript_blocks.len();
    if count == 0 {
        return false;
    }
    let block = &session.transcript_blocks[count - 1];
    assert(session@.blocks.last() == block@);
    let steps: usize = block.activities.len();
    if steps == 0 {
        return false;
    }
    assert(block@.activities.last() == block.activities@[steps - 1]@);
    block.activities[steps - 1].reasoning.is_some()
}

fn extend_reasoning(activity: &mut ActivityItem, delta: &str, now_ms: u64)
    requires
        old(activity).reasoning is Some,
    ensures
        final(activity)@ == (ActivityView {
            reasoning: Some(
                ReasoningView {
                    content: old(activity)@.reasoning->0.content + delta@,
                    finished_at_ms: now_ms,
                    ..old(activity)@.reasoning->0
                },
            ),
            ..old(activity)@
        }),
{
    if let Some(mut reasoning) = activity.reasoning.take() {
        reasoning.content.append(delta);
        reasoning.finished_at_ms = now_ms;
        activity.reasoning = Some(reasoning);
    }
}

/// Add a piece of thought to the session. Blank text does not begin one.
pub fn append_reasoning_delta(
    session: &mut AgentSession,
    phase: Option<StreamPhase>,
    delta: String,
    activity_id: Id,
    title: String,
    now: u64,
    now_ms: u64,
) -> (next: Option<StreamPhase>)
    ensures
        final(session)@ == reasoning_appended(
            old(session)@,
            phase,
            delta@,
            activity_id,
            title@,
            now,
            now_ms,
        ),
        next == phase_after_reasoning(phase, delta@),
        final(session).messages@.len() == old(session).messages@.len(),
{
    let ghost before = session@;
    let continuing: bool = phase == Some(StreamPhase::Reasoning);
    if !continuing && text::is_blank(delta.as_str()) {
        return phase;
    }
    if !continuing {
        finish_streaming_assistant(session);
    }
    if continuing && has_tail_reasoning(session) {
        let b: usize = session.transcript_blocks.len() - 1;
        let ghost block = session.transcript_blocks@[b as int]@;
        assert(before.blocks.last() == block);
        let a: usize = session.transcript_blocks[b].activities.len() - 1;
        let ghost step = session.transcript_blocks@[b as int].activities@[a as int]@;
        assert(block.activities.last() == step);
        extend_reasoning(&mut session.transcript_blocks[b].activities[a], delta.as_str(), now_ms);
        proof {
            let after = session.transcript_blocks@[b as int]@;
            let changed = ActivityView {
                reasoning: Some(
                    ReasoningView {
                        content: step.reasoning->0.content + delta@,
                        finished_at_ms: now_ms,
                        ..step.reasoning->0
                    },
                ),
                ..step
            };
            assert(after.activities =~= block.activities.update(a as int, changed));
            assert(session@.blocks =~= before.blocks.update(
                b as int,
                BlockView { activities: block.activities.update(a as int, changed), ..block },
            ));
        }
    } else {
        let reasoning = ReasoningBlock {
            content: delta,
            started_at_ms: now_ms,
            finished_at_ms: now_ms,
        };
        let item = ActivityItem::from_reasoning(activity_id, title, reasoning, false);
        push_transcript_activity(session, item, continues_work(phase));
    }
    session.updated_at = now;
    Some(StreamPhase::Reasoning)
}

// ── Text ───────────────────────────────────────────────────────────────────

/// The last assistant message among the first `n` that still receives text,
/// or -1.
pub open spec fn last_streaming(messages: Seq<MessageView>, n: int) -> int
    decreases n,
{
    if n <= 0 {
        -1
    } else if messages[n - 1].role == MessageRole::Assistant && messages[n - 1].streaming {
        n - 1
    } else {
        last_streaming(messages, n - 1)
    }
}

pub(crate) proof fn lemma_last_streaming(messages: Seq<MessageView>, n: int)
    requires
        0 <= n,
    ensures
        -1 <= last_streaming(messages, n) < n,
    decreases n,
{
    if n > 0 {
        lemma_last_streaming(messages, n - 1);
    }
}

/// The session after text arrived: a continuing stream extends the message
/// that still receives text, anything else opens a new one in the running
/// turn.
pub open spec fn text_appended(
    session: SessionView,
    continuing: bool,
    delta: Seq<char>,
    message_id: Id,
    now: u64,
) -> SessionView {
    let settled = if continuing {
        session
    } else {
        finished_streaming(session)
    };
    let at = last_streaming(settled.messages, settled.messages.len() as int);
    let received = if continuing && at >= 0 {
        settled.with_text(at, delta)
    } else {
        settled.with_message(
            MessageView {
                streaming: true,
                ..MessageView::plain(
                    message_id,
                    MessageRole::Assistant,
                    delta,
                    session.active_turn(),
                    now,
                )
            },
        )
    };
    SessionView { updated_at: now, ..received }
}

fn find_streaming(session: &AgentSession) -> (found: Option<usize>)
    ensures
        match found {
            Some(i) => i < session.messages@.len() && last_streaming(
                session@.messages,
                session@.messages.len() as int,
            ) == i,
            None => last_streaming(session@.messages, session@.messages.len() as int) < 0,
        },
{
    let ghost messages = session@.messages;
    let mut n: usize = session.messages.len();
    while n > 0
        invariant
            n <= session.messages@.len(),
            messages == session@.messages,
            last_streaming(messages, messages.len() as int) == last_streaming(messages, n as int),
        decreases n,
    {
        assert(messages[n - 1] == session.messages@[n - 1]@);
        if session.messages[n - 1].role == MessageRole::Assistant && session.messages[n
            - 1].streaming {
            return Some(n - 1);
        }
        n -= 1;
    }
    None
}

/// Add streamed text to one session.
pub fn append_text(
    session: &mut AgentSession,
    continuing: bool,
    delta: String,
    message_id: Id,
    now: u64,
)
    ensures
        final(session)@ == text_appended(old(session)@, continuing, delta@, message_id, now),
        final(session).messages@.len() <= old(session).messages@.len() + 1,
{
    let ghost before = session@;
    if !continuing {
        finish_streaming_assistant(session);
    }
    let ghost settled = session@;
    let existing: Option<usize> = if continuing {
        find_streaming(session)
    } else {
        None
    };
    match existing {
        Some(i) => {
            assert(settled.messages[i as int] == session.messages@[i as int]@);
            session.messages[i].content.append(delta.as_str());
            assert(session@.messages =~= settled.with_text(i as int, delta@).messages);
        },
        None => {
            let turn_id = session.active_turn_id();
            let mut message = Message::new(
                message_id,
                MessageRole::Assistant,
                delta,
                turn_id,
                now,
            );
            message.streaming = true;
            let ghost added = message@;
            session.messages.push(message);
            assert(session@.messages =~= settled.messages.push(added));
        },
    }
    session.updated_at = now;
}

/// The first session with this identity.
pub open spec fn session_index(sessions: Seq<SessionView>, session_id: Id) -> Option<int>
    decreases sessions.len(),
{
    if sessions.len() == 0 {
        None
    } else if sessions[0].id == session_id {
        Some(0)
    } else {
        match session_index(sessions.skip(1), session_id) {
            Some(i) => Some(i + 1),
            None => None,
        }
    }
}

/// The first session with this identity.
pub fn find_session(sessions: &Vec<AgentSession>, session_id: Id) -> (found: Option<usize>)
    ensures
        match found {
            Some(i) => i < sessions@.len() && session_index(
                crate::session::sessions_view(sessions@),
                session_id,
            ) == Some(i as int) && sessions@[i as int].id == session_id,
            None => session_index(crate::session::sessions_view(sessions@), session_id) is None
                && forall|i: int|
                0 <= i < sessions@.len() ==> (#[trigger] sessions@[i]).id != session_id,
        },
{
    let ghost views = crate::session::sessions_view(sessions@);
    let mut i: usize = 0;
    assert(views.skip(0) == views);
    while i < sessions.len()
        invariant
            i <= sessions@.len(),
            views == crate::session::sessions_view(sessions@),
            session_index(views, session_id) == (match session_index(
                views.skip(i as int),
                session_id,
            ) {
                Some(k) => Some(k + i),
                None => None,
            }),
            forall|k: int| 0 <= k < i ==> (#[trigger] sessions@[k]).id != session_id,
        decreases sessions@.len() - i,
    {
        assert(views.skip(i as int)[0] == sessions@[i as int]@);
        assert(views.skip(i as int).skip(1) == views.skip(i + 1));
        if sessions[i].id == session_id {
            return Some(i);
        }
        i += 1;
    }
    None
}

/// Add streamed text to the session it belongs to, whichever is on screen. No
/// other session changes.
pub fn append_text_delta_to_session(
    sessions: &mut Vec<AgentSession>,
    session_id: Id,
    continuing: bool,
    delta: String,
    message_id: Id,
    now: u64,
)
    ensures
        crate::session::sessions_view(final(sessions)@) == (match session_index(
            crate::session::sessions_view(old(sessions)@),
            session_id,
        ) {
            Some(i) => crate::session::sessions_view(old(sessions)@).update(
                i,
                text_appended(old(sessions)@[i]@, continuing, delta@, message_id, now),
            ),
            None => crate::session::sessions_view(old(sessions)@),
        }),
{
    let ghost before = crate::session::sessions_view(sessions@);
    if let Some(i) = find_session(sessions, session_id) {
        let ghost session = sessions@[i as int]@;
        append_text(&mut sessions[i], continuing, delta, message_id, now);
        assert(crate::session::sessions_view(sessions@) =~= before.update(
            i as int,
            text_appended(session, continuing, delta@, message_id, now),
        ));
    }
}

// ── Activities ─────────────────────────────────────────────────────────────

/// What is kept when a new value may be missing.
pub open spec fn newer<T>(new: Option<T>, kept: Option<T>) -> Option<T> {
    if new is Some {
        new
    } else {
        kept
    }
}

/// A step after a further report about it. Kind, title and state are the
/// report's; what the report leaves out stays. A display target or description
/// is replaced only by a report that brings the arguments too, or where there
/// was none.
pub open spec fn merged_activity(activity: ActivityView, item: ActivityView) -> ActivityView {
    ActivityView {
        id: activity.id,
        source_id: activity.source_id,
        kind: item.kind,
        title: item.title,
        title_is_generic: item.title_is_generic,
        title_names_search: item.title_names_search,
        detail: newer(item.detail, activity.detail),
        arguments: newer(item.arguments, activity.arguments),
        output: newer(item.output, activity.output),
        image_urls: if item.image_urls.len() > 0 {
            item.image_urls
        } else {
            activity.image_urls
        },
        file_changes: if item.file_changes.len() > 0 {
            item.file_changes
        } else {
            activity.file_changes
        },
        display_target: if item.arguments is Some || activity.display_target is None {
            newer(item.display_target, activity.display_target)
        } else {
            activity.display_target
        },
        display_description: if item.arguments is Some || activity.display_description is None {
            newer(item.display_description, activity.display_description)
        } else {
            activity.display_description
        },
        reasoning: newer(item.reasoning, activity.reasoning),
        complete: item.complete,
        failed: item.failed,
    }
}

fn merge_activity(activity: &mut ActivityItem, item: ActivityItem)
    ensures
        final(activity)@ == merged_activity(old(activity)@, item@),
{
    let has_arguments: bool = item.arguments.is_some();
    activity.kind = item.kind;
    activity.title = item.title;
    activity.title_is_generic = item.title_is_generic;
    activity.title_names_search = item.title_names_search;
    activity.complete = item.complete;
    activity.failed = item.failed;
    if item.detail.is_some() {
        activity.detail = item.detail;
    }
    if item.arguments.is_some() {
        activity.arguments = item.arguments;
    }
    if item.output.is_some() {
        activity.output = item.output;
    }
    if !item.image_urls.is_empty() {
        activity.image_urls = item.image_urls;
    }
    if !item.file_changes.is_empty() {
        activity.file_changes = item.file_changes;
    }
    if item.display_target.is_some() && (activity.display_target.is_none() || has_arguments) {
        activity.display_target = item.display_target;
    }
    if item.display_description.is_some() && (activity.display_description.is_none()
        || has_arguments) {
        activity.display_description = item.display_description;
    }
    if item.reasoning.is_some() {
        activity.reasoning = item.reasoning;
    }
    assert(activity@ =~= merged_activity(old(activity)@, item@));
}

/// The session once the phase before a step has ended.
pub open spec fn before_activity(
    session: SessionView,
    phase: Option<StreamPhase>,
    now: u64,
) -> SessionView {
    match phase {
        Some(StreamPhase::Text) => finished_streaming(session),
        Some(StreamPhase::Reasoning) => reasoning_completed(session, now),
        _ => session,
    }
}

/// The session after a step was reported: the last step that the report
/// continues takes it up, else a new one is added.
pub open spec fn activity_updated(
    session: SessionView,
    phase: Option<StreamPhase>,
    item: ActivityView,
    now: u64,
) -> SessionView {
    let ready = before_activity(session, phase, now);
    let changed = match last_place(
        ready.blocks,
        |activity: ActivityView| continues(activity, item),
    ) {
        Some(place) => with_activity(
            ready,
            place,
            merged_activity(
                ready.blocks[place.block as int].activities[place.activity as int],
                item,
            ),
        ),
        None => with_step(ready, item, work_continues(phase)),
    };
    SessionView { updated_at: now, ..changed }
}

/// The step whose cached diff a report makes stale: the one it continues,
/// where the report brings new file changes.
pub open spec fn stale_diff(
    session: SessionView,
    phase: Option<StreamPhase>,
    item: ActivityView,
    now: u64,
) -> Option<Id> {
    let ready = before_activity(session, phase, now);
    match last_place(ready.blocks, |activity: ActivityView| continues(activity, item)) {
        Some(place) => if item.file_changes.len() > 0 {
            Some(ready.blocks[place.block as int].activities[place.activity as int].id)
        } else {
            None
        },
        None => None,
    }
}

fn end_phase(session: &mut AgentSession, phase: Option<StreamPhase>, now: u64)
    ensures
        final(session)@ == before_activity(old(session)@, phase, now),
        final(session).messages@.len() == old(session).messages@.len(),
{
    match phase {
        Some(StreamPhase::Text) => {
            finish_streaming_assistant(session);
        },
        Some(StreamPhase::Reasoning) => {
            complete_reasoning_activity(session, now);
        },
        _ => {},
    }
}

/// Take up a report in the step at a place. Returns the step where the report
/// brings new file changes.
fn merge_at(session: &mut AgentSession, place: Place, item: ActivityItem) -> (stale: Option<Id>)
    requires
        place.block < old(session)@.blocks.len(),
        place.activity < old(session)@.blocks[place.block as int].activities.len(),
    ensures
        ({
            let step = old(session)@.blocks[place.block as int].activities[place.activity as int];
            &&& final(session)@ == with_activity(
                old(session)@,
                place,
                merged_activity(step, item@),
            )
            &&& stale == if item@.file_changes.len() > 0 {
                Some(step.id)
            } else {
                None
            }
        }),
        final(session).messages@.len() == old(session).messages@.len(),
{
    let ghost ready = session@;
    let ghost block = session.transcript_blocks@[place.block as int]@;
    assert(ready.blocks[place.block as int] == block);
    let ghost step =
        session.transcript_blocks@[place.block as int].activities@[place.activity as int]@;
    assert(block.activities[place.activity as int] == step);
    let stale: Option<Id> = if !item.file_changes.is_empty() {
        Some(session.transcript_blocks[place.block].activities[place.activity].id)
    } else {
        None
    };
    let ghost report = item@;
    merge_activity(&mut session.transcript_blocks[place.block].activities[place.activity], item);
    proof {
        let after = session.transcript_blocks@[place.block as int]@;
        assert(after.activities =~= block.activities.update(
            place.activity as int,
            merged_activity(step, report),
        ));
        assert(session@.blocks =~= with_activity(
            ready,
            place,
            merged_activity(step, report),
        ).blocks);
    }
    stale
}

/// Take up a report about a step. Returns the step whose cached diff is stale.
pub fn update_activity(
    session: &mut AgentSession,
    phase: Option<StreamPhase>,
    item: ActivityItem,
    now: u64,
) -> (stale: Option<Id>)
    ensures
        final(session)@ == activity_updated(old(session)@, phase, item@, now),
        stale == stale_diff(old(session)@, phase, item@, now),
        final(session).messages@.len() == old(session).messages@.len(),
{
    end_phase(session, phase, now);
    let stale: Option<Id> = match find_continued(session, &item) {
        Some(place) => merge_at(session, place, item),
        None => {
            push_transcript_activity(session, item, continues_work(phase));
            None
        },
    };
    session.updated_at = now;
    stale
}

/// A step whose identity the provider names is taken up by a later report
/// with the same identity: the transcript gains no second step for it.
pub proof fn a_named_step_is_reported_in_place(
    session: SessionView,
    phase: Option<StreamPhase>,
    item: ActivityView,
    now: u64,
    place: Place,
)
    requires
        session.blocks.len() <= usize::MAX,
        item.source_id is Some,
        place.block < before_activity(session, phase, now).blocks.len(),
        place.activity < before_activity(session, phase, now).blocks[place.block as int].activities.len(),
        before_activity(session, phase, now).blocks[place.block as int].activities[place.activity as int].source_id
            == item.source_id,
    ensures
        activity_updated(session, phase, item, now).blocks.len() == before_activity(
            session,
            phase,
            now,
        ).blocks.len(),
{
    let ready = before_activity(session, phase, now);
    let property = |activity: ActivityView| continues(activity, item);
    lemma_ready_keeps_blocks(session, phase, now);
    lemma_place_found(ready.blocks, property, place.block as int, place.activity as int);
}

proof fn lemma_ready_keeps_blocks(session: SessionView, phase: Option<StreamPhase>, now: u64)
    requires
        session.blocks.len() <= usize::MAX,
    ensures
        before_activity(session, phase, now).blocks.len() == session.blocks.len(),
{
    lemma_place_bounds(session.blocks, |activity: ActivityView| open_reasoning(activity));
}

proof fn lemma_place_bounds(blocks: Seq<BlockView>, property: spec_fn(ActivityView) -> bool)
    requires
        blocks.len() <= usize::MAX,
    ensures
        last_place(blocks, property) matches Some(place) ==> place.block < blocks.len(),
    decreases blocks.len(),
{
    if blocks.len() > 0 {
        lemma_place_bounds(blocks.drop_last(), property);
    }
}

proof fn lemma_place_found(
    blocks: Seq<BlockView>,
    property: spec_fn(ActivityView) -> bool,
    b: int,
    a: int,
)
    requires
        0 <= b < blocks.len(),
        0 <= a < blocks[b].activities.len(),
        property(blocks[b].activities[a]),
        blocks.len() <= usize::MAX,
    ensures
        last_place(blocks, property) matches Some(place) && place.block < blocks.len(),
    decreases blocks.len(),
{
    if b == blocks.len() - 1 {
        lemma_found_in_block(blocks.last().activities, property, a);
    } else if last_in_block(blocks.last().activities, property) < 0 {
        lemma_place_found(blocks.drop_last(), property, b, a);
    }
}

proof fn lemma_found_in_block(
    activities: Seq<ActivityView>,
    property: spec_fn(ActivityView) -> bool,
    a: int,
)
    requires
        0 <= a < activities.len(),
        property(activities[a]),
    ensures
        last_in_block(activities, property) >= 0,
    decreases activities.len(),
{
    if !property(activities.last()) {
        lemma_found_in_block(activities.drop_last(), property, a);
    }
}

// ── Which output counts ────────────────────────────────────────────────────

/// Whether output belongs to a turn of this session: one runs, and the
/// session is busy.
pub open spec fn takes_output(session: SessionView) -> bool {
    session.active_turn() is Some && session.status.busy()
}

/// The session after output arrived for its running turn: output is proof
/// that the provider started the turn.
pub open spec fn output_accepted(session: SessionView) -> SessionView {
    if takes_output(session) {
        SessionView {
            status: if session.status == SessionStatus::Connecting {
                SessionStatus::Working
            } else {
                session.status
            },
            ..session.provider_started()
        }
    } else {
        session
    }
}

/// Whether output belongs to a turn of this session. Accepting it repairs a
/// start that was never reported.
pub fn session_accepts_turn_output(session: &mut AgentSession) -> (accepts: bool)
    ensures
        accepts == takes_output(old(session)@),
        final(session)@ == output_accepted(old(session)@),
        final(session).messages@.len() == old(session).messages@.len(),
{
    if session.active_turn_id().is_none() || !session.status.is_busy() {
        return false;
    }
    session.mark_active_turn_provider_started();
    if session.status == SessionStatus::Connecting {
        session.status = SessionStatus::Working;
    }
    assert(session@.messages.len() == old(session)@.messages.len());
    true
}

/// A completed edit or shell command is the earliest point at which its
/// effects on disk are stable enough to read again.
pub fn should_refresh_branch_after_activity(kind: ActivityKind, complete: bool) -> (refresh: bool)
    ensures
        refresh == (complete && (kind == ActivityKind::Command || kind == ActivityKind::FileChange)),
{
    complete && (kind == ActivityKind::Command || kind == ActivityKind::FileChange)
}

// ── Errors and excerpts ────────────────────────────────────────────────────

/// Where the first line feed at or after `from` stands, or the length.
pub open spec fn line_end(text: Seq<char>, from: int) -> int
    decreases text.len() - from,
{
    if from < 0 || from >= text.len() {
        text.len() as int
    } else if text[from] == '\n' {
        from
    } else {
        line_end(text, from + 1)
    }
}

/// A line without the carriage return before its line feed.
pub open spec fn without_return(line: Seq<char>) -> Seq<char> {
    if line.len() > 0 && line.last() == '\r' {
        line.drop_last()
    } else {
        line
    }
}

/// The lines of a text from `from` on. A line feed ends a line and belongs to
/// none, nor does the carriage return before it; the end of the text ends the
/// last line, if anything stands in it.
pub open spec fn lines_from(text: Seq<char>, from: int) -> Seq<Seq<char>>
    decreases text.len() - from,
    when 0 <= from <= text.len()
    via lines_terminate
{
    if from >= text.len() {
        Seq::empty()
    } else if line_end(text, from) < text.len() {
        seq![without_return(text.subrange(from, line_end(text, from)))] + lines_from(
            text,
            line_end(text, from) + 1,
        )
    } else {
        seq![text.subrange(from, text.len() as int)]
    }
}

#[via_fn]
proof fn lines_terminate(text: Seq<char>, from: int) {
    lemma_line_end(text, from);
}

proof fn lemma_line_end(text: Seq<char>, from: int)
    requires
        0 <= from <= text.len(),
    ensures
        from <= line_end(text, from) <= text.len(),
    decreases text.len() - from,
{
    if from < text.len() && text[from] != '\n' {
        lemma_line_end(text, from + 1);
    }
}

/// The lines of a text.
pub open spec fn lines(text: Seq<char>) -> Seq<Seq<char>> {
    lines_from(text, 0)
}

/// The lines of a text.
pub fn split_lines(text: &str) -> (parts: Vec<String>)
    ensures
        text::texts_view(parts@) == lines(text@),
{
    let chars = text::chars_of(text);
    let mut parts: Vec<String> = Vec::new();
    let mut from: usize = 0;
    assert(text::texts_view(parts@) + lines(text@) =~= lines(text@));
    while from < chars.len()
        invariant
            from <= chars@.len(),
            chars@ == text@,
            text::texts_view(parts@) + lines_from(text@, from as int) == lines(text@),
        decreases chars@.len() - from,
    {
        let mut end: usize = from;
        while end < chars.len() && chars[end] != '\n'
            invariant
                from <= end <= chars@.len(),
                line_end(chars@, from as int) == line_end(chars@, end as int),
            decreases chars@.len() - end,
        {
            end += 1;
        }
        let ghost before = text::texts_view(parts@);
        let ghost rest = lines_from(text@, from as int);
        if end < chars.len() {
            let ghost line = chars@.subrange(from as int, end as int);
            let stop: usize = if end > from && chars[end - 1] == '\r' {
                end - 1
            } else {
                end
            };
            let part = text::text_of(&chars, from, stop);
            proof {
                assert(line.len() > 0 ==> line.last() == chars@[end - 1]);
                assert(part@ =~= without_return(line));
            }
            parts.push(part);
            proof {
                assert(text::texts_view(parts@) =~= before.push(part@));
                let tail = lines_from(text@, end + 1);
                assert(before + (seq![part@] + tail) =~= before.push(part@) + tail);
            }
            from = end + 1;
        } else {
            let part = text::text_of(&chars, from, end);
            parts.push(part);
            proof {
                assert(text::texts_view(parts@) =~= before.push(part@));
                assert(before + seq![part@] =~= before.push(part@));
                assert(lines_from(text@, end as int) == Seq::<Seq<char>>::empty());
                assert(before.push(part@) + Seq::<Seq<char>>::empty() =~= before.push(part@));
            }
            from = end;
        }
    }
    assert(text::texts_view(parts@) + Seq::<Seq<char>>::empty() =~= text::texts_view(parts@));
    parts
}

/// How many lines of a driver's error are shown.
pub const MAX_ERROR_LINES: usize = 6;

/// How many characters of a driver's error are shown.
pub const MAX_ERROR_CHARS: usize = 800;

/// The first lines of an error, with a mark where lines are left out.
pub open spec fn error_head(error: Seq<char>) -> Seq<char> {
    let all = lines(error);
    if all.len() > MAX_ERROR_LINES {
        text::joined(all.take(MAX_ERROR_LINES as int), "\n"@) + "\n…"@
    } else {
        text::joined(all, "\n"@)
    }
}

/// An error cut down to a few lines and characters, with a mark where
/// something is left out.
pub open spec fn compact_error(error: Seq<char>) -> Seq<char> {
    let head = error_head(error);
    if head.len() > MAX_ERROR_CHARS {
        head.take(MAX_ERROR_CHARS - 1) + "…"@
    } else {
        head
    }
}

/// Cut a driver's error down to what can be shown.
pub fn compact_driver_error(error: &str) -> (compact: String)
    ensures
        compact@ == compact_error(error@),
        compact@.len() <= MAX_ERROR_CHARS,
{
    proof {
        reveal_strlit("…");
    }
    let mut parts = split_lines(error);
    let ghost all = text::texts_view(parts@);
    let cut: bool = parts.len() > MAX_ERROR_LINES;
    if cut {
        parts.truncate(MAX_ERROR_LINES);
        assert(text::texts_view(parts@) =~= all.take(MAX_ERROR_LINES as int));
    }
    let mut head = text::join(&parts, "\n");
    if cut {
        head.append("\n…");
    }
    let chars = text::chars_of(head.as_str());
    if chars.len() > MAX_ERROR_CHARS {
        let mut compact = text::text_of(&chars, 0, MAX_ERROR_CHARS - 1);
        assert(chars@.subrange(0, MAX_ERROR_CHARS - 1) =~= chars@.take(MAX_ERROR_CHARS - 1));
        compact.append("…");
        compact
    } else {
        head
    }
}

/// The texts of one role in a turn, one per line, among the first `n`
/// messages.
pub open spec fn turn_text(
    messages: Seq<MessageView>,
    turn_id: Id,
    role: MessageRole,
    n: int,
) -> Seq<char>
    decreases n,
{
    if n <= 0 {
        Seq::empty()
    } else {
        let earlier = turn_text(messages, turn_id, role, n - 1);
        let message = messages[n - 1];
        if message.turn_id == Some(turn_id) && message.role == role {
            if earlier.len() > 0 {
                earlier.push('\n') + message.content
            } else {
                message.content
            }
        } else {
            earlier
        }
    }
}

/// What is remembered of the session's last turn: what the user and what the
/// assistant said, each cut to `limit` bytes; nothing where neither said
/// anything.
pub open spec fn excerpt_of(session: SessionView, limit: nat) -> Option<Seq<char>> {
    if session.turns.len() == 0 {
        None
    } else {
        let turn_id = session.turns.last().id;
        let count = session.messages.len() as int;
        let user = turn_text(session.messages, turn_id, MessageRole::User, count);
        let assistant = turn_text(session.messages, turn_id, MessageRole::Assistant, count);
        if text::blank(user) && text::blank(assistant) {
            None
        } else {
            Some(
                "User:\n"@ + text::byte_prefix(user, limit) + "\n\nAssistant:\n"@
                    + text::byte_prefix(assistant, limit),
            )
        }
    }
}

fn collect_turn_text(session: &AgentSession, turn_id: Id, role: MessageRole) -> (collected: String)
    ensures
        collected@ == turn_text(session@.messages, turn_id, role, session@.messages.len() as int),
{
    let ghost messages = session@.messages;
    let mut collected = String::new();
    let mut n: usize = 0;
    while n < session.messages.len()
        invariant
            n <= session.messages@.len(),
            messages == session@.messages,
            collected@ == turn_text(messages, turn_id, role, n as int),
        decreases session.messages@.len() - n,
    {
        assert(messages[n as int] == session.messages@[n as int]@);
        let message = &session.messages[n];
        let ghost before = collected@;
        if message.turn_id == Some(turn_id) && message.role == role {
            if !collected.as_str().is_empty() {
                collected.push('\n');
                collected.append(message.content.as_str());
            } else {
                collected.append(message.content.as_str());
                assert(before + message.content@ =~= message.content@);
            }
        }
        n += 1;
    }
    collected
}

/// What is remembered of the session's last turn.
pub fn memory_excerpt(session: &AgentSession, limit: usize) -> (excerpt: Option<String>)
    ensures
        text::text_view(excerpt) == excerpt_of(session@, limit as nat),
{
    let count: usize = session.turns.len();
    if count == 0 {
        return None;
    }
    assert(session@.turns.last() == session.turns@[count - 1]@);
    let turn_id: Id = session.turns[count - 1].id;
    let user = collect_turn_text(session, turn_id, MessageRole::User);
    let assistant = collect_turn_text(session, turn_id, MessageRole::Assistant);
    if text::is_blank(user.as_str()) && text::is_blank(assistant.as_str()) {
        return None;
    }
    let mut excerpt = text::owned("User:\n");
    excerpt.append(text::truncate_bytes(user, limit).as_str());
    excerpt.append("\n\nAssistant:\n");
    excerpt.append(text::truncate_bytes(assistant, limit).as_str());
    Some(excerpt)
}

} // verus!
