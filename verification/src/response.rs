//! The footer of a settled response: which message owns it, what it copies,
//! and when the response was completed.
use crate::duration;
use crate::model::{Id, Message, MessageRole, MessageView, TurnStatus};
use crate::session::{AgentSession, SessionView};
use crate::text;
use crate::transcript;
use crate::transcript::TranscriptRowKind;
use vstd::prelude::*;

verus! {

/// Whether a message is one of the assistant's text parts in the turn.
pub open spec fn is_part(message: MessageView, turn_id: Id) -> bool {
    message.role == MessageRole::Assistant && message.turn_id == Some(turn_id)
}

/// The last of the first `n` messages that is a text part of the turn.
pub open spec fn last_part(messages: Seq<MessageView>, turn_id: Id, n: int) -> Option<usize>
    decreases n,
{
    if n <= 0 {
        None
    } else if is_part(messages[n - 1], turn_id) {
        Some((n - 1) as usize)
    } else {
        last_part(messages, turn_id, n - 1)
    }
}

/// The message that owns the footer of the response `index` belongs to: the
/// last text part of its turn once the turn has settled, or the message
/// itself outside any turn. A message that is not the assistant's, or in
/// which text still arrives, has none.
pub open spec fn footer_owner(session: SessionView, index: int) -> Option<usize> {
    if index >= session.messages.len() || session.messages[index].role != MessageRole::Assistant
        || session.messages[index].streaming {
        None
    } else {
        match session.messages[index].turn_id {
            None => Some(index as usize),
            Some(turn_id) => match duration::first_turn(session.turns, turn_id) {
                Some(turn) => if turn.status == TurnStatus::Running {
                    None
                } else {
                    last_part(session.messages, turn_id, session.messages.len() as int)
                },
                None => last_part(session.messages, turn_id, session.messages.len() as int),
            },
        }
    }
}

/// The message that owns the footer of the response `message_index` belongs
/// to.
pub fn assistant_response_footer_index(session: &AgentSession, message_index: usize) -> (owner:
    Option<usize>)
    ensures
        owner == footer_owner(session@, message_index as int),
{
    if message_index >= session.messages.len() {
        return None;
    }
    let message = &session.messages[message_index];
    assert(session@.messages[message_index as int] == message@);
    if message.role != MessageRole::Assistant || message.streaming {
        return None;
    }
    let turn_id: Id = match message.turn_id {
        Some(turn_id) => turn_id,
        None => {
            return Some(message_index);
        },
    };
    if let Some(i) = duration::find_turn(session, turn_id) {
        if session.turns[i].status == TurnStatus::Running {
            return None;
        }
    }
    let mut n: usize = session.messages.len();
    while n > 0
        invariant
            n <= session.messages@.len(),
            last_part(session@.messages, turn_id, session@.messages.len() as int) == last_part(
                session@.messages,
                turn_id,
                n as int,
            ),
            footer_owner(session@, message_index as int) == last_part(
                session@.messages,
                turn_id,
                session@.messages.len() as int,
            ),
        decreases n,
    {
        assert(session@.messages[n - 1] == session.messages@[n - 1]@);
        let candidate = &session.messages[n - 1];
        if candidate.role == MessageRole::Assistant && candidate.turn_id == Some(turn_id) {
            return Some(n - 1);
        }
        n -= 1;
    }
    None
}

/// The texts that the rows show, in order.
pub open spec fn shown_texts(messages: Seq<MessageView>, rows: Seq<TranscriptRowKind>) -> Seq<
    Seq<char>,
>
    decreases rows.len(),
{
    if rows.len() == 0 {
        Seq::empty()
    } else {
        let earlier = shown_texts(messages, rows.drop_last());
        match rows.last() {
            TranscriptRowKind::Message(i) => if i < messages.len() && !text::blank(
                messages[i as int].content,
            ) {
                earlier.push(messages[i as int].content)
            } else {
                earlier
            },
            _ => earlier,
        }
    }
}

/// The turn's answer: its text after the work that the fold hides.
pub open spec fn visible_answer(session: SessionView, turn_id: Id) -> Seq<char> {
    let shape = transcript::shape_of(session);
    let rows = transcript::produced_rows(shape, turn_id);
    text::joined(
        shown_texts(session.messages, rows.skip(transcript::answer_start(shape, rows))),
        "\n\n"@,
    )
}

/// What the footer of message `index` copies: the turn's visible answer, for
/// the message that owns the footer.
pub open spec fn footer_copy(session: SessionView, index: int) -> Option<Seq<char>> {
    if footer_owner(session, index) == Some(index as usize) {
        match session.messages[index].turn_id {
            Some(turn_id) => Some(visible_answer(session, turn_id)),
            None => Some(session.messages[index].content),
        }
    } else {
        None
    }
}

fn collect_texts(session: &AgentSession, rows: &Vec<TranscriptRowKind>, from: usize) -> (parts: Vec<
    String,
>)
    requires
        from <= rows@.len(),
    ensures
        text::texts_view(parts@) == shown_texts(session@.messages, rows@.skip(from as int)),
{
    let ghost tail = rows@.skip(from as int);
    let mut parts: Vec<String> = Vec::new();
    let mut i: usize = from;
    assert(tail.take(0) == Seq::<TranscriptRowKind>::empty());
    assert(text::texts_view(parts@) =~= shown_texts(session@.messages, tail.take(0)));
    while i < rows.len()
        invariant
            from <= i <= rows@.len(),
            tail == rows@.skip(from as int),
            text::texts_view(parts@) == shown_texts(session@.messages, tail.take(i - from)),
        decreases rows@.len() - i,
    {
        let ghost before = parts@;
        assert(tail.take(i + 1 - from).drop_last() == tail.take(i - from));
        assert(tail.take(i + 1 - from).last() == rows@[i as int]);
        match rows[i] {
            TranscriptRowKind::Message(index) => {
                if index < session.messages.len() {
                    assert(session@.messages[index as int] == session.messages@[index as int]@);
                    let content = &session.messages[index].content;
                    if !text::is_blank(content.as_str()) {
                        parts.push(content.clone());
                        assert(text::texts_view(parts@) =~= text::texts_view(before).push(
                            content@,
                        ));
                    }
                }
            },
            _ => {},
        }
        i += 1;
    }
    assert(tail.take(i - from) == tail);
    parts
}

/// What the footer of a message copies: the visible answer of its turn, so
/// interim commentary that the fold hides stays out.
pub fn assistant_response_footer(session: &AgentSession, message_index: usize) -> (copied: Option<
    String,
>)
    requires
        session.messages@.len() < usize::MAX,
    ensures
        text::text_view(copied) == footer_copy(session@, message_index as int),
{
    if assistant_response_footer_index(session, message_index) != Some(message_index) {
        return None;
    }
    let message = &session.messages[message_index];
    assert(session@.messages[message_index as int] == message@);
    match message.turn_id {
        Some(turn_id) => {
            let rows = transcript::turn_rows(session, turn_id);
            let start = transcript::turn_answer_start(session, &rows);
            let parts = collect_texts(session, &rows, start);
            Some(text::join(&parts, "\n\n"))
        },
        None => Some(message.content.clone()),
    }
}

/// When the response that message `index` owns was completed, or when the
/// message was created where its turn records no completion.
pub open spec fn footer_time(session: SessionView, index: int) -> Option<u64> {
    if footer_owner(session, index) == Some(index as usize) {
        let created = session.messages[index].created_at;
        match session.messages[index].turn_id {
            Some(turn_id) => match duration::first_turn(session.turns, turn_id) {
                Some(turn) => match turn.completed_at {
                    Some(completed) => Some(completed),
                    None => Some(created),
                },
                None => Some(created),
            },
            None => Some(created),
        }
    } else {
        None
    }
}

/// When the response that a message owns was completed.
pub fn assistant_response_footer_time(session: &AgentSession, message_index: usize) -> (time: Option<
    u64,
>)
    ensures
        time == footer_time(session@, message_index as int),
{
    if assistant_response_footer_index(session, message_index) != Some(message_index) {
        return None;
    }
    let message = &session.messages[message_index];
    assert(session@.messages[message_index as int] == message@);
    if let Some(turn_id) = message.turn_id {
        if let Some(i) = duration::find_turn(session, turn_id) {
            if let Some(completed) = session.turns[i].completed_at {
                return Some(completed);
            }
        }
    }
    Some(message.created_at)
}

// ── Turn boundaries ────────────────────────────────────────────────────────

/// Whether an earlier user message stands in the unbroken run of messages of
/// the turn that ends before `end`.
pub open spec fn run_has_user(messages: Seq<MessageView>, turn_id: Id, end: int) -> bool
    decreases end,
{
    if end <= 0 || messages[end - 1].turn_id != Some(turn_id) {
        false
    } else {
        messages[end - 1].role == MessageRole::User || run_has_user(messages, turn_id, end - 1)
    }
}

/// Whether message `index` is the prompt that opened its turn: a user message
/// of a turn with none before it in the turn's run of messages.
pub open spec fn opens_turn(messages: Seq<MessageView>, index: int) -> bool {
    index < messages.len() && messages[index].role == MessageRole::User && match messages[index].turn_id {
        Some(turn_id) => !run_has_user(messages, turn_id, index),
        None => false,
    }
}

/// Whether this user message is the prompt that opened its turn. A steer that
/// joined the running turn is not.
pub fn message_opens_turn(messages: &Vec<Message>, message_index: usize) -> (opens: bool)
    ensures
        opens == opens_turn(crate::model::messages_view(messages@), message_index as int),
{
    let ghost views = crate::model::messages_view(messages@);
    if message_index >= messages.len() {
        return false;
    }
    assert(views[message_index as int] == messages@[message_index as int]@);
    if messages[message_index].role != MessageRole::User {
        return false;
    }
    let turn_id: Id = match messages[message_index].turn_id {
        Some(turn_id) => turn_id,
        None => {
            return false;
        },
    };
    let mut end: usize = message_index;
    while end > 0
        invariant
            end <= message_index < messages@.len(),
            views == crate::model::messages_view(messages@),
            opens_turn(views, message_index as int) == !run_has_user(views, turn_id, end as int),
        decreases end,
    {
        assert(views[end - 1] == messages@[end - 1]@);
        if messages[end - 1].turn_id != Some(turn_id) {
            return true;
        }
        if messages[end - 1].role == MessageRole::User {
            return false;
        }
        end -= 1;
    }
    true
}

/// Whether a user message stands among the first `n` messages.
pub open spec fn has_user(messages: Seq<MessageView>, n: int) -> bool {
    exists|i: int| 0 <= i < n && (#[trigger] messages[i]).role == MessageRole::User
}

/// Whether this user message follows an earlier one.
pub fn message_starts_followup_turn(messages: &Vec<Message>, message_index: usize) -> (follows: bool)
    ensures
        follows == ({
            let views = crate::model::messages_view(messages@);
            message_index < views.len() && views[message_index as int].role == MessageRole::User
                && has_user(views, message_index as int)
        }),
{
    let ghost views = crate::model::messages_view(messages@);
    if message_index >= messages.len() {
        return false;
    }
    assert(views[message_index as int] == messages@[message_index as int]@);
    if messages[message_index].role != MessageRole::User {
        return false;
    }
    let mut i: usize = 0;
    while i < message_index
        invariant
            i <= message_index < messages@.len(),
            views == crate::model::messages_view(messages@),
            views[message_index as int].role == MessageRole::User,
            forall|k: int| 0 <= k < i ==> (#[trigger] views[k]).role != MessageRole::User,
        decreases message_index - i,
    {
        assert(views[i as int] == messages@[i as int]@);
        if messages[i].role == MessageRole::User {
            return true;
        }
        i += 1;
    }
    false
}

/// In an unbroken run of messages of one turn, only the first user message
/// opens the turn: two prompts of the run never both do.
pub proof fn a_turn_is_opened_once(messages: Seq<MessageView>, turn_id: Id, first: int, second: int)
    requires
        0 <= first < second < messages.len(),
        forall|k: int| first <= k <= second ==> (#[trigger] messages[k]).turn_id == Some(turn_id),
        messages[first].role == MessageRole::User,
    ensures
        !opens_turn(messages, second),
{
    lemma_run_reaches(messages, turn_id, first, second);
}

proof fn lemma_run_reaches(messages: Seq<MessageView>, turn_id: Id, first: int, end: int)
    requires
        0 <= first < end <= messages.len(),
        forall|k: int| first <= k < end ==> (#[trigger] messages[k]).turn_id == Some(turn_id),
        messages[first].role == MessageRole::User,
    ensures
        run_has_user(messages, turn_id, end),
    decreases end,
{
    if end - 1 > first {
        lemma_run_reaches(messages, turn_id, first, end - 1);
    }
}

/// A response whose turn is running, or whose text still arrives, has no
/// footer.
pub proof fn live_responses_withhold_their_footer(session: SessionView, index: int)
    requires
        0 <= index < session.messages.len(),
        session.messages[index].streaming || (match session.messages[index].turn_id {
            Some(turn_id) => duration::first_turn(session.turns, turn_id) matches Some(turn)
                && turn.status == TurnStatus::Running,
            None => false,
        }),
    ensures
        footer_owner(session, index) is None,
        footer_copy(session, index) is None,
        footer_time(session, index) is None,
{
}

} // verus!
