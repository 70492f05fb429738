//! One conversation with a provider: its record, and the small operations
//! that open, extend and close its turns.
use crate::model;
use crate::model::{
    Attachment, AttachmentView, BlockView, Id, Message, MessageRole, MessageView, ProviderKind,
    RuntimeMode, SessionStatus, TranscriptBlock, Turn, TurnStatus, TurnView,
};
use crate::text;
use vstd::prelude::*;

verus! {

/// How far a runtime's event stream has been read.
#[derive(Clone, Copy, Debug, PartialEq, Eq, Structural, Hash)]
pub struct RuntimeEventCursor {
    pub runtime_id: Id,
    pub epoch: Id,
    pub sequence: u64,
}

/// Where a provider can take the conversation up again.
pub struct ProviderCursor {
    pub value: String,
    /// The provider's message to resume after, where it names one.
    pub resume_at: Option<String>,
}

pub struct ProviderCursorView {
    pub value: Seq<char>,
    pub resume_at: Option<Seq<char>>,
}

impl View for ProviderCursor {
    type V = ProviderCursorView;

    open spec fn view(&self) -> ProviderCursorView {
        ProviderCursorView { value: self.value@, resume_at: text::text_view(self.resume_at) }
    }
}

/// What the provider pursues across turns.
pub struct ThreadGoal {
    pub objective: String,
    pub state: String,
}

pub struct ThreadGoalView {
    pub objective: Seq<char>,
    pub state: Seq<char>,
}

impl View for ThreadGoal {
    type V = ThreadGoalView;

    open spec fn view(&self) -> ThreadGoalView {
        ThreadGoalView { objective: self.objective@, state: self.state@ }
    }
}

#[derive(Clone, Copy, Debug, PartialEq, Eq, Structural, Hash)]
pub enum TodoStatus {
    Pending,
    InProgress,
    Completed,
    Cancelled,
}

/// One step of the agent's own plan.
pub struct TodoItem {
    pub content: String,
    pub status: TodoStatus,
}

pub struct TodoView {
    pub content: Seq<char>,
    pub status: TodoStatus,
}

impl View for TodoItem {
    type V = TodoView;

    open spec fn view(&self) -> TodoView {
        TodoView { content: self.content@, status: self.status }
    }
}

/// The views of a plan.
pub open spec fn todos_view(todos: Seq<TodoItem>) -> Seq<TodoView> {
    todos.map_values(|todo: TodoItem| todo@)
}

/// How much of the context window the conversation fills.
#[derive(Clone, Copy, Debug, PartialEq, Eq, Structural, Hash)]
pub struct ContextUsage {
    pub tokens: u64,
    pub window: Option<u64>,
}

/// A prompt with what the transcript shows for it.
pub struct Submission {
    pub prompt: String,
    pub display_content: Option<String>,
    pub attachments: Vec<Attachment>,
}

#[verifier::ext_equal]
pub struct SubmissionView {
    pub prompt: Seq<char>,
    pub display_content: Option<Seq<char>>,
    pub attachments: Seq<AttachmentView>,
}

impl View for Submission {
    type V = SubmissionView;

    open spec fn view(&self) -> SubmissionView {
        SubmissionView {
            prompt: self.prompt@,
            display_content: text::text_view(self.display_content),
            attachments: model::attachments_view(self.attachments@),
        }
    }
}

/// The views of a list of submissions.
pub open spec fn submissions_view(submissions: Seq<Submission>) -> Seq<SubmissionView> {
    submissions.map_values(|submission: Submission| submission@)
}

impl SubmissionView {
    /// A prompt that is shown as it was typed.
    pub open spec fn plain(prompt: Seq<char>) -> SubmissionView {
        SubmissionView { prompt, display_content: None, attachments: Seq::empty() }
    }
}

impl Submission {
    /// A prompt that is shown as it was typed.
    pub fn plain(prompt: String) -> (submission: Submission)
        ensures
            submission@ == SubmissionView::plain(prompt@),
    {
        let submission = Submission { prompt, display_content: None, attachments: Vec::new() };
        assert(submission@.attachments == Seq::<AttachmentView>::empty());
        submission
    }
}

/// One conversation with a provider.
pub struct AgentSession {
    pub id: Id,
    pub project_id: Id,
    pub provider: ProviderKind,
    /// The name shown for the session; `None` until it has one of its own.
    pub title: Option<String>,
    pub status: SessionStatus,
    pub runtime_mode: RuntimeMode,
    pub model: Option<String>,
    pub reasoning_effort: Option<String>,
    pub service_tier: Option<String>,
    pub context_window: Option<String>,
    pub agent_preset: Option<String>,
    pub messages: Vec<Message>,
    pub turns: Vec<Turn>,
    pub transcript_blocks: Vec<TranscriptBlock>,
    pub queued_messages: Vec<Submission>,
    pub todos: Vec<TodoItem>,
    pub thread_goal: Option<ThreadGoal>,
    pub context_usage: Option<ContextUsage>,
    pub available_commands: Vec<String>,
    pub provider_cursor: Option<ProviderCursor>,
    pub runtime_event_cursor: Option<RuntimeEventCursor>,
    /// Whether a prompt has ever been sent in this session.
    pub started: bool,
    /// Whether the transcript is in memory, not only what lists show.
    pub detail_loaded: bool,
    pub created_at: u64,
    pub updated_at: u64,
    pub last_reply_at: Option<u64>,
}

#[verifier::ext_equal]
pub struct SessionView {
    pub id: Id,
    pub project_id: Id,
    pub provider: ProviderKind,
    pub title: Option<Seq<char>>,
    pub status: SessionStatus,
    pub runtime_mode: RuntimeMode,
    pub model: Option<Seq<char>>,
    pub reasoning_effort: Option<Seq<char>>,
    pub service_tier: Option<Seq<char>>,
    pub context_window: Option<Seq<char>>,
    pub agent_preset: Option<Seq<char>>,
    pub messages: Seq<MessageView>,
    pub turns: Seq<TurnView>,
    pub blocks: Seq<BlockView>,
    pub queued_messages: Seq<SubmissionView>,
    pub todos: Seq<TodoView>,
    pub thread_goal: Option<ThreadGoalView>,
    pub context_usage: Option<ContextUsage>,
    pub available_commands: Seq<Seq<char>>,
    pub provider_cursor: Option<ProviderCursorView>,
    pub runtime_event_cursor: Option<RuntimeEventCursor>,
    pub started: bool,
    pub detail_loaded: bool,
    pub created_at: u64,
    pub updated_at: u64,
    pub last_reply_at: Option<u64>,
}

/// The view of an optional goal.
pub open spec fn goal_view(goal: Option<ThreadGoal>) -> Option<ThreadGoalView> {
    match goal {
        Some(goal) => Some(goal@),
        None => None,
    }
}

/// The view of an optional resume cursor.
pub open spec fn cursor_view(cursor: Option<ProviderCursor>) -> Option<ProviderCursorView> {
    match cursor {
        Some(cursor) => Some(cursor@),
        None => None,
    }
}

impl View for AgentSession {
    type V = SessionView;

    open spec fn view(&self) -> SessionView {
        SessionView {
            id: self.id,
            project_id: self.project_id,
            provider: self.provider,
            title: text::text_view(self.title),
            status: self.status,
            runtime_mode: self.runtime_mode,
            model: text::text_view(self.model),
            reasoning_effort: text::text_view(self.reasoning_effort),
            service_tier: text::text_view(self.service_tier),
            context_window: text::text_view(self.context_window),
            agent_preset: text::text_view(self.agent_preset),
            messages: model::messages_view(self.messages@),
            turns: model::turns_view(self.turns@),
            blocks: model::blocks_view(self.transcript_blocks@),
            queued_messages: submissions_view(self.queued_messages@),
            todos: todos_view(self.todos@),
            thread_goal: goal_view(self.thread_goal),
            context_usage: self.context_usage,
            available_commands: text::texts_view(self.available_commands@),
            provider_cursor: cursor_view(self.provider_cursor),
            runtime_event_cursor: self.runtime_event_cursor,
            started: self.started,
            detail_loaded: self.detail_loaded,
            created_at: self.created_at,
            updated_at: self.updated_at,
            last_reply_at: self.last_reply_at,
        }
    }
}

/// The views of a list of sessions.
pub open spec fn sessions_view(sessions: Seq<AgentSession>) -> Seq<SessionView> {
    sessions.map_values(|session: AgentSession| session@)
}

impl SessionView {
    /// A conversation in which nothing has happened yet.
    pub open spec fn fresh(id: Id, project_id: Id, provider: ProviderKind, now: u64) -> SessionView {
        SessionView {
            id,
            project_id,
            provider,
            title: None,
            status: SessionStatus::Idle,
            runtime_mode: RuntimeMode::FullAccess,
            model: None,
            reasoning_effort: None,
            service_tier: None,
            context_window: None,
            agent_preset: None,
            messages: Seq::empty(),
            turns: Seq::empty(),
            blocks: Seq::empty(),
            queued_messages: Seq::empty(),
            todos: Seq::empty(),
            thread_goal: None,
            context_usage: None,
            available_commands: Seq::empty(),
            provider_cursor: None,
            runtime_event_cursor: None,
            started: false,
            detail_loaded: true,
            created_at: now,
            updated_at: now,
            last_reply_at: None,
        }
    }

    /// The turn that is running: the last one, while it runs.
    pub open spec fn active_turn(self) -> Option<Id> {
        if self.turns.len() > 0 && self.turns.last().status == TurnStatus::Running {
            Some(self.turns.last().id)
        } else {
            None
        }
    }

    /// The session with its running turn replaced.
    pub open spec fn with_active_turn(self, turn: TurnView) -> SessionView {
        SessionView { turns: self.turns.update(self.turns.len() - 1, turn), ..self }
    }

    /// The session after the provider confirmed its running turn.
    pub open spec fn provider_started(self) -> SessionView {
        if self.active_turn() is Some {
            self.with_active_turn(TurnView { provider_started: true, ..self.turns.last() })
        } else {
            self
        }
    }

    /// Whether a turn runs that the provider has not confirmed.
    pub open spec fn unconfirmed(self) -> bool {
        self.active_turn() is Some && !self.turns.last().provider_started
    }

    /// The session without a running turn that the provider has not confirmed:
    /// nothing goes on any more.
    pub open spec fn unwound(self) -> SessionView {
        if self.unconfirmed() {
            SessionView {
                turns: self.turns.drop_last(),
                status: SessionStatus::Idle,
                ..self
            }
        } else {
            self
        }
    }

    /// The session after the provider named where its running turn can resume.
    pub open spec fn resumable_at(self, message: Seq<char>) -> SessionView {
        if self.active_turn() is Some {
            self.with_active_turn(
                TurnView { provider_resume_at: Some(message), ..self.turns.last() },
            )
        } else {
            self
        }
    }

    /// The session after its running turn ended.
    pub open spec fn turn_finished(self, status: TurnStatus, now: u64) -> SessionView {
        if self.active_turn() is Some {
            self.with_active_turn(
                TurnView { status, completed_at: Some(now), ..self.turns.last() },
            )
        } else {
            self
        }
    }

    /// The session after the provider began a turn on its own.
    pub open spec fn provider_turn_begun(self, turn_id: Id, now: u64) -> SessionView {
        SessionView {
            turns: self.turns.push(TurnView::begun(turn_id, now)),
            started: true,
            ..self
        }
    }

    /// The session with one more message.
    pub open spec fn with_message(self, message: MessageView) -> SessionView {
        SessionView { messages: self.messages.push(message), ..self }
    }

    /// The session with `delta` appended to the text of message `at`.
    pub open spec fn with_text(self, at: int, delta: Seq<char>) -> SessionView {
        SessionView {
            messages: self.messages.update(
                at,
                MessageView { content: self.messages[at].content + delta, ..self.messages[at] },
            ),
            ..self
        }
    }

    /// Whether some message of the running turn has the given role.
    pub open spec fn active_turn_has(self, role: MessageRole) -> bool {
        self.active_turn() is Some && exists|i: int|
            0 <= i < self.messages.len() && (#[trigger] self.messages[i]).role == role
                && self.messages[i].turn_id == self.active_turn()
    }
}

impl AgentSession {
    /// A conversation in which nothing has happened yet.
    pub fn new(id: Id, project_id: Id, provider: ProviderKind, now: u64) -> (session: AgentSession)
        ensures
            session@ == SessionView::fresh(id, project_id, provider, now),
    {
        let session = AgentSession {
            id,
            project_id,
            provider,
            title: None,
            status: SessionStatus::Idle,
            runtime_mode: RuntimeMode::FullAccess,
            model: None,
            reasoning_effort: None,
            service_tier: None,
            context_window: None,
            agent_preset: None,
            messages: Vec::new(),
            turns: Vec::new(),
            transcript_blocks: Vec::new(),
            queued_messages: Vec::new(),
            todos: Vec::new(),
            thread_goal: None,
            context_usage: None,
            available_commands: Vec::new(),
            provider_cursor: None,
            runtime_event_cursor: None,
            started: false,
            detail_loaded: true,
            created_at: now,
            updated_at: now,
            last_reply_at: None,
        };
        assert(session@ =~= SessionView::fresh(id, project_id, provider, now));
        session
    }

    /// The turn that is running: the last one, while it runs.
    pub fn active_turn_id(&self) -> (turn: Option<Id>)
        ensures
            turn == self@.active_turn(),
    {
        let count: usize = self.turns.len();
        if count > 0 && self.turns[count - 1].status == TurnStatus::Running {
            assert(self@.turns.last() == self.turns@[count - 1]@);
            Some(self.turns[count - 1].id)
        } else {
            assert(count > 0 ==> self@.turns.last() == self.turns@[count - 1]@);
            None
        }
    }

    /// Take back a running turn that the provider has not confirmed. Should the
    /// provider start it after all, its report opens the turn again.
    pub fn unwind_unconfirmed_turn(&mut self)
        ensures
            final(self)@ == old(self)@.unwound(),
            final(self).messages == old(self).messages,
    {
        let count: usize = self.turns.len();
        if count > 0 {
            assert(self@.turns.last() == self.turns@[count - 1]@);
            if self.turns[count - 1].status == TurnStatus::Running && !self.turns[count
                - 1].provider_started {
                let _ = self.turns.pop();
                self.status = SessionStatus::Idle;
                assert(self@.turns =~= old(self)@.turns.drop_last());
            }
        }
    }

    /// Open a turn with the user's prompt. The reply clock starts with it.
    pub fn begin_turn(&mut self, prompt: String, message_id: Id, turn_id: Id, now: u64)
        ensures
            final(self)@ == (SessionView {
                turns: old(self)@.turns.push(TurnView::begun(turn_id, now)),
                messages: old(self)@.messages.push(
                    MessageView::plain(message_id, MessageRole::User, prompt@, Some(turn_id), now),
                ),
                last_reply_at: Some(now),
                updated_at: now,
                started: true,
                ..old(self)@
            }),
    {
        self.begin_provider_turn(turn_id, now);
        self.messages.push(Message::new(message_id, MessageRole::User, prompt, Some(turn_id), now));
        self.last_reply_at = Some(now);
        self.updated_at = now;
        assert(self@.messages =~= old(self)@.messages.push(
            MessageView::plain(message_id, MessageRole::User, prompt@, Some(turn_id), now),
        ));
    }

    /// Open a turn that the provider started on its own.
    pub fn begin_provider_turn(&mut self, turn_id: Id, now: u64)
        ensures
            final(self)@ == old(self)@.provider_turn_begun(turn_id, now),
            final(self).messages == old(self).messages,
    {
        self.turns.push(
            Turn {
                id: turn_id,
                status: TurnStatus::Running,
                started_at: now,
                completed_at: None,
                provider_started: false,
                provider_resume_at: None,
                checkpoint: None,
            },
        );
        self.started = true;
        assert(self@.turns =~= old(self)@.turns.push(TurnView::begun(turn_id, now)));
    }

    /// Add a message to the running turn, or outside any turn while none runs.
    pub fn push_message(&mut self, id: Id, role: MessageRole, content: String, now: u64)
        ensures
            final(self)@ == old(self)@.with_message(
                MessageView::plain(id, role, content@, old(self)@.active_turn(), now),
            ),
    {
        let turn_id = self.active_turn_id();
        self.messages.push(Message::new(id, role, content, turn_id, now));
        assert(self@.messages =~= old(self)@.messages.push(
            MessageView::plain(id, role, content@, old(self)@.active_turn(), now),
        ));
    }

    /// Add a user message to the running turn with what the transcript shows
    /// for it.
    pub fn push_user_message_with_presentation(
        &mut self,
        id: Id,
        content: String,
        display_content: Option<String>,
        attachments: Vec<Attachment>,
        now: u64,
    )
        ensures
            final(self)@ == old(self)@.with_message(
                MessageView {
                    display_content: text::text_view(display_content),
                    attachments: model::attachments_view(attachments@),
                    ..MessageView::plain(
                        id,
                        MessageRole::User,
                        content@,
                        old(self)@.active_turn(),
                        now,
                    )
                },
            ),
    {
        let turn_id = self.active_turn_id();
        let mut message = Message::new(id, MessageRole::User, content, turn_id, now);
        message.display_content = display_content;
        message.attachments = attachments;
        let ghost added = message@;
        self.messages.push(message);
        assert(self@.messages =~= old(self)@.messages.push(added));
    }

    /// End the running turn; `true` if there was one.
    pub fn finish_active_turn(&mut self, status: TurnStatus, now: u64) -> (finished: bool)
        ensures
            final(self)@ == old(self)@.turn_finished(status, now),
            finished == (old(self)@.active_turn() is Some),
    {
        if self.active_turn_id().is_none() {
            return false;
        }
        let last: usize = self.turns.len() - 1;
        let ghost before = self.turns@[last as int]@;
        assert(before == old(self)@.turns.last());
        self.turns[last].status = status;
        self.turns[last].completed_at = Some(now);
        assert(self@.turns =~= old(self)@.turns.update(
            last as int,
            TurnView { status, completed_at: Some(now), ..before },
        ));
        true
    }

    /// Record that the provider confirmed the running turn.
    pub fn mark_active_turn_provider_started(&mut self)
        ensures
            final(self)@ == old(self)@.provider_started(),
    {
        if self.active_turn_id().is_some() {
            let last: usize = self.turns.len() - 1;
            let ghost before = self.turns@[last as int]@;
            assert(before == old(self)@.turns.last());
            self.turns[last].provider_started = true;
            assert(self@.turns =~= old(self)@.turns.update(
                last as int,
                TurnView { provider_started: true, ..before },
            ));
        }
    }

    /// Record where the running turn can resume.
    pub fn mark_active_turn_provider_resume_at(&mut self, message: String)
        ensures
            final(self)@ == old(self)@.resumable_at(message@),
    {
        if self.active_turn_id().is_some() {
            let last: usize = self.turns.len() - 1;
            let ghost before = self.turns@[last as int]@;
            assert(before == old(self)@.turns.last());
            self.turns[last].provider_resume_at = Some(message);
            assert(self@.turns =~= old(self)@.turns.update(
                last as int,
                TurnView { provider_resume_at: Some(message@), ..before },
            ));
        }
    }

    /// Whether some message of the running turn has the given role.
    pub fn active_turn_has(&self, role: MessageRole) -> (found: bool)
        ensures
            found == self@.active_turn_has(role),
    {
        let turn_id = self.active_turn_id();
        if turn_id.is_none() {
            return false;
        }
        let mut i: usize = 0;
        while i < self.messages.len()
            invariant
                i <= self.messages@.len(),
                turn_id == self@.active_turn(),
                turn_id is Some,
                forall|j: int|
                    0 <= j < i ==> !((#[trigger] self@.messages[j]).role == role
                        && self@.messages[j].turn_id == turn_id),
            decreases self.messages@.len() - i,
        {
            assert(self@.messages[i as int] == self.messages@[i as int]@);
            if self.messages[i].role == role && self.messages[i].turn_id == turn_id {
                return true;
            }
            i += 1;
        }
        false
    }
}

/// Finishing a turn leaves none running.
pub proof fn finishing_leaves_no_active_turn(session: SessionView, status: TurnStatus, now: u64)
    requires
        status != TurnStatus::Running,
    ensures
        session.turn_finished(status, now).active_turn() is None,
{
    if session.active_turn() is Some {
        let after = session.turn_finished(status, now);
        assert(after.turns.last() == after.turns[session.turns.len() - 1]);
    }
}

} // verus!
