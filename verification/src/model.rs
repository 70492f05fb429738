//! Sessions, messages, turns and transcript blocks: the records every other
//! module reads, each with the mathematical view its contracts speak of.
use crate::text;
use vstd::prelude::*;

verus! {

/// The identity of a session, project, message, turn or activity: the 128
/// bits of its UUID.
pub type Id = u128;

#[derive(Clone, Copy, Debug, PartialEq, Eq, Structural, Hash)]
pub enum MessageRole {
    User,
    Assistant,
    System,
}

#[derive(Clone, Copy, Debug, PartialEq, Eq, Structural, Hash)]
pub enum TurnStatus {
    Running,
    Completed,
    Failed,
    Interrupted,
}

#[derive(Clone, Copy, Debug, PartialEq, Eq, Structural, Hash)]
pub enum CheckpointStatus {
    Ready,
    Unavailable,
}

#[derive(Clone, Copy, Debug, PartialEq, Eq, Structural, Hash)]
pub enum SessionStatus {
    Idle,
    Connecting,
    Working,
    Waiting,
    /// The reply ended while detached work is still running.
    Background,
    Failed,
}

#[derive(Clone, Copy, Debug, PartialEq, Eq, Structural, Hash)]
pub enum ActivityKind {
    Reasoning,
    Command,
    FileChange,
    FileRead,
    FileSearch,
    FileList,
    Search,
    Plan,
    Tool,
}

#[derive(Clone, Copy, Debug, PartialEq, Eq, Structural, Hash)]
pub enum ProviderKind {
    Amp,
    Claude,
    Codex,
    Cursor,
    DeepSeek,
    Fx,
    Grok,
    Kimi,
    OpenCode,
    OpenCode2,
    Pi,
}

#[derive(Clone, Copy, Debug, PartialEq, Eq, Structural, Hash)]
pub enum RuntimeMode {
    Ask,
    AutoAcceptEdits,
    FullAccess,
}

impl SessionStatus {
    /// Whether a turn may still be producing output.
    pub open spec fn busy(self) -> bool {
        self != SessionStatus::Idle && self != SessionStatus::Failed
    }

    /// Whether a turn may still be producing output.
    pub fn is_busy(self) -> (result: bool)
        ensures
            result == self.busy(),
    {
        match self {
            SessionStatus::Idle | SessionStatus::Failed => false,
            _ => true,
        }
    }
}

// ── Messages ───────────────────────────────────────────────────────────────

/// A file that a user message carries.
pub struct Attachment {
    pub name: String,
    pub path: String,
    pub is_image: bool,
    pub is_dir: bool,
}

pub struct AttachmentView {
    pub name: Seq<char>,
    pub path: Seq<char>,
    pub is_image: bool,
    pub is_dir: bool,
}

impl View for Attachment {
    type V = AttachmentView;

    open spec fn view(&self) -> AttachmentView {
        AttachmentView {
            name: self.name@,
            path: self.path@,
            is_image: self.is_image,
            is_dir: self.is_dir,
        }
    }
}

/// The views of a message's attachments.
pub open spec fn attachments_view(attachments: Seq<Attachment>) -> Seq<AttachmentView> {
    attachments.map_values(|attachment: Attachment| attachment@)
}

/// One text part of the conversation.
pub struct Message {
    pub id: Id,
    pub role: MessageRole,
    pub content: String,
    /// What the transcript shows in place of the text sent to the provider.
    pub display_content: Option<String>,
    pub attachments: Vec<Attachment>,
    pub turn_id: Option<Id>,
    pub created_at: u64,
    /// Whether text is still arriving in this message.
    pub streaming: bool,
}

#[verifier::ext_equal]
pub struct MessageView {
    pub id: Id,
    pub role: MessageRole,
    pub content: Seq<char>,
    pub display_content: Option<Seq<char>>,
    pub attachments: Seq<AttachmentView>,
    pub turn_id: Option<Id>,
    pub created_at: u64,
    pub streaming: bool,
}

impl View for Message {
    type V = MessageView;

    open spec fn view(&self) -> MessageView {
        MessageView {
            id: self.id,
            role: self.role,
            content: self.content@,
            display_content: text::text_view(self.display_content),
            attachments: attachments_view(self.attachments@),
            turn_id: self.turn_id,
            created_at: self.created_at,
            streaming: self.streaming,
        }
    }
}

/// The views of a list of messages.
pub open spec fn messages_view(messages: Seq<Message>) -> Seq<MessageView> {
    messages.map_values(|message: Message| message@)
}

impl MessageView {
    /// A finished text message without presentation of its own.
    pub open spec fn plain(
        id: Id,
        role: MessageRole,
        content: Seq<char>,
        turn_id: Option<Id>,
        created_at: u64,
    ) -> MessageView {
        MessageView {
            id,
            role,
            content,
            display_content: None,
            attachments: Seq::empty(),
            turn_id,
            created_at,
            streaming: false,
        }
    }

    /// What the transcript shows of this message.
    pub open spec fn visible(self) -> Seq<char> {
        match self.display_content {
            Some(shown) => shown,
            None => self.content,
        }
    }
}

impl Message {
    /// A finished text message without presentation of its own, in the turn
    /// `turn_id` where there is one.
    pub fn new(id: Id, role: MessageRole, content: String, turn_id: Option<Id>, created_at: u64) -> (message:
        Message)
        ensures
            message@ == MessageView::plain(id, role, content@, turn_id, created_at),
    {
        let message = Message {
            id,
            role,
            content,
            display_content: None,
            attachments: Vec::new(),
            turn_id,
            created_at,
            streaming: false,
        };
        assert(message@.attachments == Seq::<AttachmentView>::empty());
        message
    }

    /// What the transcript shows of this message.
    pub fn visible_content(&self) -> (shown: &str)
        ensures
            shown@ == self@.visible(),
    {
        match &self.display_content {
            Some(shown) => shown.as_str(),
            None => self.content.as_str(),
        }
    }
}

// ── Turns ──────────────────────────────────────────────────────────────────

/// One file that a turn changed.
pub struct CheckpointFile {
    pub path: String,
    pub additions: u64,
    pub deletions: u64,
}

/// What a turn changed on disk.
pub struct Checkpoint {
    pub status: CheckpointStatus,
    pub files: Vec<CheckpointFile>,
}

/// One exchange with the provider.
pub struct Turn {
    pub id: Id,
    pub status: TurnStatus,
    pub started_at: u64,
    pub completed_at: Option<u64>,
    pub provider_started: bool,
    /// The provider's message from which this turn can be resumed.
    pub provider_resume_at: Option<String>,
    pub checkpoint: Option<Checkpoint>,
}

/// Whether a checkpoint is ready and names at least one file.
pub open spec fn summarizes_files(checkpoint: Option<Checkpoint>) -> bool {
    match checkpoint {
        Some(checkpoint) => checkpoint.status == CheckpointStatus::Ready
            && checkpoint.files@.len() > 0,
        None => false,
    }
}

/// A turn as the contracts see it.
pub struct TurnView {
    pub id: Id,
    pub status: TurnStatus,
    pub started_at: u64,
    pub completed_at: Option<u64>,
    pub provider_started: bool,
    pub provider_resume_at: Option<Seq<char>>,
    pub checkpoint: Option<Checkpoint>,
}

impl Turn {
    /// Whether the checkpoint is ready and names at least one file.
    pub fn has_file_summary(&self) -> (result: bool)
        ensures
            result == summarizes_files(self.checkpoint),
    {
        match &self.checkpoint {
            Some(checkpoint) => checkpoint.status == CheckpointStatus::Ready
                && !checkpoint.files.is_empty(),
            None => false,
        }
    }
}

impl View for Turn {
    type V = TurnView;

    open spec fn view(&self) -> TurnView {
        TurnView {
            id: self.id,
            status: self.status,
            started_at: self.started_at,
            completed_at: self.completed_at,
            provider_started: self.provider_started,
            provider_resume_at: text::text_view(self.provider_resume_at),
            checkpoint: self.checkpoint,
        }
    }
}

/// The views of a list of turns.
pub open spec fn turns_view(turns: Seq<Turn>) -> Seq<TurnView> {
    turns.map_values(|turn: Turn| turn@)
}

impl TurnView {
    /// A turn that has just begun.
    pub open spec fn begun(id: Id, started_at: u64) -> TurnView {
        TurnView {
            id,
            status: TurnStatus::Running,
            started_at,
            completed_at: None,
            provider_started: false,
            provider_resume_at: None,
            checkpoint: None,
        }
    }
}

// ── Activities ─────────────────────────────────────────────────────────────

/// What the agent thought, and when.
pub struct ReasoningBlock {
    pub content: String,
    pub started_at_ms: u64,
    pub finished_at_ms: u64,
}

pub struct ReasoningView {
    pub content: Seq<char>,
    pub started_at_ms: u64,
    pub finished_at_ms: u64,
}

impl View for ReasoningBlock {
    type V = ReasoningView;

    open spec fn view(&self) -> ReasoningView {
        ReasoningView {
            content: self.content@,
            started_at_ms: self.started_at_ms,
            finished_at_ms: self.finished_at_ms,
        }
    }
}

/// One file that an activity edited.
pub struct FileChange {
    pub display_name: String,
    pub additions: Option<u64>,
    pub deletions: Option<u64>,
    pub diff: Option<String>,
}

pub struct FileChangeView {
    pub display_name: Seq<char>,
    pub additions: Option<u64>,
    pub deletions: Option<u64>,
    pub diff: Option<Seq<char>>,
}

impl View for FileChange {
    type V = FileChangeView;

    open spec fn view(&self) -> FileChangeView {
        FileChangeView {
            display_name: self.display_name@,
            additions: self.additions,
            deletions: self.deletions,
            diff: text::text_view(self.diff),
        }
    }
}

/// The views of a list of edited files.
pub open spec fn changes_view(changes: Seq<FileChange>) -> Seq<FileChangeView> {
    changes.map_values(|change: FileChange| change@)
}

/// The view of an optional piece of reasoning.
pub open spec fn reasoning_view(reasoning: Option<ReasoningBlock>) -> Option<ReasoningView> {
    match reasoning {
        Some(reasoning) => Some(reasoning@),
        None => None,
    }
}

/// One step of work that the agent reported.
pub struct ActivityItem {
    pub id: Id,
    /// The provider's own identity for this step.
    pub source_id: Option<String>,
    pub kind: ActivityKind,
    pub title: String,
    /// Whether the title only repeats what the kind says.
    pub title_is_generic: bool,
    /// Whether the title is the name of a web search tool.
    pub title_names_search: bool,
    pub detail: Option<String>,
    pub arguments: Option<String>,
    pub output: Option<String>,
    pub image_urls: Vec<String>,
    pub file_changes: Vec<FileChange>,
    /// The file, directory, query or command that the step is about.
    pub display_target: Option<String>,
    pub display_description: Option<String>,
    pub reasoning: Option<ReasoningBlock>,
    pub complete: bool,
    pub failed: bool,
}

#[verifier::ext_equal]
pub struct ActivityView {
    pub id: Id,
    pub source_id: Option<Seq<char>>,
    pub kind: ActivityKind,
    pub title: Seq<char>,
    pub title_is_generic: bool,
    pub title_names_search: bool,
    pub detail: Option<Seq<char>>,
    pub arguments: Option<Seq<char>>,
    pub output: Option<Seq<char>>,
    pub image_urls: Seq<Seq<char>>,
    pub file_changes: Seq<FileChangeView>,
    pub display_target: Option<Seq<char>>,
    pub display_description: Option<Seq<char>>,
    pub reasoning: Option<ReasoningView>,
    pub complete: bool,
    pub failed: bool,
}

impl View for ActivityItem {
    type V = ActivityView;

    open spec fn view(&self) -> ActivityView {
        ActivityView {
            id: self.id,
            source_id: text::text_view(self.source_id),
            kind: self.kind,
            title: self.title@,
            title_is_generic: self.title_is_generic,
            title_names_search: self.title_names_search,
            detail: text::text_view(self.detail),
            arguments: text::text_view(self.arguments),
            output: text::text_view(self.output),
            image_urls: text::texts_view(self.image_urls@),
            file_changes: changes_view(self.file_changes@),
            display_target: text::text_view(self.display_target),
            display_description: text::text_view(self.display_description),
            reasoning: reasoning_view(self.reasoning),
            complete: self.complete,
            failed: self.failed,
        }
    }
}

/// The views of a list of activities.
pub open spec fn activities_view(activities: Seq<ActivityItem>) -> Seq<ActivityView> {
    activities.map_values(|activity: ActivityItem| activity@)
}

impl ActivityView {
    /// A step with nothing but its kind, title and state.
    pub open spec fn plain(
        id: Id,
        source_id: Option<Seq<char>>,
        kind: ActivityKind,
        title: Seq<char>,
        title_is_generic: bool,
        title_names_search: bool,
        detail: Option<Seq<char>>,
        complete: bool,
    ) -> ActivityView {
        ActivityView {
            id,
            source_id,
            kind,
            title,
            title_is_generic,
            title_names_search,
            detail,
            arguments: None,
            output: None,
            image_urls: Seq::empty(),
            file_changes: Seq::empty(),
            display_target: None,
            display_description: None,
            reasoning: None,
            complete,
            failed: false,
        }
    }
}

impl ActivityItem {
    /// A step with nothing but its kind, title and state.
    pub fn new(
        id: Id,
        source_id: Option<String>,
        kind: ActivityKind,
        title: String,
        title_is_generic: bool,
        title_names_search: bool,
        detail: Option<String>,
        complete: bool,
    ) -> (activity: ActivityItem)
        ensures
            activity@ == ActivityView::plain(
                id,
                text::text_view(source_id),
                kind,
                title@,
                title_is_generic,
                title_names_search,
                text::text_view(detail),
                complete,
            ),
    {
        let activity = ActivityItem {
            id,
            source_id,
            kind,
            title,
            title_is_generic,
            title_names_search,
            detail,
            arguments: None,
            output: None,
            image_urls: Vec::new(),
            file_changes: Vec::new(),
            display_target: None,
            display_description: None,
            reasoning: None,
            complete,
            failed: false,
        };
        assert(activity@.image_urls == Seq::<Seq<char>>::empty());
        assert(activity@.file_changes == Seq::<FileChangeView>::empty());
        activity
    }

    /// A step of thought.
    pub fn from_reasoning(id: Id, title: String, reasoning: ReasoningBlock, complete: bool) -> (activity:
        ActivityItem)
        ensures
            activity@ == (ActivityView {
                reasoning: Some(reasoning@),
                ..ActivityView::plain(
                    id,
                    None,
                    ActivityKind::Reasoning,
                    title@,
                    true,
                    false,
                    None,
                    complete,
                )
            }),
    {
        let mut activity = ActivityItem::new(
            id,
            None,
            ActivityKind::Reasoning,
            title,
            true,
            false,
            None,
            complete,
        );
        activity.reasoning = Some(reasoning);
        activity
    }
}

/// Work that arrived between two messages.
pub struct TranscriptBlock {
    /// How many messages stood in the session when the work arrived.
    pub after_message: usize,
    pub turn_id: Option<Id>,
    pub activities: Vec<ActivityItem>,
}

#[verifier::ext_equal]
pub struct BlockView {
    pub after_message: usize,
    pub turn_id: Option<Id>,
    pub activities: Seq<ActivityView>,
}

impl View for TranscriptBlock {
    type V = BlockView;

    open spec fn view(&self) -> BlockView {
        BlockView {
            after_message: self.after_message,
            turn_id: self.turn_id,
            activities: activities_view(self.activities@),
        }
    }
}

/// The views of a list of blocks.
pub open spec fn blocks_view(blocks: Seq<TranscriptBlock>) -> Seq<BlockView> {
    blocks.map_values(|block: TranscriptBlock| block@)
}

} // verus!
