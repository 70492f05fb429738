//! What each event of a provider's driver does to its session and runtime,
//! and what the application has to do besides.
use crate::analytics::TurnOutcome;
use crate::i18n;
use crate::i18n::Catalog;
use crate::model;
use crate::model::{
    ActivityItem, ActivityKind, ActivityView, FileChange, Id, MessageRole, MessageView,
    ProviderKind, ReasoningBlock, SessionStatus, TurnStatus,
};
use crate::session;
use crate::session::{
    AgentSession, ContextUsage, ProviderCursor, RuntimeEventCursor, SessionView, Submission,
    SubmissionView, ThreadGoal, ThreadGoalView, TodoItem,
};
use crate::streaming;
use crate::streaming::StreamPhase;
use crate::text;
use crate::transcript;
use crate::transcript::{RowSplice, TranscriptRowKind};
use crate::user_input::{PendingUserInput, UserInputQuestion, UserInputView};
use std::collections::HashSet;
use std::collections::VecDeque;
use vstd::prelude::*;

verus! {

// ── The runtime ────────────────────────────────────────────────────────────

/// One way to answer a permission request.
pub struct PermissionOption {
    pub id: String,
    pub label: String,
}

/// A permission that the agent waits for.
pub struct PendingPermission {
    pub request_id: String,
    pub title: String,
    pub detail: Option<String>,
    pub options: Vec<PermissionOption>,
}

/// An application that the agent controls.
pub struct ComputerTarget {
    pub window_id: u32,
    pub bundle_id: String,
    pub app_name: String,
    /// The key under which the user's consent is kept.
    pub grant_key: String,
    /// Whether consent can outlive the session.
    pub persistable: bool,
}

/// What the agent is doing in an application.
pub struct ComputerUsePreview {
    pub target: Option<ComputerTarget>,
    pub phase: String,
    pub visible: bool,
    pub screenshot: Option<Vec<u8>>,
}

/// Control of an application that the agent waits for.
pub struct PendingComputerApproval {
    pub request: String,
    pub target: ComputerTarget,
}

/// A live connection to a provider's driver.
pub struct SessionRuntime {
    pub stream_phase: Option<StreamPhase>,
    pub pending_permission: Option<PendingPermission>,
    pub pending_user_input: Option<PendingUserInput>,
    pub pending_computer_approval: Option<PendingComputerApproval>,
    pub last_driver_error: Option<String>,
    /// Whether the wait for detached work has been announced.
    pub park_announced: bool,
    /// Messages sent into the running turn and not yet acknowledged.
    pub pending_steers: Vec<Submission>,
    pub computer_use_previews: Vec<ComputerUsePreview>,
    pub last_active_at: u64,
    pub last_background_refresh_at: u64,
}

#[verifier::ext_equal]
pub struct RuntimeView {
    pub stream_phase: Option<StreamPhase>,
    pub pending_permission: Option<PendingPermission>,
    pub pending_user_input: Option<UserInputView>,
    pub pending_computer_approval: Option<PendingComputerApproval>,
    pub last_driver_error: Option<Seq<char>>,
    pub park_announced: bool,
    pub pending_steers: Seq<SubmissionView>,
    pub previews: Seq<ComputerUsePreview>,
    pub last_active_at: u64,
    pub last_background_refresh_at: u64,
}

/// The view of an optional round of questions.
pub open spec fn user_input_view(pending: Option<PendingUserInput>) -> Option<UserInputView> {
    match pending {
        Some(pending) => Some(pending@),
        None => None,
    }
}

impl View for SessionRuntime {
    type V = RuntimeView;

    open spec fn view(&self) -> RuntimeView {
        RuntimeView {
            stream_phase: self.stream_phase,
            pending_permission: self.pending_permission,
            pending_user_input: user_input_view(self.pending_user_input),
            pending_computer_approval: self.pending_computer_approval,
            last_driver_error: text::text_view(self.last_driver_error),
            park_announced: self.park_announced,
            pending_steers: session::submissions_view(self.pending_steers@),
            previews: self.computer_use_previews@,
            last_active_at: self.last_active_at,
            last_background_refresh_at: self.last_background_refresh_at,
        }
    }
}

impl SessionRuntime {
    /// What the user has answered is kept once per question.
    pub open spec fn wf(&self) -> bool {
        self.pending_user_input matches Some(pending) ==> pending.wf()
    }
}

impl RuntimeView {
    /// The runtime with nothing left that waits for the user, and nothing
    /// streaming.
    pub open spec fn settled(self) -> RuntimeView {
        RuntimeView {
            stream_phase: None,
            pending_permission: None,
            pending_user_input: None,
            pending_computer_approval: None,
            previews: Seq::empty(),
            ..self
        }
    }
}

// ── Events ─────────────────────────────────────────────────────────────────

/// A change in the work that runs beside the conversation.
pub struct BackgroundWorkEvent {
    pub payload: String,
}

/// What an account has used of its plan.
pub struct PlanUsage {
    pub payload: String,
}

/// What a provider's driver reports.
pub enum DriverEvent {
    RuntimeEventCursorAdvanced(RuntimeEventCursor),
    Connected { provider_cursor: Option<ProviderCursor> },
    AgentPresetSelected(Option<String>),
    AutoTitleUpdated(String),
    AvailableCommands(Vec<String>),
    PromptSubmitted { message: String, turn_id: Option<Id>, message_id: Option<Id> },
    TurnStarted,
    TurnParked,
    TextDelta(String),
    ReasoningDelta(String),
    Activity {
        id: Option<String>,
        kind: ActivityKind,
        title: String,
        title_is_generic: bool,
        title_names_search: bool,
        detail: Option<String>,
        complete: bool,
    },
    RichActivity(ActivityItem),
    BackgroundWork(BackgroundWorkEvent),
    Permission(PendingPermission),
    UserInputRequested { request_id: String, questions: Vec<UserInputQuestion> },
    ComputerUseUpdated(ComputerUsePreview),
    SteerAccepted { message: String },
    SteerRejected { message: String, reason: String },
    PlanUsageUpdated(PlanUsage),
    GoalUpdated(Option<ThreadGoal>),
    TodoUpdated(Vec<TodoItem>),
    UsageUpdated { context_tokens: Option<u64>, context_window: Option<u64> },
    TurnFinished { success: bool, summary: Option<String> },
    Error(String),
    ProcessExited,
}

/// How work in the foreground ended.
#[derive(Clone, Copy, Debug, PartialEq, Eq, Structural)]
pub enum BackgroundWorkStatus {
    Completed,
    Failed,
    Stopped,
}

/// What the application has to do after an event.
pub enum Effect {
    /// Ask the driver for the work that runs beside the conversation.
    RefreshBackgroundWork,
    /// Name the session as the provider suggests.
    SetAutoTitle(String),
    /// Name the session after this prompt.
    SetTitleFromPrompt(String),
    /// Let the session decide whether this prompt is news to it.
    AdoptPrompt { message: String, turn_id: Option<Id>, message_id: Option<Id> },
    /// Save the session with the next save.
    MarkDirty,
    /// Rebuild what the composer offers.
    ComposerSourcesStale,
    /// End the work in the foreground.
    SettleForegroundWork(BackgroundWorkStatus),
    /// Let the foreground work take up this step.
    ObserveActivity(ActivityItem),
    /// The cached diff of this step is stale.
    DropActivityDiff(Id),
    /// Read the selected branch again.
    RefreshBranch,
    /// Take up a change in the work beside the conversation.
    TrackBackgroundWork(BackgroundWorkEvent),
    /// Empty the field in which the user answers.
    ClearAnswerField,
    /// Queue a message behind the running turn.
    EnqueueFollowUp(Submission),
    ShowToast(String),
    /// Start the next queued message once the runtime is back in place.
    DrainQueue,
    /// Show what the account has used.
    ShowPlanUsage(ProviderKind, PlanUsage),
    /// Ask for what the account has used.
    PlanUsageStale(ProviderKind),
    /// Start or stop the goal's clock.
    GoalObserved(bool),
    /// Report how the turn ended.
    TrackTurn(TurnOutcome),
    /// End what the agent does in other applications.
    CancelComputerUse,
    /// Drop what is cached of the workspace on disk.
    WorkspaceQueriesStale,
    /// Record what the turn changed on disk.
    CaptureCheckpoint,
    /// Look for facts worth remembering in the turn.
    ExtractMemory,
    /// The rows on screen change like this.
    SpliceRows(RowSplice),
    /// Tell the user outside the window.
    Notify { title: String, body: String },
    /// The work beside the conversation is gone with its process.
    MarkBackgroundWorkLost,
}

#[verifier::ext_equal]
pub enum EffectView {
    RefreshBackgroundWork,
    SetAutoTitle(Seq<char>),
    SetTitleFromPrompt(Seq<char>),
    AdoptPrompt { message: Seq<char>, turn_id: Option<Id>, message_id: Option<Id> },
    MarkDirty,
    ComposerSourcesStale,
    SettleForegroundWork(BackgroundWorkStatus),
    ObserveActivity(ActivityView),
    DropActivityDiff(Id),
    RefreshBranch,
    TrackBackgroundWork(BackgroundWorkEvent),
    ClearAnswerField,
    EnqueueFollowUp(SubmissionView),
    ShowToast(Seq<char>),
    DrainQueue,
    ShowPlanUsage(ProviderKind, PlanUsage),
    PlanUsageStale(ProviderKind),
    GoalObserved(bool),
    TrackTurn(TurnOutcome),
    CancelComputerUse,
    WorkspaceQueriesStale,
    CaptureCheckpoint,
    ExtractMemory,
    SpliceRows(RowSplice),
    Notify { title: Seq<char>, body: Seq<char> },
    MarkBackgroundWorkLost,
}

impl View for Effect {
    type V = EffectView;

    open spec fn view(&self) -> EffectView {
        match *self {
            Effect::RefreshBackgroundWork => EffectView::RefreshBackgroundWork,
            Effect::SetAutoTitle(title) => EffectView::SetAutoTitle(title@),
            Effect::SetTitleFromPrompt(prompt) => EffectView::SetTitleFromPrompt(prompt@),
            Effect::AdoptPrompt { message, turn_id, message_id } => EffectView::AdoptPrompt {
                message: message@,
                turn_id,
                message_id,
            },
            Effect::MarkDirty => EffectView::MarkDirty,
            Effect::ComposerSourcesStale => EffectView::ComposerSourcesStale,
            Effect::SettleForegroundWork(status) => EffectView::SettleForegroundWork(status),
            Effect::ObserveActivity(item) => EffectView::ObserveActivity(item@),
            Effect::DropActivityDiff(id) => EffectView::DropActivityDiff(id),
            Effect::RefreshBranch => EffectView::RefreshBranch,
            Effect::TrackBackgroundWork(event) => EffectView::TrackBackgroundWork(event),
            Effect::ClearAnswerField => EffectView::ClearAnswerField,
            Effect::EnqueueFollowUp(submission) => EffectView::EnqueueFollowUp(submission@),
            Effect::ShowToast(toast) => EffectView::ShowToast(toast@),
            Effect::DrainQueue => EffectView::DrainQueue,
            Effect::ShowPlanUsage(provider, usage) => EffectView::ShowPlanUsage(provider, usage),
            Effect::PlanUsageStale(provider) => EffectView::PlanUsageStale(provider),
            Effect::GoalObserved(observed) => EffectView::GoalObserved(observed),
            Effect::TrackTurn(outcome) => EffectView::TrackTurn(outcome),
            Effect::CancelComputerUse => EffectView::CancelComputerUse,
            Effect::WorkspaceQueriesStale => EffectView::WorkspaceQueriesStale,
            Effect::CaptureCheckpoint => EffectView::CaptureCheckpoint,
            Effect::ExtractMemory => EffectView::ExtractMemory,
            Effect::SpliceRows(splice) => EffectView::SpliceRows(splice),
            Effect::Notify { title, body } => EffectView::Notify { title: title@, body: body@ },
            Effect::MarkBackgroundWorkLost => EffectView::MarkBackgroundWorkLost,
        }
    }
}

/// The views of a list of effects.
pub open spec fn effects_view(effects: Seq<Effect>) -> Seq<EffectView> {
    effects.map_values(|effect: Effect| effect@)
}

/// What an event is seen against.
pub struct EventContext {
    /// Whether the session is the one on screen.
    pub selected: bool,
    /// Whether a prompt for this session is still being prepared.
    pub preparing: bool,
    /// Whether a window of the application is in front.
    pub window_active: bool,
    /// Whether queued messages may start. They may not while the user stops
    /// the turn.
    pub allow_queue_drain: bool,
    /// Whether the provider's plan usage is shown.
    pub meters_plan_usage: bool,
    /// Whether the running turn was opened for a goal, before the provider
    /// confirmed that it pursues it.
    pub pursuit: bool,
    pub now: u64,
    pub now_ms: u64,
    /// An identity for a message or step that the event creates.
    pub fresh_id: Id,
    /// An identity for a turn that the event opens.
    pub fresh_turn: Id,
    /// The title of a step of thought.
    pub reasoning_title: String,
}

/// What an event leads to.
#[verifier::ext_equal]
pub struct Outcome {
    pub session: SessionView,
    pub runtime: RuntimeView,
    pub effects: Seq<EffectView>,
    /// Whether the runtime stays attached.
    pub keep: bool,
}

/// Effects that stand only where the condition holds.
pub open spec fn when(condition: bool, effect: EffectView) -> Seq<EffectView> {
    if condition {
        seq![effect]
    } else {
        Seq::empty()
    }
}

/// How the rows on screen follow a change of the selected session.
pub open spec fn splice_effects(
    selected: bool,
    expanded: Set<Id>,
    before: SessionView,
    after: SessionView,
) -> Seq<EffectView> {
    if selected {
        match transcript::splice_between(
            transcript::folded_rows(transcript::shape_of(before), expanded),
            transcript::folded_rows(transcript::shape_of(after), expanded),
        ) {
            Some(splice) => seq![EffectView::SpliceRows(splice)],
            None => Seq::empty(),
        }
    } else {
        Seq::empty()
    }
}

/// The session's name, or the one for a session that has none.
pub open spec fn shown_title(
    entries: Seq<(Seq<char>, Seq<char>)>,
    session: SessionView,
) -> Seq<char> {
    match session.title {
        Some(title) => title,
        None => i18n::plain(entries, "session.new_task"@),
    }
}

// ── Small pieces ───────────────────────────────────────────────────────────

pub(crate) fn push_if(effects: &mut Vec<Effect>, condition: bool, effect: Effect)
    ensures
        effects_view(final(effects)@) == effects_view(old(effects)@) + when(condition, effect@),
{
    let ghost before = effects_view(effects@);
    let ghost added = effect@;
    if condition {
        effects.push(effect);
        assert(effects_view(effects@) =~= before + seq![added]);
    } else {
        assert(before + Seq::<EffectView>::empty() =~= before);
    }
}

pub(crate) fn push(effects: &mut Vec<Effect>, effect: Effect)
    ensures
        effects_view(final(effects)@) == effects_view(old(effects)@) + seq![effect@],
{
    let ghost before = effects_view(effects@);
    let ghost added = effect@;
    effects.push(effect);
    assert(effects_view(effects@) =~= before + seq![added]);
}

pub(crate) fn rows_if_selected(
    selected: bool,
    session: &AgentSession,
    expanded: &HashSet<Id>,
) -> (rows: Option<Vec<TranscriptRowKind>>)
    requires
        session.messages@.len() < usize::MAX,
    ensures
        match rows {
            Some(rows) => selected && rows@ == transcript::folded_rows(
                transcript::shape_of(session@),
                expanded@,
            ),
            None => !selected,
        },
{
    if selected {
        Some(transcript::folded_transcript_row_kinds(session, expanded))
    } else {
        None
    }
}

pub(crate) fn push_splice(
    effects: &mut Vec<Effect>,
    previous: &Option<Vec<TranscriptRowKind>>,
    session: &AgentSession,
    expanded: &HashSet<Id>,
    Ghost(before): Ghost<SessionView>,
)
    requires
        session.messages@.len() < usize::MAX,
        previous matches Some(rows) ==> rows@ == transcript::folded_rows(
            transcript::shape_of(before),
            expanded@,
        ),
    ensures
        effects_view(final(effects)@) == effects_view(old(effects)@) + splice_effects(
            previous is Some,
            expanded@,
            before,
            session@,
        ),
{
    let ghost listed = effects_view(effects@);
    assert(listed + Seq::<EffectView>::empty() =~= listed);
    if let Some(previous) = previous {
        let next = transcript::folded_transcript_row_kinds(session, expanded);
        if let Some(splice) = transcript::transcript_row_splice(previous, &next) {
            push(effects, Effect::SpliceRows(splice));
        }
    }
}

fn title_of(catalog: &Catalog, session: &AgentSession) -> (title: String)
    ensures
        title@ == shown_title(catalog@, session@),
{
    match &session.title {
        Some(title) => title.clone(),
        None => catalog.text("session.new_task"),
    }
}

/// Whether two lists of texts are the same.
pub fn same_texts(a: &Vec<String>, b: &Vec<String>) -> (equal: bool)
    ensures
        equal == (text::texts_view(a@) == text::texts_view(b@)),
{
    if a.len() != b.len() {
        assert(text::texts_view(a@).len() != text::texts_view(b@).len());
        return false;
    }
    let mut i: usize = 0;
    while i < a.len()
        invariant
            i <= a@.len(),
            a@.len() == b@.len(),
            forall|k: int| 0 <= k < i ==> (#[trigger] a@[k])@ == b@[k]@,
        decreases a@.len() - i,
    {
        if !text::same(a[i].as_str(), b[i].as_str()) {
            assert(text::texts_view(a@)[i as int] != text::texts_view(b@)[i as int]);
            return false;
        }
        i += 1;
    }
    assert(text::texts_view(a@) =~= text::texts_view(b@));
    true
}

/// Whether two plans are the same.
pub fn same_todos(a: &Vec<TodoItem>, b: &Vec<TodoItem>) -> (equal: bool)
    ensures
        equal == (session::todos_view(a@) == session::todos_view(b@)),
{
    if a.len() != b.len() {
        assert(session::todos_view(a@).len() != session::todos_view(b@).len());
        return false;
    }
    let mut i: usize = 0;
    while i < a.len()
        invariant
            i <= a@.len(),
            a@.len() == b@.len(),
            forall|k: int| 0 <= k < i ==> (#[trigger] a@[k])@ == b@[k]@,
        decreases a@.len() - i,
    {
        if a[i].status != b[i].status || !text::same(a[i].content.as_str(), b[i].content.as_str()) {
            assert(session::todos_view(a@)[i as int] != session::todos_view(b@)[i as int]);
            return false;
        }
        i += 1;
    }
    assert(session::todos_view(a@) =~= session::todos_view(b@));
    true
}

fn same_goal(a: &Option<ThreadGoal>, b: &Option<ThreadGoal>) -> (equal: bool)
    ensures
        equal == (session::goal_view(*a) == session::goal_view(*b)),
{
    match (a, b) {
        (Some(a), Some(b)) => text::same(a.objective.as_str(), b.objective.as_str()) && text::same(
            a.state.as_str(),
            b.state.as_str(),
        ),
        (None, None) => true,
        _ => false,
    }
}

fn copy_changes(changes: &Vec<FileChange>) -> (copy: Vec<FileChange>)
    ensures
        model::changes_view(copy@) == model::changes_view(changes@),
{
    let mut copy: Vec<FileChange> = Vec::new();
    let mut i: usize = 0;
    while i < changes.len()
        invariant
            i <= changes@.len(),
            model::changes_view(copy@) == model::changes_view(changes@).take(i as int),
        decreases changes@.len() - i,
    {
        let change = &changes[i];
        let ghost before = model::changes_view(copy@);
        copy.push(
            FileChange {
                display_name: change.display_name.clone(),
                additions: change.additions,
                deletions: change.deletions,
                diff: text::copy_text(&change.diff),
            },
        );
        assert(model::changes_view(copy@) =~= before.push(change@));
        assert(model::changes_view(changes@).take(i + 1) =~= model::changes_view(changes@).take(
            i as int,
        ).push(change@));
        i += 1;
    }
    assert(model::changes_view(changes@).take(i as int) =~= model::changes_view(changes@));
    copy
}

fn copy_activity(item: &ActivityItem) -> (copy: ActivityItem)
    ensures
        copy@ == item@,
{
    let reasoning: Option<ReasoningBlock> = match &item.reasoning {
        Some(reasoning) => Some(
            ReasoningBlock {
                content: reasoning.content.clone(),
                started_at_ms: reasoning.started_at_ms,
                finished_at_ms: reasoning.finished_at_ms,
            },
        ),
        None => None,
    };
    let copy = ActivityItem {
        id: item.id,
        source_id: text::copy_text(&item.source_id),
        kind: item.kind,
        title: item.title.clone(),
        title_is_generic: item.title_is_generic,
        title_names_search: item.title_names_search,
        detail: text::copy_text(&item.detail),
        arguments: text::copy_text(&item.arguments),
        output: text::copy_text(&item.output),
        image_urls: text::copy_texts(&item.image_urls),
        file_changes: copy_changes(&item.file_changes),
        display_target: text::copy_text(&item.display_target),
        display_description: text::copy_text(&item.display_description),
        reasoning,
        complete: item.complete,
        failed: item.failed,
    };
    assert(copy@ =~= item@);
    copy
}

// ── Steers ─────────────────────────────────────────────────────────────────

/// The first waiting steer with this text, or -1.
pub open spec fn steer_with(steers: Seq<SubmissionView>, message: Seq<char>) -> int
    decreases steers.len(),
{
    if steers.len() == 0 {
        -1
    } else if steers[0].prompt == message {
        0
    } else if steer_with(steers.skip(1), message) < 0 {
        -1
    } else {
        steer_with(steers.skip(1), message) + 1
    }
}

/// The steer that an acknowledgement is about: the one with its text, else
/// the oldest one, else one made of the text alone.
pub open spec fn acknowledged(steers: Seq<SubmissionView>, message: Seq<char>) -> SubmissionView {
    if steer_with(steers, message) >= 0 {
        steers[steer_with(steers, message)]
    } else if steers.len() > 0 {
        steers[0]
    } else {
        SubmissionView::plain(message)
    }
}

/// The steers that still wait after an acknowledgement.
pub open spec fn still_waiting(steers: Seq<SubmissionView>, message: Seq<char>) -> Seq<
    SubmissionView,
> {
    if steer_with(steers, message) >= 0 {
        steers.remove(steer_with(steers, message))
    } else if steers.len() > 0 {
        steers.remove(0)
    } else {
        steers
    }
}

fn take_steer(steers: &mut Vec<Submission>, message: &String) -> (taken: Submission)
    ensures
        taken@ == acknowledged(session::submissions_view(old(steers)@), message@),
        session::submissions_view(final(steers)@) == still_waiting(
            session::submissions_view(old(steers)@),
            message@,
        ),
{
    let ghost waiting = session::submissions_view(steers@);
    let mut i: usize = 0;
    assert(waiting.skip(0) == waiting);
    while i < steers.len()
        invariant
            i <= steers@.len(),
            *steers == *old(steers),
            waiting == session::submissions_view(steers@),
            steer_with(waiting, message@) == (if steer_with(waiting.skip(i as int), message@) < 0 {
                -1
            } else {
                steer_with(waiting.skip(i as int), message@) + i
            }),
        decreases steers@.len() - i,
    {
        assert(waiting.skip(i as int)[0] == steers@[i as int]@);
        assert(waiting.skip(i as int).skip(1) == waiting.skip(i + 1));
        if text::same(steers[i].prompt.as_str(), message.as_str()) {
            let taken = steers.remove(i);
            assert(session::submissions_view(steers@) =~= waiting.remove(i as int));
            return taken;
        }
        i += 1;
    }
    if steers.is_empty() {
        Submission::plain(message.clone())
    } else {
        let taken = steers.remove(0);
        assert(session::submissions_view(steers@) =~= waiting.remove(0));
        taken
    }
}

// ── Previews ───────────────────────────────────────────────────────────────

/// Whether a preview shows this window.
pub open spec fn shows_window(preview: ComputerUsePreview, window_id: u32) -> bool {
    preview.target matches Some(target) && target.window_id == window_id
}

/// The first preview of this window, or -1.
pub open spec fn preview_of(previews: Seq<ComputerUsePreview>, window_id: u32) -> int
    decreases previews.len(),
{
    if previews.len() == 0 {
        -1
    } else if shows_window(previews[0], window_id) {
        0
    } else if preview_of(previews.skip(1), window_id) < 0 {
        -1
    } else {
        preview_of(previews.skip(1), window_id) + 1
    }
}

/// The previews after news about one: it moves to the front, which is the
/// end of the list, and keeps its last screenshot where the news bring none.
/// What is hidden, or shows no window, is not previewed.
pub open spec fn upserted(
    previews: Seq<ComputerUsePreview>,
    news: ComputerUsePreview,
) -> Seq<ComputerUsePreview> {
    match news.target {
        Some(target) => if news.visible {
            let at = preview_of(previews, target.window_id);
            if at >= 0 {
                previews.remove(at).push(
                    ComputerUsePreview {
                        screenshot: streaming::newer(news.screenshot, previews[at].screenshot),
                        ..news
                    },
                )
            } else {
                previews.push(news)
            }
        } else {
            previews
        },
        None => previews,
    }
}

/// The first preview of this window.
pub fn find_preview(previews: &Vec<ComputerUsePreview>, window_id: u32) -> (found: Option<usize>)
    ensures
        match found {
            Some(i) => i < previews@.len() && preview_of(previews@, window_id) == i,
            None => preview_of(previews@, window_id) < 0,
        },
{
    let mut i: usize = 0;
    assert(previews@.skip(0) == previews@);
    while i < previews.len()
        invariant
            i <= previews@.len(),
            preview_of(previews@, window_id) == (if preview_of(
                previews@.skip(i as int),
                window_id,
            ) < 0 {
                -1
            } else {
                preview_of(previews@.skip(i as int), window_id) + i
            }),
        decreases previews@.len() - i,
    {
        assert(previews@.skip(i as int)[0] == previews@[i as int]);
        assert(previews@.skip(i as int).skip(1) == previews@.skip(i + 1));
        if let Some(target) = &previews[i].target {
            if target.window_id == window_id {
                return Some(i);
            }
        }
        i += 1;
    }
    None
}

/// Take up news about what the agent does in an application.
pub fn upsert_computer_use_preview(previews: &mut Vec<ComputerUsePreview>, news: ComputerUsePreview)
    ensures
        final(previews)@ == upserted(old(previews)@, news),
{
    if !news.visible {
        return;
    }
    let window_id: u32 = match &news.target {
        Some(target) => target.window_id,
        None => {
            return;
        },
    };
    let mut preview = news;
    if let Some(i) = find_preview(previews, window_id) {
        let previous = previews.remove(i);
        if preview.screenshot.is_none() {
            preview.screenshot = previous.screenshot;
        }
    }
    previews.push(preview);
}

// ── Events of a session that exists ────────────────────────────────────────

/// An outcome after which the runtime stays attached.
pub open spec fn kept(
    session: SessionView,
    runtime: RuntimeView,
    effects: Seq<EffectView>,
) -> Outcome {
    Outcome { session, runtime, effects, keep: true }
}

/// The session once the provider is connected.
pub open spec fn connected_session(
    session: SessionView,
    cursor: Option<ProviderCursor>,
) -> SessionView {
    let marked = match cursor {
        Some(cursor) => match cursor.resume_at {
            Some(message) => session.resumable_at(message@),
            None => session,
        },
        None => session,
    };
    SessionView {
        provider_cursor: session::cursor_view(cursor),
        status: if session.status == SessionStatus::Connecting {
            SessionStatus::Working
        } else {
            session.status
        },
        ..marked
    }
}

/// The provider is connected: earlier errors are over.
pub open spec fn connected(
    ctx: EventContext,
    session: SessionView,
    runtime: RuntimeView,
    cursor: Option<ProviderCursor>,
) -> Outcome {
    kept(
        connected_session(session, cursor),
        RuntimeView {
            last_driver_error: None,
            last_background_refresh_at: ctx.now_ms,
            ..runtime
        },
        seq![EffectView::RefreshBackgroundWork],
    )
}

fn on_connected(
    ctx: &EventContext,
    session: &mut AgentSession,
    runtime: &mut SessionRuntime,
    cursor: Option<ProviderCursor>,
) -> (effects: Vec<Effect>)
    ensures
        kept(final(session)@, final(runtime)@, effects_view(effects@)) == connected(
            *ctx,
            old(session)@,
            old(runtime)@,
            cursor,
        ),
        final(runtime).wf() == old(runtime).wf(),
{
    let mut effects: Vec<Effect> = Vec::new();
    runtime.last_driver_error = None;
    runtime.last_background_refresh_at = ctx.now_ms;
    push(&mut effects, Effect::RefreshBackgroundWork);
    if let Some(cursor) = &cursor {
        if let Some(message) = &cursor.resume_at {
            session.mark_active_turn_provider_resume_at(message.clone());
        }
    }
    session.provider_cursor = cursor;
    if session.status == SessionStatus::Connecting {
        session.status = SessionStatus::Working;
    }
    assert(effects_view(effects@) =~= seq![EffectView::RefreshBackgroundWork]);
    effects
}

/// Whether this provider begins turns of its own accord.
pub open spec fn starts_turns(provider: ProviderKind) -> bool {
    provider == ProviderKind::Codex || provider == ProviderKind::Claude || provider
        == ProviderKind::OpenCode2
}

/// The provider started a turn: the one that waits for it, or one of its own
/// where it begins turns of its own accord.
pub open spec fn turn_started(
    ctx: EventContext,
    session: SessionView,
    runtime: RuntimeView,
) -> Outcome {
    let calm = RuntimeView { last_driver_error: None, ..runtime };
    if session.active_turn() is Some {
        kept(
            SessionView { status: SessionStatus::Working, ..session.provider_started() },
            calm,
            Seq::empty(),
        )
    } else if starts_turns(session.provider) {
        kept(
            SessionView {
                status: SessionStatus::Working,
                ..session.provider_turn_begun(ctx.fresh_turn, ctx.now).provider_started()
            },
            calm,
            seq![EffectView::MarkDirty],
        )
    } else {
        kept(session, calm, Seq::empty())
    }
}

fn on_turn_started(
    ctx: &EventContext,
    session: &mut AgentSession,
    runtime: &mut SessionRuntime,
) -> (effects: Vec<Effect>)
    ensures
        kept(final(session)@, final(runtime)@, effects_view(effects@)) == turn_started(
            *ctx,
            old(session)@,
            old(runtime)@,
        ),
        final(runtime).wf() == old(runtime).wf(),
{
    let mut effects: Vec<Effect> = Vec::new();
    assert(effects_view(effects@) =~= Seq::<EffectView>::empty());
    runtime.last_driver_error = None;
    if session.active_turn_id().is_some() {
        session.mark_active_turn_provider_started();
        session.status = SessionStatus::Working;
    } else if session.provider == ProviderKind::Codex || session.provider == ProviderKind::Claude
        || session.provider == ProviderKind::OpenCode2 {
        session.begin_provider_turn(ctx.fresh_turn, ctx.now);
        session.mark_active_turn_provider_started();
        session.status = SessionStatus::Working;
        push(&mut effects, Effect::MarkDirty);
        assert(effects_view(effects@) =~= seq![EffectView::MarkDirty]);
    }
    effects
}

/// The session while its turn waits for detached work.
pub open spec fn parked_session(session: SessionView, now: u64) -> SessionView {
    SessionView {
        status: SessionStatus::Background,
        updated_at: now,
        ..streaming::completed_blocks(streaming::finished_streaming(session))
    }
}

/// The reply ended while detached work still runs. The turn stays open; what
/// streams settles. A prompted turn announces the wait once.
pub open spec fn turn_parked(
    ctx: EventContext,
    entries: Seq<(Seq<char>, Seq<char>)>,
    expanded: Set<Id>,
    session: SessionView,
    runtime: RuntimeView,
) -> Outcome {
    if session.active_turn() is None {
        kept(session, runtime, Seq::empty())
    } else {
        let after = parked_session(session, ctx.now);
        let announce = !ctx.window_active && !runtime.park_announced && session.active_turn_has(
            MessageRole::User,
        );
        kept(
            after,
            RuntimeView { stream_phase: None, park_announced: true, ..runtime },
            seq![EffectView::SettleForegroundWork(BackgroundWorkStatus::Completed)]
                + splice_effects(ctx.selected, expanded, session, after) + when(
                announce,
                EffectView::Notify {
                    title: shown_title(entries, session),
                    body: i18n::plain(entries, "session.turn_waiting_background"@),
                },
            ),
        )
    }
}

fn on_turn_parked(
    ctx: &EventContext,
    catalog: &Catalog,
    expanded: &HashSet<Id>,
    session: &mut AgentSession,
    runtime: &mut SessionRuntime,
) -> (effects: Vec<Effect>)
    requires
        old(session).messages@.len() < usize::MAX,
    ensures
        kept(final(session)@, final(runtime)@, effects_view(effects@)) == turn_parked(
            *ctx,
            catalog@,
            expanded@,
            old(session)@,
            old(runtime)@,
        ),
        final(runtime).wf() == old(runtime).wf(),
{
    let mut effects: Vec<Effect> = Vec::new();
    assert(effects_view(effects@) =~= Seq::<EffectView>::empty());
    if session.active_turn_id().is_none() {
        return effects;
    }
    let ghost before = session@;
    push(&mut effects, Effect::SettleForegroundWork(BackgroundWorkStatus::Completed));
    let previous = rows_if_selected(ctx.selected, session, expanded);
    let announce: bool = !ctx.window_active && !runtime.park_announced && session.active_turn_has(
        MessageRole::User,
    );
    let title = title_of(catalog, session);
    streaming::finish_streaming_assistant(session);
    streaming::complete_turn_blocks(session);
    runtime.stream_phase = None;
    runtime.park_announced = true;
    session.status = SessionStatus::Background;
    session.updated_at = ctx.now;
    assert(session@ == parked_session(before, ctx.now));
    push_splice(&mut effects, &previous, session, expanded, Ghost(before));
    if announce {
        let body = catalog.text("session.turn_waiting_background");
        push(&mut effects, Effect::Notify { title, body });
    }
    assert(effects_view(effects@) =~= turn_parked(
        *ctx,
        catalog@,
        expanded@,
        before,
        old(runtime)@,
    ).effects);
    effects
}

/// Whether output is taken up: not while a prompt is being prepared, for then
/// it can only be left over from a settled turn.
pub open spec fn accepts(ctx: EventContext, session: SessionView) -> bool {
    !ctx.preparing && streaming::takes_output(session)
}

fn accepts_turn_output(ctx: &EventContext, session: &mut AgentSession) -> (accepted: bool)
    ensures
        accepted == accepts(*ctx, old(session)@),
        final(session)@ == (if accepted {
            streaming::output_accepted(old(session)@)
        } else {
            old(session)@
        }),
        final(session).messages@.len() == old(session).messages@.len(),
{
    if ctx.preparing {
        return false;
    }
    streaming::session_accepts_turn_output(session)
}

/// Text arrived.
pub open spec fn text_arrived(
    ctx: EventContext,
    session: SessionView,
    runtime: RuntimeView,
    delta: Seq<char>,
) -> Outcome {
    if !accepts(ctx, session) {
        kept(session, runtime, Seq::empty())
    } else {
        let accepted = streaming::output_accepted(session);
        let ready = if runtime.stream_phase == Some(StreamPhase::Reasoning) {
            streaming::reasoning_completed(accepted, ctx.now)
        } else {
            accepted
        };
        kept(
            streaming::text_appended(
                ready,
                runtime.stream_phase == Some(StreamPhase::Text),
                delta,
                ctx.fresh_id,
                ctx.now,
            ),
            RuntimeView { stream_phase: Some(StreamPhase::Text), ..runtime },
            seq![EffectView::MarkDirty],
        )
    }
}

fn on_text(
    ctx: &EventContext,
    session: &mut AgentSession,
    runtime: &mut SessionRuntime,
    delta: String,
) -> (effects: Vec<Effect>)
    ensures
        kept(final(session)@, final(runtime)@, effects_view(effects@)) == text_arrived(
            *ctx,
            old(session)@,
            old(runtime)@,
            delta@,
        ),
        final(runtime).wf() == old(runtime).wf(),
{
    let mut effects: Vec<Effect> = Vec::new();
    assert(effects_view(effects@) =~= Seq::<EffectView>::empty());
    if !accepts_turn_output(ctx, session) {
        return effects;
    }
    let phase = runtime.stream_phase;
    if phase == Some(StreamPhase::Reasoning) {
        streaming::complete_reasoning_activity(session, ctx.now);
    }
    streaming::append_text(
        session,
        phase == Some(StreamPhase::Text),
        delta,
        ctx.fresh_id,
        ctx.now,
    );
    push(&mut effects, Effect::MarkDirty);
    runtime.stream_phase = Some(StreamPhase::Text);
    assert(effects_view(effects@) =~= seq![EffectView::MarkDirty]);
    effects
}

/// A piece of thought arrived.
pub open spec fn reasoning_arrived(
    ctx: EventContext,
    session: SessionView,
    runtime: RuntimeView,
    delta: Seq<char>,
) -> Outcome {
    if !accepts(ctx, session) {
        kept(session, runtime, Seq::empty())
    } else {
        kept(
            streaming::reasoning_appended(
                streaming::output_accepted(session),
                runtime.stream_phase,
                delta,
                ctx.fresh_id,
                ctx.reasoning_title@,
                ctx.now,
                ctx.now_ms,
            ),
            RuntimeView {
                stream_phase: streaming::phase_after_reasoning(runtime.stream_phase, delta),
                ..runtime
            },
            Seq::empty(),
        )
    }
}

fn on_reasoning(
    ctx: &EventContext,
    session: &mut AgentSession,
    runtime: &mut SessionRuntime,
    delta: String,
) -> (effects: Vec<Effect>)
    ensures
        kept(final(session)@, final(runtime)@, effects_view(effects@)) == reasoning_arrived(
            *ctx,
            old(session)@,
            old(runtime)@,
            delta@,
        ),
        final(runtime).wf() == old(runtime).wf(),
{
    let effects: Vec<Effect> = Vec::new();
    assert(effects_view(effects@) =~= Seq::<EffectView>::empty());
    if !accepts_turn_output(ctx, session) {
        return effects;
    }
    runtime.stream_phase =
    streaming::append_reasoning_delta(
        session,
        runtime.stream_phase,
        delta,
        ctx.fresh_id,
        ctx.reasoning_title.clone(),
        ctx.now,
        ctx.now_ms,
    );
    effects
}

/// A step was reported. A completed edit or command has the branch read
/// again.
pub open spec fn activity_reported(
    ctx: EventContext,
    session: SessionView,
    runtime: RuntimeView,
    item: ActivityView,
) -> Outcome {
    if !accepts(ctx, session) {
        kept(session, runtime, Seq::empty())
    } else {
        let accepted = streaming::output_accepted(session);
        let stale = streaming::stale_diff(accepted, runtime.stream_phase, item, ctx.now);
        kept(
            streaming::activity_updated(accepted, runtime.stream_phase, item, ctx.now),
            RuntimeView { stream_phase: Some(StreamPhase::Activity), ..runtime },
            seq![EffectView::ObserveActivity(item)] + (match stale {
                Some(id) => seq![EffectView::DropActivityDiff(id)],
                None => Seq::empty(),
            }) + when(
                ctx.selected && item.complete && (item.kind == ActivityKind::Command || item.kind
                    == ActivityKind::FileChange),
                EffectView::RefreshBranch,
            ),
        )
    }
}

fn on_activity(
    ctx: &EventContext,
    session: &mut AgentSession,
    runtime: &mut SessionRuntime,
    item: ActivityItem,
) -> (effects: Vec<Effect>)
    ensures
        kept(final(session)@, final(runtime)@, effects_view(effects@)) == activity_reported(
            *ctx,
            old(session)@,
            old(runtime)@,
            item@,
        ),
        final(runtime).wf() == old(runtime).wf(),
{
    let mut effects: Vec<Effect> = Vec::new();
    assert(effects_view(effects@) =~= Seq::<EffectView>::empty());
    if !accepts_turn_output(ctx, session) {
        return effects;
    }
    let ghost report = item@;
    let refresh: bool = ctx.selected && streaming::should_refresh_branch_after_activity(
        item.kind,
        item.complete,
    );
    push(&mut effects, Effect::ObserveActivity(copy_activity(&item)));
    let stale = streaming::update_activity(session, runtime.stream_phase, item, ctx.now);
    runtime.stream_phase = Some(StreamPhase::Activity);
    if let Some(id) = stale {
        push(&mut effects, Effect::DropActivityDiff(id));
    }
    push_if(&mut effects, refresh, Effect::RefreshBranch);
    assert(effects_view(effects@) =~= activity_reported(
        *ctx,
        old(session)@,
        old(runtime)@,
        report,
    ).effects);
    effects
}

/// The agent asks for a permission.
pub open spec fn permission_asked(
    ctx: EventContext,
    session: SessionView,
    runtime: RuntimeView,
    permission: PendingPermission,
) -> Outcome {
    if !accepts(ctx, session) {
        kept(session, runtime, Seq::empty())
    } else {
        kept(
            SessionView {
                status: SessionStatus::Waiting,
                ..streaming::output_accepted(session)
            },
            RuntimeView { pending_permission: Some(permission), ..runtime },
            Seq::empty(),
        )
    }
}

fn on_permission(
    ctx: &EventContext,
    session: &mut AgentSession,
    runtime: &mut SessionRuntime,
    permission: PendingPermission,
) -> (effects: Vec<Effect>)
    ensures
        kept(final(session)@, final(runtime)@, effects_view(effects@)) == permission_asked(
            *ctx,
            old(session)@,
            old(runtime)@,
            permission,
        ),
        final(runtime).wf() == old(runtime).wf(),
{
    let effects: Vec<Effect> = Vec::new();
    assert(effects_view(effects@) =~= Seq::<EffectView>::empty());
    if !accepts_turn_output(ctx, session) {
        return effects;
    }
    runtime.pending_permission = Some(permission);
    session.status = SessionStatus::Waiting;
    effects
}

/// The agent asks the user questions. A round without questions is none.
pub open spec fn questions_asked(
    ctx: EventContext,
    session: SessionView,
    runtime: RuntimeView,
    request_id: Seq<char>,
    questions: Seq<UserInputQuestion>,
) -> Outcome {
    if !accepts(ctx, session) {
        kept(session, runtime, Seq::empty())
    } else if questions.len() == 0 {
        kept(streaming::output_accepted(session), runtime, Seq::empty())
    } else {
        kept(
            SessionView {
                status: SessionStatus::Waiting,
                ..streaming::output_accepted(session)
            },
            RuntimeView {
                pending_user_input: Some(UserInputView::asked(request_id, questions)),
                ..runtime
            },
            when(ctx.selected, EffectView::ClearAnswerField),
        )
    }
}

fn on_questions(
    ctx: &EventContext,
    session: &mut AgentSession,
    runtime: &mut SessionRuntime,
    request_id: String,
    questions: Vec<UserInputQuestion>,
) -> (effects: Vec<Effect>)
    requires
        old(runtime).wf(),
    ensures
        kept(final(session)@, final(runtime)@, effects_view(effects@)) == questions_asked(
            *ctx,
            old(session)@,
            old(runtime)@,
            request_id@,
            questions@,
        ),
        final(runtime).wf(),
{
    let mut effects: Vec<Effect> = Vec::new();
    assert(effects_view(effects@) =~= Seq::<EffectView>::empty());
    if !accepts_turn_output(ctx, session) || questions.is_empty() {
        return effects;
    }
    runtime.pending_user_input = Some(PendingUserInput::new(request_id, questions));
    push_if(&mut effects, ctx.selected, Effect::ClearAnswerField);
    session.status = SessionStatus::Waiting;
    assert(effects_view(effects@) =~= when(ctx.selected, EffectView::ClearAnswerField));
    effects
}

/// The agent did something in another application.
pub open spec fn computer_used(
    ctx: EventContext,
    session: SessionView,
    runtime: RuntimeView,
    news: ComputerUsePreview,
) -> Outcome {
    if !accepts(ctx, session) {
        kept(session, runtime, Seq::empty())
    } else {
        kept(
            streaming::output_accepted(session),
            RuntimeView { previews: upserted(runtime.previews, news), ..runtime },
            Seq::empty(),
        )
    }
}

fn on_computer_use(
    ctx: &EventContext,
    session: &mut AgentSession,
    runtime: &mut SessionRuntime,
    news: ComputerUsePreview,
) -> (effects: Vec<Effect>)
    ensures
        kept(final(session)@, final(runtime)@, effects_view(effects@)) == computer_used(
            *ctx,
            old(session)@,
            old(runtime)@,
            news,
        ),
        final(runtime).wf() == old(runtime).wf(),
{
    let effects: Vec<Effect> = Vec::new();
    assert(effects_view(effects@) =~= Seq::<EffectView>::empty());
    if !accepts_turn_output(ctx, session) {
        return effects;
    }
    upsert_computer_use_preview(&mut runtime.computer_use_previews, news);
    effects
}

/// The provider took a message into the running turn: it joins the turn, with
/// what the composer kept of its presentation.
pub open spec fn steer_accepted(
    ctx: EventContext,
    session: SessionView,
    runtime: RuntimeView,
    message: Seq<char>,
) -> Outcome {
    let submission = acknowledged(runtime.pending_steers, message);
    kept(
        SessionView {
            updated_at: ctx.now,
            ..session.with_message(
                MessageView {
                    display_content: submission.display_content,
                    attachments: submission.attachments,
                    ..MessageView::plain(
                        ctx.fresh_id,
                        MessageRole::User,
                        message,
                        session.active_turn(),
                        ctx.now,
                    )
                },
            )
        },
        RuntimeView {
            pending_steers: still_waiting(runtime.pending_steers, message),
            ..runtime
        },
        Seq::empty(),
    )
}

fn on_steer_accepted(
    ctx: &EventContext,
    session: &mut AgentSession,
    runtime: &mut SessionRuntime,
    message: String,
) -> (effects: Vec<Effect>)
    ensures
        kept(final(session)@, final(runtime)@, effects_view(effects@)) == steer_accepted(
            *ctx,
            old(session)@,
            old(runtime)@,
            message@,
        ),
        final(runtime).wf() == old(runtime).wf(),
{
    let effects: Vec<Effect> = Vec::new();
    assert(effects_view(effects@) =~= Seq::<EffectView>::empty());
    let submission = take_steer(&mut runtime.pending_steers, &message);
    session.push_user_message_with_presentation(
        ctx.fresh_id,
        message,
        submission.display_content,
        submission.attachments,
        ctx.now,
    );
    session.updated_at = ctx.now;
    effects
}

/// The provider refused a message sent into the running turn. While the
/// session is busy it is queued and the refusal shown; where the turn has
/// settled well it runs next; else it waits for the user.
pub open spec fn steer_rejected(
    ctx: EventContext,
    entries: Seq<(Seq<char>, Seq<char>)>,
    session: SessionView,
    runtime: RuntimeView,
    message: Seq<char>,
    reason: Seq<char>,
) -> Outcome {
    let submission = acknowledged(runtime.pending_steers, message);
    let after = RuntimeView {
        pending_steers: still_waiting(runtime.pending_steers, message),
        ..runtime
    };
    if session.status.busy() {
        kept(
            session,
            after,
            seq![EffectView::EnqueueFollowUp(submission)] + when(
                ctx.selected,
                EffectView::ShowToast(
                    i18n::localized(
                        entries,
                        "session.steer_rejected"@,
                        seq![i18n::argument("error"@, streaming::compact_error(reason))],
                    ),
                ),
            ),
        )
    } else if session.turns.len() > 0 && session.turns.last().status == TurnStatus::Completed {
        kept(
            SessionView {
                queued_messages: seq![submission] + session.queued_messages,
                ..session
            },
            after,
            when(ctx.allow_queue_drain, EffectView::DrainQueue),
        )
    } else {
        kept(session, after, seq![EffectView::EnqueueFollowUp(submission)])
    }
}

fn on_steer_rejected(
    ctx: &EventContext,
    catalog: &Catalog,
    session: &mut AgentSession,
    runtime: &mut SessionRuntime,
    message: String,
    reason: String,
) -> (effects: Vec<Effect>)
    ensures
        kept(final(session)@, final(runtime)@, effects_view(effects@)) == steer_rejected(
            *ctx,
            catalog@,
            old(session)@,
            old(runtime)@,
            message@,
            reason@,
        ),
        final(runtime).wf() == old(runtime).wf(),
{
    let mut effects: Vec<Effect> = Vec::new();
    assert(effects_view(effects@) =~= Seq::<EffectView>::empty());
    let submission = take_steer(&mut runtime.pending_steers, &message);
    let ghost taken = submission@;
    let count: usize = session.turns.len();
    assert(count > 0 ==> session@.turns.last() == session.turns@[count - 1]@);
    if session.status.is_busy() {
        push(&mut effects, Effect::EnqueueFollowUp(submission));
        if ctx.selected {
            let error = streaming::compact_driver_error(reason.as_str());
            let toast = catalog.text_with("session.steer_rejected", "error", error.as_str());
            push(&mut effects, Effect::ShowToast(toast));
        }
    } else if count > 0 && session.turns[count - 1].status == TurnStatus::Completed {
        let ghost queued = session@.queued_messages;
        session.queued_messages.insert(0, submission);
        assert(session@.queued_messages =~= seq![taken] + queued);
        push_if(&mut effects, ctx.allow_queue_drain, Effect::DrainQueue);
    } else {
        push(&mut effects, Effect::EnqueueFollowUp(submission));
    }
    assert(effects_view(effects@) =~= steer_rejected(
        *ctx,
        catalog@,
        old(session)@,
        old(runtime)@,
        message@,
        reason@,
    ).effects);
    effects
}

/// The provider's goal changed. A session that starts with a goal is named
/// after it.
pub open spec fn goal_updated(
    session: SessionView,
    runtime: RuntimeView,
    goal: Option<ThreadGoalView>,
) -> Outcome {
    kept(
        SessionView { thread_goal: goal, ..session },
        runtime,
        seq![EffectView::GoalObserved(goal is Some)] + (match goal {
            Some(goal) => when(
                session.messages.len() == 0,
                EffectView::SetTitleFromPrompt(goal.objective),
            ),
            None => Seq::empty(),
        }) + when(session.thread_goal != goal, EffectView::MarkDirty),
    )
}

fn on_goal(
    session: &mut AgentSession,
    runtime: &mut SessionRuntime,
    goal: Option<ThreadGoal>,
) -> (effects: Vec<Effect>)
    ensures
        kept(final(session)@, final(runtime)@, effects_view(effects@)) == goal_updated(
            old(session)@,
            old(runtime)@,
            session::goal_view(goal),
        ),
        *final(runtime) == *old(runtime),
{
    let mut effects: Vec<Effect> = Vec::new();
    assert(effects_view(effects@) =~= Seq::<EffectView>::empty());
    let ghost new_goal = session::goal_view(goal);
    push(&mut effects, Effect::GoalObserved(goal.is_some()));
    if let Some(goal) = &goal {
        if session.messages.is_empty() {
            push(&mut effects, Effect::SetTitleFromPrompt(goal.objective.clone()));
        }
    }
    if !same_goal(&session.thread_goal, &goal) {
        session.thread_goal = goal;
        push(&mut effects, Effect::MarkDirty);
    }
    assert(effects_view(effects@) =~= goal_updated(
        old(session)@,
        old(runtime)@,
        new_goal,
    ).effects);
    effects
}

/// The conversation fills more or less of the context window.
pub open spec fn usage_updated(
    session: SessionView,
    runtime: RuntimeView,
    tokens: Option<u64>,
    window: Option<u64>,
) -> Outcome {
    let before = match session.context_usage {
        Some(usage) => usage,
        None => ContextUsage { tokens: 0, window: None },
    };
    kept(
        SessionView {
            context_usage: Some(
                ContextUsage {
                    tokens: match tokens {
                        Some(tokens) => tokens,
                        None => before.tokens,
                    },
                    window: streaming::newer(window, before.window),
                },
            ),
            ..session
        },
        runtime,
        seq![EffectView::MarkDirty],
    )
}

fn on_usage(
    session: &mut AgentSession,
    runtime: &mut SessionRuntime,
    tokens: Option<u64>,
    window: Option<u64>,
) -> (effects: Vec<Effect>)
    ensures
        kept(final(session)@, final(runtime)@, effects_view(effects@)) == usage_updated(
            old(session)@,
            old(runtime)@,
            tokens,
            window,
        ),
        *final(runtime) == *old(runtime),
{
    let mut effects: Vec<Effect> = Vec::new();
    assert(effects_view(effects@) =~= Seq::<EffectView>::empty());
    let mut usage: ContextUsage = match session.context_usage {
        Some(usage) => usage,
        None => ContextUsage { tokens: 0, window: None },
    };
    if let Some(tokens) = tokens {
        usage.tokens = tokens;
    }
    if let Some(window) = window {
        usage.window = Some(window);
    }
    session.context_usage = Some(usage);
    push(&mut effects, Effect::MarkDirty);
    assert(effects_view(effects@) =~= seq![EffectView::MarkDirty]);
    effects
}

/// What the turn's closing message says where the assistant said nothing.
pub open spec fn closing_text(
    entries: Seq<(Seq<char>, Seq<char>)>,
    success: bool,
    summary: Option<Seq<char>>,
) -> Seq<char> {
    match summary {
        Some(summary) => summary,
        None => i18n::plain(
            entries,
            if success {
                "session.turn_completed"@
            } else {
                "session.stopped_before_response"@
            },
        ),
    }
}

/// The session after its turn ended: what streams settles, a turn without an
/// answer gets a closing message, and the turn is closed.
pub open spec fn finished_session(
    ctx: EventContext,
    entries: Seq<(Seq<char>, Seq<char>)>,
    session: SessionView,
    success: bool,
    summary: Option<Seq<char>>,
) -> SessionView {
    let settled = SessionView {
        status: if success {
            SessionStatus::Idle
        } else {
            SessionStatus::Failed
        },
        ..streaming::completed_blocks(streaming::finished_streaming(session))
    };
    let answered = if session.active_turn_has(MessageRole::Assistant) {
        settled
    } else {
        settled.with_message(
            MessageView::plain(
                ctx.fresh_id,
                MessageRole::Assistant,
                closing_text(entries, success, summary),
                session.active_turn(),
                ctx.now,
            ),
        )
    };
    answered.turn_finished(
        if success {
            TurnStatus::Completed
        } else {
            TurnStatus::Failed
        },
        ctx.now,
    )
}

/// The provider ended the turn.
pub open spec fn turn_ended(
    ctx: EventContext,
    entries: Seq<(Seq<char>, Seq<char>)>,
    expanded: Set<Id>,
    session: SessionView,
    runtime: RuntimeView,
    success: bool,
    summary: Option<Seq<char>>,
) -> Outcome {
    let calm = RuntimeView { last_driver_error: None, ..runtime };
    let first = seq![
        EffectView::SettleForegroundWork(
            if success {
                BackgroundWorkStatus::Completed
            } else {
                BackgroundWorkStatus::Failed
            },
        ),
    ] + when(ctx.meters_plan_usage, EffectView::PlanUsageStale(session.provider));
    if session.active_turn() is None {
        kept(session, calm, first)
    } else {
        let after = finished_session(ctx, entries, session, success, summary);
        kept(
            after,
            RuntimeView { park_announced: false, ..calm.settled() },
            first + seq![
                EffectView::TrackTurn(
                    if success {
                        TurnOutcome::Completed
                    } else {
                        TurnOutcome::Failed
                    },
                ),
            ] + seq![EffectView::CancelComputerUse] + when(
                ctx.selected,
                EffectView::WorkspaceQueriesStale,
            ) + seq![EffectView::RefreshBackgroundWork] + seq![EffectView::CaptureCheckpoint]
                + when(success, EffectView::ExtractMemory) + when(
                ctx.allow_queue_drain && success,
                EffectView::DrainQueue,
            ) + splice_effects(ctx.selected, expanded, session, after) + when(
                !ctx.window_active,
                EffectView::Notify {
                    title: shown_title(entries, session),
                    body: i18n::plain(
                        entries,
                        if success {
                            "session.turn_completed"@
                        } else {
                            "session.stopped"@
                        },
                    ),
                },
            ),
        )
    }
}

pub(crate) fn clear_waiting(runtime: &mut SessionRuntime)
    ensures
        final(runtime)@ == old(runtime)@.settled(),
        final(runtime).wf(),
{
    runtime.stream_phase = None;
    runtime.pending_permission = None;
    runtime.pending_user_input = None;
    runtime.pending_computer_approval = None;
    runtime.computer_use_previews.clear();
    assert(runtime@ =~= old(runtime)@.settled());
}

pub(crate) proof fn lemma_settling_keeps_turn(session: SessionView)
    ensures
        streaming::completed_blocks(streaming::finished_streaming(session)).active_turn()
            == session.active_turn(),
        streaming::completed_blocks(streaming::finished_streaming(session)).active_turn_has(
            MessageRole::Assistant,
        ) == session.active_turn_has(MessageRole::Assistant),
{
    let after = streaming::completed_blocks(streaming::finished_streaming(session));
    if session.active_turn_has(MessageRole::Assistant) {
        let i = choose|i: int|
            0 <= i < session.messages.len() && (#[trigger] session.messages[i]).role
                == MessageRole::Assistant && session.messages[i].turn_id == session.active_turn();
        assert(after.messages[i].role == MessageRole::Assistant);
    }
    if after.active_turn_has(MessageRole::Assistant) {
        let i = choose|i: int|
            0 <= i < after.messages.len() && (#[trigger] after.messages[i]).role
                == MessageRole::Assistant && after.messages[i].turn_id == after.active_turn();
        assert(session.messages[i].role == MessageRole::Assistant);
    }
}

fn finish_session(
    ctx: &EventContext,
    catalog: &Catalog,
    session: &mut AgentSession,
    success: bool,
    summary: Option<String>,
)
    requires
        old(session).messages@.len() < usize::MAX - 1,
    ensures
        final(session)@ == finished_session(
            *ctx,
            catalog@,
            old(session)@,
            success,
            text::text_view(summary),
        ),
        final(session).messages@.len() < usize::MAX,
{
    let ghost before = session@;
    streaming::finish_streaming_assistant(session);
    streaming::complete_turn_blocks(session);
    proof {
        lemma_settling_keeps_turn(before);
    }
    let needs_fallback: bool = !session.active_turn_has(MessageRole::Assistant);
    session.status = if success {
        SessionStatus::Idle
    } else {
        SessionStatus::Failed
    };
    if needs_fallback {
        let closing: String = match summary {
            Some(summary) => summary,
            None => if success {
                catalog.text("session.turn_completed")
            } else {
                catalog.text("session.stopped_before_response")
            },
        };
        session.push_message(ctx.fresh_id, MessageRole::Assistant, closing, ctx.now);
    }
    assert(session@.messages.len() < usize::MAX);
    session.finish_active_turn(
        if success {
            TurnStatus::Completed
        } else {
            TurnStatus::Failed
        },
        ctx.now,
    );
    assert(session@.messages.len() < usize::MAX);
}

fn on_turn_finished(
    ctx: &EventContext,
    catalog: &Catalog,
    expanded: &HashSet<Id>,
    session: &mut AgentSession,
    runtime: &mut SessionRuntime,
    success: bool,
    summary: Option<String>,
) -> (effects: Vec<Effect>)
    requires
        old(session).messages@.len() < usize::MAX - 1,
        old(runtime).wf(),
    ensures
        kept(final(session)@, final(runtime)@, effects_view(effects@)) == turn_ended(
            *ctx,
            catalog@,
            expanded@,
            old(session)@,
            old(runtime)@,
            success,
            text::text_view(summary),
        ),
        final(runtime).wf(),
{
    let ghost before = session@;
    let ghost closing = text::text_view(summary);
    let mut effects: Vec<Effect> = Vec::new();
    assert(effects_view(effects@) =~= Seq::<EffectView>::empty());
    push(
        &mut effects,
        Effect::SettleForegroundWork(
            if success {
                BackgroundWorkStatus::Completed
            } else {
                BackgroundWorkStatus::Failed
            },
        ),
    );
    let ghost settle = EffectView::SettleForegroundWork(
        if success {
            BackgroundWorkStatus::Completed
        } else {
            BackgroundWorkStatus::Failed
        },
    );
    assert(Seq::<EffectView>::empty() + seq![settle] =~= seq![settle]);
    let previous = rows_if_selected(ctx.selected, session, expanded);
    runtime.last_driver_error = None;
    push_if(&mut effects, ctx.meters_plan_usage, Effect::PlanUsageStale(session.provider));
    if session.active_turn_id().is_none() {
        return effects;
    }
    let title = title_of(catalog, session);
    finish_session(ctx, catalog, session, success, summary);
    clear_waiting(runtime);
    runtime.park_announced = false;
    push(
        &mut effects,
        Effect::TrackTurn(
            if success {
                TurnOutcome::Completed
            } else {
                TurnOutcome::Failed
            },
        ),
    );
    push(&mut effects, Effect::CancelComputerUse);
    push_if(&mut effects, ctx.selected, Effect::WorkspaceQueriesStale);
    push(&mut effects, Effect::RefreshBackgroundWork);
    push(&mut effects, Effect::CaptureCheckpoint);
    push_if(&mut effects, success, Effect::ExtractMemory);
    push_if(&mut effects, ctx.allow_queue_drain && success, Effect::DrainQueue);
    push_splice(&mut effects, &previous, session, expanded, Ghost(before));
    if !ctx.window_active {
        let body = if success {
            catalog.text("session.turn_completed")
        } else {
            catalog.text("session.stopped")
        };
        push(&mut effects, Effect::Notify { title, body });
    } else {
        let ghost listed = effects_view(effects@);
        assert(listed + Seq::<EffectView>::empty() =~= listed);
    }
    assert(effects_view(effects@) == turn_ended(
        *ctx,
        catalog@,
        expanded@,
        before,
        old(runtime)@,
        success,
        closing,
    ).effects);
    effects
}

/// The session in which an error is taken up: a turn for a goal that the
/// provider has not confirmed is taken back, since it has no message that
/// could fail.
pub open spec fn before_error(ctx: EventContext, session: SessionView) -> SessionView {
    if ctx.pursuit {
        session.unwound()
    } else {
        session
    }
}

/// The driver reported an error. It is shown; a turn for a goal that was not
/// confirmed is taken back; any other turn that has not begun to work fails
/// with the error, and says so where the assistant said nothing.
pub open spec fn driver_failed(
    ctx: EventContext,
    before: SessionView,
    runtime: RuntimeView,
    error: Seq<char>,
) -> Outcome {
    let shown = streaming::compact_error(error);
    let session = before_error(ctx, before);
    let failed = if session.active_turn() is Some && session.status != SessionStatus::Working {
        let failing = SessionView { status: SessionStatus::Failed, ..session };
        if session.active_turn_has(MessageRole::Assistant) {
            failing
        } else {
            failing.with_message(
                MessageView::plain(
                    ctx.fresh_id,
                    MessageRole::Assistant,
                    shown,
                    session.active_turn(),
                    ctx.now,
                ),
            )
        }
    } else {
        session
    };
    kept(
        failed,
        RuntimeView { last_driver_error: Some(shown), ..runtime },
        when(ctx.selected, EffectView::ShowToast(shown)),
    )
}

fn on_error(
    ctx: &EventContext,
    session: &mut AgentSession,
    runtime: &mut SessionRuntime,
    error: String,
) -> (effects: Vec<Effect>)
    ensures
        kept(final(session)@, final(runtime)@, effects_view(effects@)) == driver_failed(
            *ctx,
            old(session)@,
            old(runtime)@,
            error@,
        ),
        final(runtime).wf() == old(runtime).wf(),
{
    let mut effects: Vec<Effect> = Vec::new();
    assert(effects_view(effects@) =~= Seq::<EffectView>::empty());
    let shown = streaming::compact_driver_error(error.as_str());
    runtime.last_driver_error = Some(shown.clone());
    push_if(&mut effects, ctx.selected, Effect::ShowToast(shown.clone()));
    if ctx.pursuit {
        session.unwind_unconfirmed_turn();
    }
    if session.active_turn_id().is_some() && session.status != SessionStatus::Working {
        let silent: bool = !session.active_turn_has(MessageRole::Assistant);
        session.status = SessionStatus::Failed;
        if silent {
            session.push_message(ctx.fresh_id, MessageRole::Assistant, shown, ctx.now);
        }
    }
    assert(effects_view(effects@) =~= when(
        ctx.selected,
        EffectView::ShowToast(streaming::compact_error(error@)),
    ));
    effects
}

/// The session after its provider's process ended: a busy one fails, with the
/// last error where the assistant said nothing.
pub open spec fn abandoned_session(
    ctx: EventContext,
    entries: Seq<(Seq<char>, Seq<char>)>,
    session: SessionView,
    last_error: Option<Seq<char>>,
) -> SessionView {
    let settled = streaming::completed_blocks(streaming::finished_streaming(session));
    if !session.status.busy() {
        settled
    } else {
        let failing = SessionView {
            status: SessionStatus::Failed,
            updated_at: ctx.now,
            ..settled
        };
        let answered = if session.active_turn_has(MessageRole::Assistant) {
            failing
        } else {
            failing.with_message(
                MessageView::plain(
                    ctx.fresh_id,
                    MessageRole::Assistant,
                    match last_error {
                        Some(error) => error,
                        None => i18n::plain(entries, "session.codex_exited_before_response"@),
                    },
                    session.active_turn(),
                    ctx.now,
                ),
            )
        };
        answered.turn_finished(TurnStatus::Failed, ctx.now)
    }
}

/// The provider's process ended: the runtime is let go.
pub open spec fn process_exited(
    ctx: EventContext,
    entries: Seq<(Seq<char>, Seq<char>)>,
    expanded: Set<Id>,
    session: SessionView,
    runtime: RuntimeView,
) -> Outcome {
    let after = abandoned_session(ctx, entries, session, runtime.last_driver_error);
    let ended = session.status.busy() && session.active_turn() is Some;
    Outcome {
        session: after,
        runtime: RuntimeView { last_driver_error: None, ..runtime.settled() },
        effects: seq![EffectView::MarkBackgroundWorkLost, EffectView::CancelComputerUse] + when(
            ended,
            EffectView::TrackTurn(TurnOutcome::ProcessExited),
        ) + when(ended, EffectView::CaptureCheckpoint) + splice_effects(
            ctx.selected,
            expanded,
            session,
            after,
        ),
        keep: false,
    }
}

fn on_process_exited(
    ctx: &EventContext,
    catalog: &Catalog,
    expanded: &HashSet<Id>,
    session: &mut AgentSession,
    runtime: &mut SessionRuntime,
) -> (effects: Vec<Effect>)
    requires
        old(session).messages@.len() < usize::MAX - 1,
    ensures
        (Outcome {
            session: final(session)@,
            runtime: final(runtime)@,
            effects: effects_view(effects@),
            keep: false,
        }) == process_exited(*ctx, catalog@, expanded@, old(session)@, old(runtime)@),
        final(runtime).wf(),
{
    let ghost before = session@;
    let mut effects: Vec<Effect> = Vec::new();
    assert(effects_view(effects@) =~= Seq::<EffectView>::empty());
    push(&mut effects, Effect::MarkBackgroundWorkLost);
    let previous = rows_if_selected(ctx.selected, session, expanded);
    streaming::finish_streaming_assistant(session);
    streaming::complete_turn_blocks(session);
    proof {
        lemma_settling_keeps_turn(before);
    }
    let failure: Option<String> = runtime.last_driver_error.take();
    clear_waiting(runtime);
    push(&mut effects, Effect::CancelComputerUse);
    let mut ended: bool = false;
    if session.status.is_busy() {
        let silent: bool = !session.active_turn_has(MessageRole::Assistant);
        session.status = SessionStatus::Failed;
        session.updated_at = ctx.now;
        if silent {
            let message: String = match failure {
                Some(error) => error,
                None => catalog.text("session.codex_exited_before_response"),
            };
            session.push_message(ctx.fresh_id, MessageRole::Assistant, message, ctx.now);
        }
        assert(session@.messages.len() < usize::MAX);
        ended = session.finish_active_turn(TurnStatus::Failed, ctx.now);
        assert(session@.messages.len() < usize::MAX);
    }
    push_if(&mut effects, ended, Effect::TrackTurn(TurnOutcome::ProcessExited));
    push_if(&mut effects, ended, Effect::CaptureCheckpoint);
    push_splice(&mut effects, &previous, session, expanded, Ghost(before));
    assert(effects_view(effects@) =~= process_exited(
        *ctx,
        catalog@,
        expanded@,
        before,
        old(runtime)@,
    ).effects);
    assert(runtime@ =~= (RuntimeView { last_driver_error: None, ..old(runtime)@.settled() }));
    effects
}

// ── Every event ────────────────────────────────────────────────────────────

/// The step that a plain report describes.
pub open spec fn reported_step(
    ctx: EventContext,
    id: Option<String>,
    kind: ActivityKind,
    title: String,
    title_is_generic: bool,
    title_names_search: bool,
    detail: Option<String>,
    complete: bool,
) -> ActivityView {
    ActivityView::plain(
        ctx.fresh_id,
        text::text_view(id),
        kind,
        title@,
        title_is_generic,
        title_names_search,
        text::text_view(detail),
        complete,
    )
}

/// What an event does to a session that exists.
pub open spec fn event_outcome(
    ctx: EventContext,
    entries: Seq<(Seq<char>, Seq<char>)>,
    expanded: Set<Id>,
    session: SessionView,
    idle: RuntimeView,
    event: DriverEvent,
) -> Outcome {
    let runtime = RuntimeView { last_active_at: ctx.now_ms, ..idle };
    match event {
        DriverEvent::RuntimeEventCursorAdvanced(cursor) => kept(
            SessionView { runtime_event_cursor: Some(cursor), ..session },
            runtime,
            Seq::empty(),
        ),
        DriverEvent::Connected { provider_cursor } => connected(
            ctx,
            session,
            runtime,
            provider_cursor,
        ),
        DriverEvent::AgentPresetSelected(preset) => kept(
            SessionView { agent_preset: text::text_view(preset), ..session },
            runtime,
            Seq::empty(),
        ),
        DriverEvent::AutoTitleUpdated(title) => kept(
            session,
            runtime,
            seq![EffectView::SetAutoTitle(title@)],
        ),
        DriverEvent::AvailableCommands(names) => kept(
            SessionView { available_commands: text::texts_view(names@), ..session },
            runtime,
            when(
                session.available_commands != text::texts_view(names@),
                EffectView::ComposerSourcesStale,
            ),
        ),
        DriverEvent::PromptSubmitted { message, turn_id, message_id } => kept(
            session,
            runtime,
            seq![EffectView::AdoptPrompt { message: message@, turn_id, message_id }],
        ),
        DriverEvent::TurnStarted => turn_started(ctx, session, runtime),
        DriverEvent::TurnParked => turn_parked(ctx, entries, expanded, session, runtime),
        DriverEvent::TextDelta(delta) => text_arrived(ctx, session, runtime, delta@),
        DriverEvent::ReasoningDelta(delta) => reasoning_arrived(ctx, session, runtime, delta@),
        DriverEvent::Activity {
            id,
            kind,
            title,
            title_is_generic,
            title_names_search,
            detail,
            complete,
        } => activity_reported(
            ctx,
            session,
            runtime,
            reported_step(
                ctx,
                id,
                kind,
                title,
                title_is_generic,
                title_names_search,
                detail,
                complete,
            ),
        ),
        DriverEvent::RichActivity(item) => activity_reported(ctx, session, runtime, item@),
        DriverEvent::BackgroundWork(event) => kept(
            session,
            runtime,
            seq![EffectView::TrackBackgroundWork(event)],
        ),
        DriverEvent::Permission(permission) => permission_asked(ctx, session, runtime, permission),
        DriverEvent::UserInputRequested { request_id, questions } => questions_asked(
            ctx,
            session,
            runtime,
            request_id@,
            questions@,
        ),
        DriverEvent::ComputerUseUpdated(news) => computer_used(ctx, session, runtime, news),
        DriverEvent::SteerAccepted { message } => steer_accepted(ctx, session, runtime, message@),
        DriverEvent::SteerRejected { message, reason } => steer_rejected(
            ctx,
            entries,
            session,
            runtime,
            message@,
            reason@,
        ),
        DriverEvent::PlanUsageUpdated(usage) => kept(
            session,
            runtime,
            seq![EffectView::ShowPlanUsage(session.provider, usage)],
        ),
        DriverEvent::GoalUpdated(goal) => goal_updated(session, runtime, session::goal_view(goal)),
        DriverEvent::TodoUpdated(todos) => kept(
            SessionView { todos: session::todos_view(todos@), ..session },
            runtime,
            when(session.todos != session::todos_view(todos@), EffectView::MarkDirty),
        ),
        DriverEvent::UsageUpdated { context_tokens, context_window } => usage_updated(
            session,
            runtime,
            context_tokens,
            context_window,
        ),
        DriverEvent::TurnFinished { success, summary } => turn_ended(
            ctx,
            entries,
            expanded,
            session,
            runtime,
            success,
            text::text_view(summary),
        ),
        DriverEvent::Error(error) => driver_failed(ctx, session, runtime, error@),
        DriverEvent::ProcessExited => process_exited(ctx, entries, expanded, session, runtime),
    }
}

/// What the application has to do after an event, and whether the runtime
/// stays attached.
pub struct EventResult {
    pub keep: bool,
    pub effects: Vec<Effect>,
}

/// Take up an event of a session that exists.
pub fn handle_session_event(
    ctx: &EventContext,
    catalog: &Catalog,
    expanded: &HashSet<Id>,
    session: &mut AgentSession,
    runtime: &mut SessionRuntime,
    event: DriverEvent,
) -> (result: EventResult)
    requires
        old(session).messages@.len() < usize::MAX - 1,
        old(runtime).wf(),
    ensures
        (Outcome {
            session: final(session)@,
            runtime: final(runtime)@,
            effects: effects_view(result.effects@),
            keep: result.keep,
        }) == event_outcome(*ctx, catalog@, expanded@, old(session)@, old(runtime)@, event),
        final(runtime).wf(),
{
    runtime.last_active_at = ctx.now_ms;
    let mut keep: bool = true;
    let mut effects: Vec<Effect> = Vec::new();
    assert(effects_view(effects@) =~= Seq::<EffectView>::empty());
    match event {
        DriverEvent::RuntimeEventCursorAdvanced(cursor) => {
            session.runtime_event_cursor = Some(cursor);
        },
        DriverEvent::Connected { provider_cursor } => {
            effects = on_connected(ctx, session, runtime, provider_cursor);
        },
        DriverEvent::AgentPresetSelected(preset) => {
            session.agent_preset = preset;
        },
        DriverEvent::AutoTitleUpdated(title) => {
            push(&mut effects, Effect::SetAutoTitle(title));
            assert(effects_view(effects@) =~= seq![EffectView::SetAutoTitle(title@)]);
        },
        DriverEvent::AvailableCommands(names) => {
            let ghost new_names = text::texts_view(names@);
            if !same_texts(&session.available_commands, &names) {
                session.available_commands = names;
                push(&mut effects, Effect::ComposerSourcesStale);
                assert(effects_view(effects@) =~= seq![EffectView::ComposerSourcesStale]);
            }
            assert(session@.available_commands == new_names);
        },
        DriverEvent::PromptSubmitted { message, turn_id, message_id } => {
            push(&mut effects, Effect::AdoptPrompt { message, turn_id, message_id });
            assert(effects_view(effects@) =~= seq![
                EffectView::AdoptPrompt { message: message@, turn_id, message_id },
            ]);
        },
        DriverEvent::TurnStarted => {
            effects = on_turn_started(ctx, session, runtime);
        },
        DriverEvent::TurnParked => {
            effects = on_turn_parked(ctx, catalog, expanded, session, runtime);
        },
        DriverEvent::TextDelta(delta) => {
            effects = on_text(ctx, session, runtime, delta);
        },
        DriverEvent::ReasoningDelta(delta) => {
            effects = on_reasoning(ctx, session, runtime, delta);
        },
        DriverEvent::Activity {
            id,
            kind,
            title,
            title_is_generic,
            title_names_search,
            detail,
            complete,
        } => {
            let item = ActivityItem::new(
                ctx.fresh_id,
                id,
                kind,
                title,
                title_is_generic,
                title_names_search,
                detail,
                complete,
            );
            effects = on_activity(ctx, session, runtime, item);
        },
        DriverEvent::RichActivity(item) => {
            effects = on_activity(ctx, session, runtime, item);
        },
        DriverEvent::BackgroundWork(event) => {
            push(&mut effects, Effect::TrackBackgroundWork(event));
            assert(effects_view(effects@) =~= seq![EffectView::TrackBackgroundWork(event)]);
        },
        DriverEvent::Permission(permission) => {
            effects = on_permission(ctx, session, runtime, permission);
        },
        DriverEvent::UserInputRequested { request_id, questions } => {
            effects = on_questions(ctx, session, runtime, request_id, questions);
        },
        DriverEvent::ComputerUseUpdated(news) => {
            effects = on_computer_use(ctx, session, runtime, news);
        },
        DriverEvent::SteerAccepted { message } => {
            effects = on_steer_accepted(ctx, session, runtime, message);
        },
        DriverEvent::SteerRejected { message, reason } => {
            effects = on_steer_rejected(ctx, catalog, session, runtime, message, reason);
        },
        DriverEvent::PlanUsageUpdated(usage) => {
            push(&mut effects, Effect::ShowPlanUsage(session.provider, usage));
            assert(effects_view(effects@) =~= seq![
                EffectView::ShowPlanUsage(session.provider, usage),
            ]);
        },
        DriverEvent::GoalUpdated(goal) => {
            effects = on_goal(session, runtime, goal);
        },
        DriverEvent::TodoUpdated(todos) => {
            let ghost new_todos = session::todos_view(todos@);
            if !same_todos(&session.todos, &todos) {
                session.todos = todos;
                push(&mut effects, Effect::MarkDirty);
                assert(effects_view(effects@) =~= seq![EffectView::MarkDirty]);
            }
            assert(session@.todos == new_todos);
        },
        DriverEvent::UsageUpdated { context_tokens, context_window } => {
            effects = on_usage(session, runtime, context_tokens, context_window);
        },
        DriverEvent::TurnFinished { success, summary } => {
            effects =
            on_turn_finished(ctx, catalog, expanded, session, runtime, success, summary);
        },
        DriverEvent::Error(error) => {
            effects = on_error(ctx, session, runtime, error);
        },
        DriverEvent::ProcessExited => {
            effects = on_process_exited(ctx, catalog, expanded, session, runtime);
            keep = false;
        },
    }
    EventResult { keep, effects }
}

/// What an event does where its session is gone: only the runtime changes.
pub open spec fn orphan_outcome(
    ctx: EventContext,
    idle: RuntimeView,
    event: DriverEvent,
) -> (RuntimeView, Seq<EffectView>, bool) {
    let runtime = RuntimeView { last_active_at: ctx.now_ms, ..idle };
    let calm = RuntimeView { last_driver_error: None, ..runtime };
    match event {
        DriverEvent::Connected { .. } => (
            RuntimeView { last_background_refresh_at: ctx.now_ms, ..calm },
            seq![EffectView::RefreshBackgroundWork],
            true,
        ),
        DriverEvent::TurnStarted => (calm, Seq::empty(), true),
        DriverEvent::BackgroundWork(event) => (
            runtime,
            seq![EffectView::TrackBackgroundWork(event)],
            true,
        ),
        DriverEvent::SteerAccepted { message } => (
            RuntimeView {
                pending_steers: still_waiting(runtime.pending_steers, message@),
                ..runtime
            },
            Seq::empty(),
            true,
        ),
        DriverEvent::SteerRejected { message, .. } => (
            RuntimeView {
                pending_steers: still_waiting(runtime.pending_steers, message@),
                ..runtime
            },
            seq![EffectView::EnqueueFollowUp(acknowledged(runtime.pending_steers, message@))],
            true,
        ),
        DriverEvent::GoalUpdated(goal) => (
            runtime,
            seq![EffectView::GoalObserved(goal is Some)],
            true,
        ),
        DriverEvent::TurnFinished { success, .. } => (
            calm,
            seq![
                EffectView::SettleForegroundWork(
                    if success {
                        BackgroundWorkStatus::Completed
                    } else {
                        BackgroundWorkStatus::Failed
                    },
                ),
            ],
            true,
        ),
        DriverEvent::Error(error) => (
            RuntimeView {
                last_driver_error: Some(streaming::compact_error(error@)),
                ..runtime
            },
            when(ctx.selected, EffectView::ShowToast(streaming::compact_error(error@))),
            true,
        ),
        DriverEvent::ProcessExited => (
            RuntimeView { last_driver_error: None, ..runtime.settled() },
            seq![EffectView::MarkBackgroundWorkLost, EffectView::CancelComputerUse],
            false,
        ),
        _ => (runtime, Seq::empty(), true),
    }
}

fn handle_orphan_event(
    ctx: &EventContext,
    runtime: &mut SessionRuntime,
    event: DriverEvent,
) -> (result: EventResult)
    requires
        old(runtime).wf(),
    ensures
        (final(runtime)@, effects_view(result.effects@), result.keep) == orphan_outcome(
            *ctx,
            old(runtime)@,
            event,
        ),
        final(runtime).wf(),
{
    runtime.last_active_at = ctx.now_ms;
    let mut keep: bool = true;
    let mut effects: Vec<Effect> = Vec::new();
    assert(effects_view(effects@) =~= Seq::<EffectView>::empty());
    match event {
        DriverEvent::Connected { provider_cursor: _ } => {
            runtime.last_driver_error = None;
            runtime.last_background_refresh_at = ctx.now_ms;
            push(&mut effects, Effect::RefreshBackgroundWork);
        },
        DriverEvent::TurnStarted => {
            runtime.last_driver_error = None;
        },
        DriverEvent::BackgroundWork(event) => {
            push(&mut effects, Effect::TrackBackgroundWork(event));
        },
        DriverEvent::SteerAccepted { message } => {
            let _ = take_steer(&mut runtime.pending_steers, &message);
        },
        DriverEvent::SteerRejected { message, reason: _ } => {
            let submission = take_steer(&mut runtime.pending_steers, &message);
            push(&mut effects, Effect::EnqueueFollowUp(submission));
        },
        DriverEvent::GoalUpdated(goal) => {
            push(&mut effects, Effect::GoalObserved(goal.is_some()));
        },
        DriverEvent::TurnFinished { success, summary: _ } => {
            runtime.last_driver_error = None;
            push(
                &mut effects,
                Effect::SettleForegroundWork(
                    if success {
                        BackgroundWorkStatus::Completed
                    } else {
                        BackgroundWorkStatus::Failed
                    },
                ),
            );
        },
        DriverEvent::Error(error) => {
            let shown = streaming::compact_driver_error(error.as_str());
            runtime.last_driver_error = Some(shown.clone());
            push_if(&mut effects, ctx.selected, Effect::ShowToast(shown));
        },
        DriverEvent::ProcessExited => {
            clear_waiting(runtime);
            runtime.last_driver_error = None;
            push(&mut effects, Effect::MarkBackgroundWorkLost);
            push(&mut effects, Effect::CancelComputerUse);
            keep = false;
        },
        _ => {},
    }
    assert(effects_view(effects@) =~= orphan_outcome(*ctx, old(runtime)@, event).1);
    assert(runtime@ =~= orphan_outcome(*ctx, old(runtime)@, event).0);
    EventResult { keep, effects }
}

/// Take up an event of the driver: the session it belongs to changes, whether
/// or not it is on screen, and no other.
pub fn handle_driver_event(
    ctx: &EventContext,
    catalog: &Catalog,
    expanded: &HashSet<Id>,
    sessions: &mut Vec<AgentSession>,
    session_id: Id,
    runtime: &mut SessionRuntime,
    event: DriverEvent,
) -> (result: EventResult)
    requires
        old(runtime).wf(),
        forall|i: int|
            0 <= i < old(sessions)@.len() ==> (#[trigger] old(sessions)@[i]).messages@.len()
                < usize::MAX - 1,
    ensures
        final(runtime).wf(),
        match streaming::session_index(session::sessions_view(old(sessions)@), session_id) {
            Some(i) => {
                let outcome = event_outcome(
                    *ctx,
                    catalog@,
                    expanded@,
                    old(sessions)@[i]@,
                    old(runtime)@,
                    event,
                );
                &&& session::sessions_view(final(sessions)@) == session::sessions_view(
                    old(sessions)@,
                ).update(i, outcome.session)
                &&& final(runtime)@ == outcome.runtime
                &&& effects_view(result.effects@) == outcome.effects
                &&& result.keep == outcome.keep
            },
            None => {
                &&& *final(sessions) == *old(sessions)
                &&& (final(runtime)@, effects_view(result.effects@), result.keep)
                    == orphan_outcome(*ctx, old(runtime)@, event)
            },
        },
{
    let ghost before = session::sessions_view(sessions@);
    match streaming::find_session(sessions, session_id) {
        Some(i) => {
            let ghost target = sessions@[i as int]@;
            let result = handle_session_event(
                ctx,
                catalog,
                expanded,
                &mut sessions[i],
                runtime,
                event,
            );
            assert(session::sessions_view(sessions@) =~= before.update(
                i as int,
                event_outcome(*ctx, catalog@, expanded@, target, old(runtime)@, event).session,
            ));
            result
        },
        None => handle_orphan_event(ctx, runtime, event),
    }
}

// ── What events keep ───────────────────────────────────────────────────────

proof fn lemma_ended_turn_keeps_the_runtime(
    ctx: EventContext,
    entries: Seq<(Seq<char>, Seq<char>)>,
    expanded: Set<Id>,
    session: SessionView,
    runtime: RuntimeView,
    success: bool,
    summary: Option<Seq<char>>,
)
    ensures
        turn_ended(ctx, entries, expanded, session, runtime, success, summary).keep,
{
}

proof fn lemma_parked_turn_keeps_the_runtime(
    ctx: EventContext,
    entries: Seq<(Seq<char>, Seq<char>)>,
    expanded: Set<Id>,
    session: SessionView,
    runtime: RuntimeView,
)
    ensures
        turn_parked(ctx, entries, expanded, session, runtime).keep,
{
}

proof fn lemma_output_keeps_the_runtime(
    ctx: EventContext,
    session: SessionView,
    runtime: RuntimeView,
    delta: Seq<char>,
)
    ensures
        text_arrived(ctx, session, runtime, delta).keep,
        reasoning_arrived(ctx, session, runtime, delta).keep,
{
}

proof fn lemma_step_keeps_the_runtime(
    ctx: EventContext,
    session: SessionView,
    runtime: RuntimeView,
    item: ActivityView,
)
    ensures
        activity_reported(ctx, session, runtime, item).keep,
{
}

proof fn lemma_refused_steer_keeps_the_runtime(
    ctx: EventContext,
    entries: Seq<(Seq<char>, Seq<char>)>,
    session: SessionView,
    runtime: RuntimeView,
    message: Seq<char>,
    reason: Seq<char>,
)
    ensures
        steer_rejected(ctx, entries, session, runtime, message, reason).keep,
{
}

proof fn lemma_error_keeps_the_runtime(
    ctx: EventContext,
    session: SessionView,
    runtime: RuntimeView,
    error: Seq<char>,
)
    ensures
        driver_failed(ctx, session, runtime, error).keep,
{
}

/// The runtime is let go exactly when its process has ended.
pub proof fn only_an_exit_detaches_the_runtime(
    ctx: EventContext,
    entries: Seq<(Seq<char>, Seq<char>)>,
    expanded: Set<Id>,
    session: SessionView,
    runtime: RuntimeView,
    event: DriverEvent,
)
    ensures
        event_outcome(ctx, entries, expanded, session, runtime, event).keep == !(event
            is ProcessExited),
        orphan_outcome(ctx, runtime, event).2 == !(event is ProcessExited),
{
    let active = RuntimeView { last_active_at: ctx.now_ms, ..runtime };
    match event {
        DriverEvent::TurnFinished { success, summary } => {
            lemma_ended_turn_keeps_the_runtime(
                ctx,
                entries,
                expanded,
                session,
                active,
                success,
                text::text_view(summary),
            );
        },
        DriverEvent::TurnParked => {
            lemma_parked_turn_keeps_the_runtime(ctx, entries, expanded, session, active);
        },
        DriverEvent::TextDelta(delta) => {
            lemma_output_keeps_the_runtime(ctx, session, active, delta@);
        },
        DriverEvent::ReasoningDelta(delta) => {
            lemma_output_keeps_the_runtime(ctx, session, active, delta@);
        },
        DriverEvent::RichActivity(item) => {
            lemma_step_keeps_the_runtime(ctx, session, active, item@);
        },
        DriverEvent::Activity {
            id,
            kind,
            title,
            title_is_generic,
            title_names_search,
            detail,
            complete,
        } => {
            lemma_step_keeps_the_runtime(
                ctx,
                session,
                active,
                reported_step(
                    ctx,
                    id,
                    kind,
                    title,
                    title_is_generic,
                    title_names_search,
                    detail,
                    complete,
                ),
            );
        },
        DriverEvent::SteerRejected { message, reason } => {
            lemma_refused_steer_keeps_the_runtime(
                ctx,
                entries,
                session,
                active,
                message@,
                reason@,
            );
        },
        DriverEvent::Error(error) => {
            lemma_error_keeps_the_runtime(ctx, session, active, error@);
        },
        _ => {},
    }
}

/// Whether an event is output of a turn.
pub open spec fn is_output(event: DriverEvent) -> bool {
    event is TextDelta || event is ReasoningDelta || event is Activity || event is RichActivity
        || event is Permission || event is UserInputRequested || event is ComputerUseUpdated
}

/// Output that belongs to no running turn, or arrives while a prompt is being
/// prepared, changes nothing.
pub proof fn stray_output_is_dropped(
    ctx: EventContext,
    entries: Seq<(Seq<char>, Seq<char>)>,
    expanded: Set<Id>,
    session: SessionView,
    runtime: RuntimeView,
    event: DriverEvent,
)
    requires
        is_output(event),
        ctx.preparing || session.active_turn() is None || !session.status.busy(),
    ensures
        event_outcome(ctx, entries, expanded, session, runtime, event).session == session,
        event_outcome(ctx, entries, expanded, session, runtime, event).effects == Seq::<
            EffectView,
        >::empty(),
{
}

/// A turn that ended leaves nothing running and nothing waiting for the user,
/// and always has an answer in it.
pub proof fn an_ended_turn_is_settled(
    ctx: EventContext,
    entries: Seq<(Seq<char>, Seq<char>)>,
    expanded: Set<Id>,
    session: SessionView,
    runtime: RuntimeView,
    success: bool,
    summary: Option<Seq<char>>,
)
    requires
        session.active_turn() is Some,
    ensures
        ({
            let outcome = turn_ended(ctx, entries, expanded, session, runtime, success, summary);
            &&& outcome.session.active_turn() is None
            &&& !outcome.session.status.busy()
            &&& outcome.runtime.stream_phase is None
            &&& outcome.runtime.pending_permission is None
            &&& outcome.runtime.pending_user_input is None
            &&& outcome.runtime.pending_computer_approval is None
            &&& exists|i: int|
                0 <= i < outcome.session.messages.len() && (
                #[trigger] outcome.session.messages[i]).role == MessageRole::Assistant
                    && outcome.session.messages[i].turn_id == session.active_turn()
        }),
{
    let outcome = turn_ended(ctx, entries, expanded, session, runtime, success, summary);
    let after = outcome.session;
    lemma_settling_keeps_turn(session);
    let settled = streaming::completed_blocks(streaming::finished_streaming(session));
    assert(after.turns.last() == after.turns[after.turns.len() - 1]);
    if session.active_turn_has(MessageRole::Assistant) {
        let i = choose|i: int|
            0 <= i < settled.messages.len() && (#[trigger] settled.messages[i]).role
                == MessageRole::Assistant && settled.messages[i].turn_id == settled.active_turn();
        assert(after.messages[i] == settled.messages[i]);
    } else {
        assert(after.messages.last().role == MessageRole::Assistant);
        assert(after.messages[after.messages.len() - 1].turn_id == session.active_turn());
    }
}

proof fn lemma_text_adds_at_most_one(
    ctx: EventContext,
    session: SessionView,
    runtime: RuntimeView,
    delta: Seq<char>,
)
    ensures
        text_arrived(ctx, session, runtime, delta).session.messages.len()
            <= session.messages.len() + 1,
{
    let accepted = streaming::output_accepted(session);
    streaming::lemma_last_streaming(accepted.messages, accepted.messages.len() as int);
    let settled = streaming::finished_streaming(accepted);
    streaming::lemma_last_streaming(settled.messages, settled.messages.len() as int);
}

proof fn lemma_thought_adds_none(
    ctx: EventContext,
    session: SessionView,
    runtime: RuntimeView,
    delta: Seq<char>,
)
    ensures
        reasoning_arrived(ctx, session, runtime, delta).session.messages.len()
            == session.messages.len(),
{
}

proof fn lemma_step_adds_none(
    ctx: EventContext,
    session: SessionView,
    runtime: RuntimeView,
    item: ActivityView,
)
    ensures
        activity_reported(ctx, session, runtime, item).session.messages.len()
            == session.messages.len(),
{
}

proof fn lemma_ending_adds_at_most_one(
    ctx: EventContext,
    entries: Seq<(Seq<char>, Seq<char>)>,
    expanded: Set<Id>,
    session: SessionView,
    runtime: RuntimeView,
    success: bool,
    summary: Option<Seq<char>>,
)
    ensures
        turn_ended(
            ctx,
            entries,
            expanded,
            session,
            runtime,
            success,
            summary,
        ).session.messages.len() <= session.messages.len() + 1,
        process_exited(ctx, entries, expanded, session, runtime).session.messages.len()
            <= session.messages.len() + 1,
        turn_parked(ctx, entries, expanded, session, runtime).session.messages.len()
            == session.messages.len(),
{
}

/// An event adds at most one message.
#[verifier::spinoff_prover]
#[verifier::rlimit(40)]
pub proof fn an_event_adds_at_most_one_message(
    ctx: EventContext,
    entries: Seq<(Seq<char>, Seq<char>)>,
    expanded: Set<Id>,
    session: SessionView,
    runtime: RuntimeView,
    event: DriverEvent,
)
    ensures
        event_outcome(ctx, entries, expanded, session, runtime, event).session.messages.len()
            <= session.messages.len() + 1,
{
    let active = RuntimeView { last_active_at: ctx.now_ms, ..runtime };
    match event {
        DriverEvent::TextDelta(delta) => {
            lemma_text_adds_at_most_one(ctx, session, active, delta@);
        },
        DriverEvent::ReasoningDelta(delta) => {
            lemma_thought_adds_none(ctx, session, active, delta@);
        },
        DriverEvent::RichActivity(item) => {
            lemma_step_adds_none(ctx, session, active, item@);
        },
        DriverEvent::Activity {
            id,
            kind,
            title,
            title_is_generic,
            title_names_search,
            detail,
            complete,
        } => {
            lemma_step_adds_none(
                ctx,
                session,
                active,
                reported_step(
                    ctx,
                    id,
                    kind,
                    title,
                    title_is_generic,
                    title_names_search,
                    detail,
                    complete,
                ),
            );
        },
        DriverEvent::TurnFinished { success, summary } => {
            lemma_ending_adds_at_most_one(
                ctx,
                entries,
                expanded,
                session,
                active,
                success,
                text::text_view(summary),
            );
        },
        DriverEvent::TurnParked => {
            lemma_ending_adds_at_most_one(ctx, entries, expanded, session, active, true, None);
        },
        DriverEvent::ProcessExited => {
            lemma_ending_adds_at_most_one(ctx, entries, expanded, session, active, true, None);
        },
        _ => {},
    }
}

/// Whether none of the effects starts a queued message.
pub open spec fn starts_nothing(effects: Seq<EffectView>) -> bool {
    forall|i: int| 0 <= i < effects.len() ==> !(#[trigger] effects[i] is DrainQueue)
}

proof fn lemma_starts_nothing_together(a: Seq<EffectView>, b: Seq<EffectView>)
    requires
        starts_nothing(a),
        starts_nothing(b),
    ensures
        starts_nothing(a + b),
{
}

proof fn lemma_ended_turn_starts_nothing(
    ctx: EventContext,
    entries: Seq<(Seq<char>, Seq<char>)>,
    expanded: Set<Id>,
    session: SessionView,
    runtime: RuntimeView,
    success: bool,
    summary: Option<Seq<char>>,
)
    requires
        !ctx.allow_queue_drain,
    ensures
        starts_nothing(
            turn_ended(ctx, entries, expanded, session, runtime, success, summary).effects,
        ),
{
    let after = finished_session(ctx, entries, session, success, summary);
    let settle = seq![
        EffectView::SettleForegroundWork(
            if success {
                BackgroundWorkStatus::Completed
            } else {
                BackgroundWorkStatus::Failed
            },
        ),
    ];
    let stale = when(ctx.meters_plan_usage, EffectView::PlanUsageStale(session.provider));
    lemma_starts_nothing_together(settle, stale);
    if session.active_turn() is Some {
        let track = seq![
            EffectView::TrackTurn(
                if success {
                    TurnOutcome::Completed
                } else {
                    TurnOutcome::Failed
                },
            ),
        ];
        let a = settle + stale + track;
        lemma_starts_nothing_together(settle + stale, track);
        let b = a + seq![EffectView::CancelComputerUse];
        lemma_starts_nothing_together(a, seq![EffectView::CancelComputerUse]);
        let c = b + when(ctx.selected, EffectView::WorkspaceQueriesStale);
        lemma_starts_nothing_together(b, when(ctx.selected, EffectView::WorkspaceQueriesStale));
        let d = c + seq![EffectView::RefreshBackgroundWork];
        lemma_starts_nothing_together(c, seq![EffectView::RefreshBackgroundWork]);
        let e = d + seq![EffectView::CaptureCheckpoint];
        lemma_starts_nothing_together(d, seq![EffectView::CaptureCheckpoint]);
        let f = e + when(success, EffectView::ExtractMemory);
        lemma_starts_nothing_together(e, when(success, EffectView::ExtractMemory));
        let none = when(ctx.allow_queue_drain && success, EffectView::DrainQueue);
        lemma_starts_nothing_together(f, none);
        let splices = splice_effects(ctx.selected, expanded, session, after);
        lemma_starts_nothing_together(f + none, splices);
        let notice = when(
            !ctx.window_active,
            EffectView::Notify {
                title: shown_title(entries, session),
                body: i18n::plain(
                    entries,
                    if success {
                        "session.turn_completed"@
                    } else {
                        "session.stopped"@
                    },
                ),
            },
        );
        lemma_starts_nothing_together(f + none + splices, notice);
    }
}

proof fn lemma_step_starts_nothing(
    ctx: EventContext,
    session: SessionView,
    runtime: RuntimeView,
    item: ActivityView,
)
    ensures
        starts_nothing(activity_reported(ctx, session, runtime, item).effects),
{
}

proof fn lemma_refused_steer_starts_nothing(
    ctx: EventContext,
    entries: Seq<(Seq<char>, Seq<char>)>,
    session: SessionView,
    runtime: RuntimeView,
    message: Seq<char>,
    reason: Seq<char>,
)
    requires
        !ctx.allow_queue_drain,
    ensures
        starts_nothing(
            steer_rejected(ctx, entries, session, runtime, message, reason).effects,
        ),
{
}

proof fn lemma_goal_starts_nothing(
    session: SessionView,
    runtime: RuntimeView,
    goal: Option<ThreadGoalView>,
)
    ensures
        starts_nothing(goal_updated(session, runtime, goal).effects),
{
}

proof fn lemma_parked_turn_starts_nothing(
    ctx: EventContext,
    entries: Seq<(Seq<char>, Seq<char>)>,
    expanded: Set<Id>,
    session: SessionView,
    runtime: RuntimeView,
)
    ensures
        starts_nothing(turn_parked(ctx, entries, expanded, session, runtime).effects),
{
}

proof fn lemma_exit_starts_nothing(
    ctx: EventContext,
    entries: Seq<(Seq<char>, Seq<char>)>,
    expanded: Set<Id>,
    session: SessionView,
    runtime: RuntimeView,
)
    ensures
        starts_nothing(process_exited(ctx, entries, expanded, session, runtime).effects),
{
}

/// While queued messages may not start, no event starts one.
#[verifier::rlimit(40)]
#[verifier::spinoff_prover]
pub proof fn nothing_queued_starts_unasked(
    ctx: EventContext,
    entries: Seq<(Seq<char>, Seq<char>)>,
    expanded: Set<Id>,
    session: SessionView,
    runtime: RuntimeView,
    event: DriverEvent,
)
    requires
        !ctx.allow_queue_drain,
    ensures
        starts_nothing(
            event_outcome(ctx, entries, expanded, session, runtime, event).effects,
        ),
{
    let active = RuntimeView { last_active_at: ctx.now_ms, ..runtime };
    match event {
        DriverEvent::TurnFinished { success, summary } => {
            lemma_ended_turn_starts_nothing(
                ctx,
                entries,
                expanded,
                session,
                active,
                success,
                text::text_view(summary),
            );
        },
        DriverEvent::SteerRejected { message, reason } => {
            lemma_refused_steer_starts_nothing(
                ctx,
                entries,
                session,
                active,
                message@,
                reason@,
            );
        },
        DriverEvent::GoalUpdated(goal) => {
            lemma_goal_starts_nothing(session, active, session::goal_view(goal));
        },
        DriverEvent::TurnParked => {
            lemma_parked_turn_starts_nothing(ctx, entries, expanded, session, active);
        },
        DriverEvent::ProcessExited => {
            lemma_exit_starts_nothing(ctx, entries, expanded, session, active);
        },
        DriverEvent::RichActivity(item) => {
            lemma_step_starts_nothing(ctx, session, active, item@);
        },
        DriverEvent::Activity {
            id,
            kind,
            title,
            title_is_generic,
            title_names_search,
            detail,
            complete,
        } => {
            lemma_step_starts_nothing(
                ctx,
                session,
                active,
                reported_step(
                    ctx,
                    id,
                    kind,
                    title,
                    title_is_generic,
                    title_names_search,
                    detail,
                    complete,
                ),
            );
        },
        _ => {},
    }
}

// ── Batches ────────────────────────────────────────────────────────────────

/// Which text streams.
#[derive(Clone, Copy, Debug, PartialEq, Eq, Structural)]
pub enum StreamDeltaKind {
    Text,
    Reasoning,
}

/// The text of an event that streams `kind`.
pub open spec fn delta_of(event: DriverEvent, kind: StreamDeltaKind) -> Option<Seq<char>> {
    match (kind, event) {
        (StreamDeltaKind::Text, DriverEvent::TextDelta(text)) => Some(text@),
        (StreamDeltaKind::Reasoning, DriverEvent::ReasoningDelta(text)) => Some(text@),
        _ => None,
    }
}

/// Which text an event streams.
pub fn stream_delta_kind(event: &DriverEvent) -> (kind: Option<StreamDeltaKind>)
    ensures
        match kind {
            Some(kind) => delta_of(*event, kind) is Some,
            None => !(event is TextDelta) && !(event is ReasoningDelta),
        },
{
    match event {
        DriverEvent::TextDelta(_) => Some(StreamDeltaKind::Text),
        DriverEvent::ReasoningDelta(_) => Some(StreamDeltaKind::Reasoning),
        _ => None,
    }
}

/// The text of an event that streams `kind`.
pub fn stream_delta_text(event: &DriverEvent, kind: StreamDeltaKind) -> (delta: Option<&str>)
    ensures
        match delta {
            Some(delta) => delta_of(*event, kind) == Some(delta@),
            None => delta_of(*event, kind) is None,
        },
{
    match (kind, event) {
        (StreamDeltaKind::Text, DriverEvent::TextDelta(text)) => Some(text.as_str()),
        (StreamDeltaKind::Reasoning, DriverEvent::ReasoningDelta(text)) => Some(text.as_str()),
        _ => None,
    }
}

/// Whether an event joins a batch: text of its kind, or a cursor.
pub open spec fn joins_batch(event: DriverEvent, kind: StreamDeltaKind) -> bool {
    delta_of(event, kind) is Some || event is RuntimeEventCursorAdvanced
}

/// How many leading events a batch takes.
pub open spec fn batch_len(events: Seq<DriverEvent>, kind: StreamDeltaKind) -> nat
    decreases events.len(),
{
    if events.len() > 0 && joins_batch(events[0], kind) {
        1 + batch_len(events.skip(1), kind)
    } else {
        0
    }
}

/// All the text of one kind among the events, in order.
pub open spec fn all_text(events: Seq<DriverEvent>, kind: StreamDeltaKind) -> Seq<char>
    decreases events.len(),
{
    if events.len() == 0 {
        Seq::empty()
    } else {
        all_text(events.drop_last(), kind) + (match delta_of(events.last(), kind) {
            Some(text) => text,
            None => Seq::empty(),
        })
    }
}

/// The newest cursor among the events.
pub open spec fn newest_cursor(events: Seq<DriverEvent>) -> Option<DriverEvent>
    decreases events.len(),
{
    if events.len() == 0 {
        None
    } else if events.last() is RuntimeEventCursorAdvanced {
        Some(events.last())
    } else {
        newest_cursor(events.drop_last())
    }
}

/// The cursor as a queue of its own.
pub open spec fn cursor_queue(cursor: Option<DriverEvent>) -> Seq<DriverEvent> {
    match cursor {
        Some(cursor) => seq![cursor],
        None => Seq::empty(),
    }
}

proof fn lemma_batch_len(events: Seq<DriverEvent>, kind: StreamDeltaKind, k: int)
    requires
        0 <= k <= events.len(),
        forall|i: int| 0 <= i < k ==> joins_batch(#[trigger] events[i], kind),
        k < events.len() ==> !joins_batch(events[k], kind),
    ensures
        batch_len(events, kind) == k,
    decreases k,
{
    if k > 0 {
        assert(joins_batch(events[0], kind));
        let rest = events.skip(1);
        assert forall|i: int| 0 <= i < k - 1 implies joins_batch(#[trigger] rest[i], kind) by {
            assert(rest[i] == events[i + 1]);
        }
        lemma_batch_len(rest, kind, k - 1);
    }
}

/// Combine the leading text of one kind into a single event. Cursors are
/// acknowledgements rather than boundaries: the newest one passed stays in
/// the queue, after the combined text, and everything behind the batch keeps
/// its order.
pub fn pop_stream_batch(events: &mut VecDeque<DriverEvent>, kind: StreamDeltaKind) -> (batch: Option<
    DriverEvent,
>)
    ensures
        batch matches Some(batch) && delta_of(batch, kind) == Some(
            all_text(old(events)@.take(batch_len(old(events)@, kind) as int), kind),
        ),
        final(events)@ == cursor_queue(
            newest_cursor(old(events)@.take(batch_len(old(events)@, kind) as int)),
        ) + old(events)@.skip(batch_len(old(events)@, kind) as int),
{
    let ghost all = events@;
    let ghost mut taken: int = 0;
    let mut chunk = String::new();
    let mut latest: Option<DriverEvent> = None;
    let mut more: bool = true;
    assert(all.skip(0) =~= all);
    assert(all.take(0) =~= Seq::<DriverEvent>::empty());
    while more
        invariant
            0 <= taken <= all.len(),
            events@ == all.skip(taken),
            chunk@ == all_text(all.take(taken), kind),
            latest == newest_cursor(all.take(taken)),
            forall|i: int| 0 <= i < taken ==> joins_batch(#[trigger] all[i], kind),
            !more ==> (taken < all.len() ==> !joins_batch(all[taken], kind)),
        decreases
            all.len() - taken + (if more {
                1int
            } else {
                0
            }),
    {
        if events.len() == 0 {
            more = false;
        } else {
            assert(events@[0] == all[taken]);
            let joins: bool = match &events[0] {
                DriverEvent::RuntimeEventCursorAdvanced(_) => true,
                event => stream_delta_text(event, kind).is_some(),
            };
            if !joins {
                more = false;
            } else {
                proof {
                    assert(all.take(taken + 1).drop_last() =~= all.take(taken));
                    assert(all.take(taken + 1).last() == all[taken]);
                    assert(all.skip(taken).drop_first() =~= all.skip(taken + 1));
                }
                let ghost before = chunk@;
                match events.pop_front() {
                    Some(DriverEvent::TextDelta(text)) => {
                        chunk.append(text.as_str());
                    },
                    Some(DriverEvent::ReasoningDelta(text)) => {
                        chunk.append(text.as_str());
                    },
                    Some(cursor) => {
                        assert(before + Seq::<char>::empty() =~= before);
                        latest = Some(cursor);
                    },
                    None => {},
                }
                proof {
                    taken = taken + 1;
                }
                assert(events@ =~= all.skip(taken));
            }
        }
    }
    proof {
        lemma_batch_len(all, kind, taken);
    }
    let ghost newest = latest;
    if let Some(cursor) = latest {
        events.push_front(cursor);
    }
    assert(events@ =~= cursor_queue(newest) + all.skip(taken));
    match kind {
        StreamDeltaKind::Text => Some(DriverEvent::TextDelta(chunk)),
        StreamDeltaKind::Reasoning => Some(DriverEvent::ReasoningDelta(chunk)),
    }
}

/// Combining a batch loses no text: what came before the batch was taken is
/// the batch followed by what still waits.
pub proof fn batching_keeps_the_text(events: Seq<DriverEvent>, kind: StreamDeltaKind)
    ensures
        all_text(events, kind) == all_text(events.take(batch_len(events, kind) as int), kind)
            + all_text(
            cursor_queue(newest_cursor(events.take(batch_len(events, kind) as int))) + events.skip(
                batch_len(events, kind) as int,
            ),
            kind,
        ),
{
    let n = batch_len(events, kind) as int;
    lemma_batch_fits(events, kind);
    let cursor = newest_cursor(events.take(n));
    lemma_newest_is_cursor(events.take(n));
    assert(events =~= events.take(n) + events.skip(n));
    lemma_all_text_add(events.take(n), events.skip(n), kind);
    lemma_all_text_add(cursor_queue(cursor), events.skip(n), kind);
    assert(all_text(cursor_queue(cursor), kind) =~= Seq::<char>::empty()) by {
        if cursor is Some {
            let queue = cursor_queue(cursor);
            assert(queue.drop_last() =~= Seq::<DriverEvent>::empty());
            assert(all_text(queue.drop_last(), kind) =~= Seq::<char>::empty());
        }
    }
    assert(Seq::<char>::empty() + all_text(events.skip(n), kind) =~= all_text(
        events.skip(n),
        kind,
    ));
}

proof fn lemma_batch_fits(events: Seq<DriverEvent>, kind: StreamDeltaKind)
    ensures
        batch_len(events, kind) <= events.len(),
    decreases events.len(),
{
    if events.len() > 0 && joins_batch(events[0], kind) {
        lemma_batch_fits(events.skip(1), kind);
    }
}

proof fn lemma_newest_is_cursor(events: Seq<DriverEvent>)
    ensures
        newest_cursor(events) matches Some(cursor) ==> cursor is RuntimeEventCursorAdvanced,
    decreases events.len(),
{
    if events.len() > 0 && !(events.last() is RuntimeEventCursorAdvanced) {
        lemma_newest_is_cursor(events.drop_last());
    }
}

proof fn lemma_all_text_add(a: Seq<DriverEvent>, b: Seq<DriverEvent>, kind: StreamDeltaKind)
    ensures
        all_text(a + b, kind) == all_text(a, kind) + all_text(b, kind),
    decreases b.len(),
{
    if b.len() == 0 {
        assert(a + b =~= a);
        assert(all_text(a, kind) + Seq::<char>::empty() =~= all_text(a, kind));
    } else {
        lemma_all_text_add(a, b.drop_last(), kind);
        assert((a + b).drop_last() =~= a + b.drop_last());
        let last = match delta_of(b.last(), kind) {
            Some(text) => text,
            None => Seq::empty(),
        };
        assert((all_text(a, kind) + all_text(b.drop_last(), kind)) + last =~= all_text(a, kind) + (
        all_text(b.drop_last(), kind) + last));
    }
}

} // verus!
