use std::collections::{HashMap, HashSet, VecDeque};
use waku::analytics::TurnOutcome;
use waku::controls::{
    advance_user_input, begin_model_choice, bring_computer_use_to_front, cancel_turn_action,
    capture_window_state, choose_model, dismiss_computer_use, drop_goal_operations,
    drop_queue_drains, live_reasoning_ids, navigate_back_action, navigate_forward_action,
    next_picker_highlight, plan_stop, previous_user_input, respond_computer_permission,
    respond_permission, retain_runtime_after_cancel, runtime_fate, select_model_picker_tab,
    select_user_input_option, selected_escape_stop_target, set_agent_preset, set_context_window,
    set_reasoning_effort, set_runtime_mode, set_service_tier, settle_stopped_runtime,
    settle_stopped_session, stop_turn, stop_turn_without_runtime, streaming_message_ids,
    submit_user_input_custom_answer, take_buffered_event, take_buffered_events,
    toggle_favorite_model, toggle_model_picker_action, update_user_input_custom_answer, AppGrant,
    ComputerReply, ESCAPE_STOP_CONFIRMATION_TIMEOUT, EscapeRoute, EscapeStopConfirmation,
    EscapeStopPress, EscapeStopTarget, FavoriteModel, Frame, FreshIds, Menu, ModelChoice,
    ModelChoiceStep, ModelPicker, ModelPickerTab, ModelTraits, NavigationStep,
    PersistedWindowState, RuntimeFate, StopEffect, StopPlan, UserInputStep, WindowBounds,
};
use waku::events::{
    handle_driver_event, pop_stream_batch, stream_delta_kind, stream_delta_text,
    upsert_computer_use_preview, BackgroundWorkStatus, ComputerTarget, ComputerUsePreview,
    DriverEvent, Effect, EventContext, PendingComputerApproval, PendingPermission, SessionRuntime,
    StreamDeltaKind,
};
use waku::i18n::{Catalog, Entry};
use waku::memory::memory_extraction;
use waku::model::{
    ActivityItem, ActivityKind, FileChange, Id, MessageRole, ProviderKind, ReasoningBlock,
    RuntimeMode,
    SessionStatus, TurnStatus,
};
use waku::session::{AgentSession, RuntimeEventCursor, Submission};
use waku::sidebar::Project;
use waku::streaming::{
    append_reasoning_delta, append_text_delta_to_session, compact_driver_error,
    complete_reasoning_activity, memory_excerpt, push_transcript_activity,
    session_accepts_turn_output, should_refresh_branch_after_activity, update_activity,
    StreamPhase,
};
use waku::tasks::{
    activate_session, add_project, can_select_workspace, create_projectless_session, create_session_for, find_project_at_path,
    find_projectless_draft, finish_projectless_workspace, new_session_action, new_task_runtime_mode, project_picker,
    remove_session,
    ActivationStep, AddedProject, HydrationStep, NewTask, PickerStep, ProjectKind, ProjectlessStep, RememberedSettings, Removal,
    SessionActivationTransition, SessionNavigation, Successor, TaskSelection, WorkspaceReply,
};
use waku::user_input::{Advance, PendingUserInput, UserInputOption, UserInputQuestion};

fn new_id() -> Id {
    uuid::Uuid::new_v4().as_u128()
}

fn new_session(provider: ProviderKind) -> AgentSession {
    AgentSession::new(new_id(), new_id(), provider, 1)
}

fn begin(session: &mut AgentSession, prompt: &str) -> Id {
    let turn_id = new_id();
    session.begin_turn(prompt.to_owned(), new_id(), turn_id, 1);
    turn_id
}

fn catalog() -> Catalog {
    Catalog {
        entries: vec![
            Entry {
                key: "session.stopped".to_owned(),
                template: "Stopped".to_owned(),
            },
            Entry {
                key: "session.steer_rejected".to_owned(),
                template: "Not steered: %{error}".to_owned(),
            },
        ],
    }
}

fn thought(content: &str, complete: bool) -> ActivityItem {
    ActivityItem::from_reasoning(
        new_id(),
        "Thinking".to_owned(),
        ReasoningBlock {
            content: content.to_owned(),
            started_at_ms: 1_000,
            finished_at_ms: 2_000,
        },
        complete,
    )
}

fn command(source: Option<&str>, title: &str, complete: bool) -> ActivityItem {
    ActivityItem::new(
        new_id(),
        source.map(str::to_owned),
        ActivityKind::Command,
        title.to_owned(),
        false,
        false,
        None,
        complete,
    )
}

fn question(id: &str, options: Vec<&str>) -> UserInputQuestion {
    UserInputQuestion {
        id: id.to_owned(),
        header: id.to_owned(),
        question: id.to_owned(),
        options: options
            .into_iter()
            .map(|label| UserInputOption {
                label: label.to_owned(),
                description: None,
            })
            .collect(),
        multi_select: false,
    }
}

fn runtime() -> SessionRuntime {
    SessionRuntime {
        stream_phase: None,
        pending_permission: None,
        pending_user_input: None,
        pending_computer_approval: None,
        last_driver_error: None,
        park_announced: false,
        pending_steers: Vec::new(),
        computer_use_previews: Vec::new(),
        last_active_at: 0,
        last_background_refresh_at: 0,
    }
}

fn context() -> EventContext {
    EventContext {
        selected: true,
        preparing: false,
        window_active: true,
        allow_queue_drain: true,
        meters_plan_usage: false,
        pursuit: false,
        now: 50,
        now_ms: 50_000,
        fresh_id: new_id(),
        fresh_turn: new_id(),
        reasoning_title: "Thinking".to_owned(),
    }
}

#[test]
fn structured_user_input_preserves_question_order_and_custom_answer_precedence() {
    let questions = vec![
        UserInputQuestion {
            id: "environment".to_owned(),
            header: "Environment".to_owned(),
            question: "Where should this deploy?".to_owned(),
            options: vec![UserInputOption {
                label: "Preview".to_owned(),
                description: None,
            }],
            multi_select: false,
        },
        UserInputQuestion {
            id: "notes".to_owned(),
            header: "Notes".to_owned(),
            question: "Anything else?".to_owned(),
            options: Vec::new(),
            multi_select: false,
        },
    ];
    let mut pending = PendingUserInput::new("request-1".to_owned(), questions);
    pending
        .selections
        .insert("environment".to_owned(), vec!["Preview".to_owned()]);
    pending
        .selections
        .insert("notes".to_owned(), vec!["stale choice".to_owned()]);
    pending
        .custom_answers
        .insert("notes".to_owned(), "Use the EU region".to_owned());

    let answers = pending.answers();
    assert_eq!(answers[0].question_id, "environment");
    assert_eq!(answers[0].answers, ["Preview"]);
    assert_eq!(answers[1].question_id, "notes");
    assert_eq!(answers[1].answers, ["Use the EU region"]);
}

#[test]
fn foreground_output_recovers_a_missed_provider_turn_start_for_steering() {
    let mut session = new_session(ProviderKind::Codex);
    begin(&mut session, "inspect the project");
    session.status = SessionStatus::Connecting;

    assert!(!session.turns[0].provider_started);
    assert!(session_accepts_turn_output(&mut session));
    assert_eq!(session.status, SessionStatus::Working);
    assert!(session.turns[0].provider_started);
}

#[test]
fn completed_mutating_activities_refresh_git_status() {
    assert!(should_refresh_branch_after_activity(
        ActivityKind::FileChange,
        true
    ));
    assert!(should_refresh_branch_after_activity(
        ActivityKind::Command,
        true
    ));
    assert!(!should_refresh_branch_after_activity(
        ActivityKind::FileChange,
        false
    ));
    assert!(!should_refresh_branch_after_activity(
        ActivityKind::FileRead,
        true
    ));
}

#[test]
fn escape_stop_requires_a_matching_second_press_and_expires() {
    let target = EscapeStopTarget {
        session_id: new_id(),
        turn_id: Some(new_id()),
    };
    let other_turn = EscapeStopTarget {
        session_id: target.session_id,
        turn_id: Some(new_id()),
    };
    let mut confirmation = EscapeStopConfirmation::new();
    let now = 1_000_000;

    let first_arm = match confirmation.press(target, now) {
        EscapeStopPress::Arm(arm) => arm,
        EscapeStopPress::Stop => panic!("the first press must arm Stop"),
    };
    assert!(confirmation.is_armed_for(target, now + 2_000));
    assert_eq!(
        confirmation.press(target, now + 2_000),
        EscapeStopPress::Stop
    );
    assert!(!confirmation.is_armed_for(target, now + 2_000));

    assert_eq!(ESCAPE_STOP_CONFIRMATION_TIMEOUT, 3_000);
    let second_arm = match confirmation.press(target, now) {
        EscapeStopPress::Arm(arm) => arm,
        EscapeStopPress::Stop => panic!("an unarmed confirmation must arm Stop"),
    };
    assert!(!confirmation.is_armed_for(target, now + 3_000));
    let replacement_arm = match confirmation.press(other_turn, now + 3_000) {
        EscapeStopPress::Arm(arm) => arm,
        EscapeStopPress::Stop => panic!("an expired or different target must arm Stop again"),
    };
    assert!(!confirmation.expire(first_arm));
    assert!(!confirmation.expire(second_arm));
    assert!(confirmation.expire(replacement_arm));
}

#[test]
fn driver_errors_are_bounded_before_rendering() {
    let error = (0..20)
        .map(|line| format!("provider diagnostic line {line}"))
        .collect::<Vec<_>>()
        .join("\n");
    let compact = compact_driver_error(&error);

    assert_eq!(compact.lines().count(), 7);
    assert!(compact.ends_with('…'));
    assert!(!compact.contains("provider diagnostic line 6"));

    let long = compact_driver_error(&"x".repeat(2_000));
    assert_eq!(long.chars().count(), 800);
    assert!(long.ends_with('…'));
}

#[test]
fn session_navigation_tracks_back_forward_and_new_branches() {
    let first = new_id();
    let second = new_id();
    let third = new_id();
    let branch = new_id();
    let mut navigation = SessionNavigation::new();

    navigation.visit(Some(first), second);
    navigation.visit(Some(second), third);
    assert_eq!(navigation.go_back(third), Some(second));
    assert_eq!(navigation.go_back(second), Some(first));
    assert_eq!(navigation.go_forward(first), Some(second));

    navigation.visit(Some(second), branch);
    assert_eq!(navigation.go_forward(branch), None);
    assert_eq!(navigation.go_back(branch), Some(second));
}

#[test]
fn session_navigation_prunes_deleted_tasks() {
    let first = new_id();
    let second = new_id();
    let third = new_id();
    let mut navigation = SessionNavigation::new();

    navigation.visit(Some(first), second);
    navigation.visit(Some(second), third);
    assert_eq!(navigation.go_back(third), Some(second));

    navigation.remove(first);
    navigation.remove(third);
    assert_eq!(navigation.go_back(second), None);
    assert_eq!(navigation.go_forward(second), None);
}

#[test]
fn stream_batches_commit_full_adjacent_text_and_preserve_event_order() {
    let runtime_id = new_id();
    let epoch = new_id();
    let cursor = |sequence| {
        DriverEvent::RuntimeEventCursorAdvanced(RuntimeEventCursor {
            runtime_id,
            epoch,
            sequence,
        })
    };
    let mut events = VecDeque::from([
        DriverEvent::TextDelta("first ".to_owned()),
        cursor(1),
        DriverEvent::TextDelta("line\nsecond line".to_owned()),
        cursor(2),
        DriverEvent::Activity {
            id: None,
            kind: ActivityKind::Tool,
            title: "Tool".to_owned(),
            title_is_generic: true,
            title_names_search: false,
            detail: None,
            complete: true,
        },
        DriverEvent::TextDelta("after tool".to_owned()),
    ]);

    assert!(matches!(
        pop_stream_batch(&mut events, StreamDeltaKind::Text),
        Some(DriverEvent::TextDelta(text)) if text == "first line\nsecond line"
    ));
    assert!(matches!(
        events.pop_front(),
        Some(DriverEvent::RuntimeEventCursorAdvanced(cursor)) if cursor.sequence == 2
    ));
    assert!(matches!(events.front(), Some(DriverEvent::Activity { .. })));
    assert!(matches!(
        events.get(1),
        Some(DriverEvent::TextDelta(text)) if text == "after tool"
    ));
}

#[test]
fn stream_parts_keep_targeting_the_running_session_after_selection_changes() {
    let project_id = new_id();
    let mut running = AgentSession::new(new_id(), project_id, ProviderKind::Codex, 1);
    begin(&mut running, "background task");
    running.status = SessionStatus::Working;
    let running_id = running.id;
    let visible = AgentSession::new(new_id(), project_id, ProviderKind::Claude, 1);
    let visible_id = visible.id;
    let mut sessions = vec![running, visible];

    append_text_delta_to_session(
        &mut sessions,
        running_id,
        false,
        "first".to_owned(),
        new_id(),
        1,
    );
    // Navigation changes only which task is rendered. The runtime keeps
    // emitting with its own task ID while another task is visible.
    let selected_session = visible_id;
    append_text_delta_to_session(
        &mut sessions,
        running_id,
        true,
        " second".to_owned(),
        new_id(),
        1,
    );

    assert_eq!(selected_session, visible_id);
    assert_eq!(sessions[0].messages[1].content, "first second");
    assert!(sessions[0].messages[1].streaming);
    assert!(sessions[1].messages.is_empty());
}

#[test]
fn reasoning_and_tools_share_one_ordered_activity_block() {
    let mut session = new_session(ProviderKind::Codex);
    begin(&mut session, "Build it");

    push_transcript_activity(&mut session, thought("Inspecting the project", true), false);
    push_transcript_activity(&mut session, command(None, "Ran tests", false), true);

    assert_eq!(session.transcript_blocks.len(), 1);
    assert_eq!(session.transcript_blocks[0].activities.len(), 2);
    assert_eq!(
        session.transcript_blocks[0]
            .activities
            .iter()
            .map(|activity| activity.kind)
            .collect::<Vec<_>>(),
        [ActivityKind::Reasoning, ActivityKind::Command]
    );

    session.push_message(
        new_id(),
        MessageRole::Assistant,
        "Interim update".to_owned(),
        1,
    );
    push_transcript_activity(&mut session, thought("Checking the result", false), false);
    assert_eq!(
        session.transcript_blocks.len(),
        2,
        "assistant text keeps later work at its own transcript position"
    );
}

#[test]
fn model_picker_highlight_wraps_at_both_ends() {
    // Nothing highlighted yet: down opens on the first row, up on the last.
    assert_eq!(next_picker_highlight(None, 3, "down"), Some(0));
    assert_eq!(next_picker_highlight(None, 3, "up"), Some(2));

    assert_eq!(next_picker_highlight(Some(0), 3, "down"), Some(1));
    assert_eq!(next_picker_highlight(Some(2), 3, "down"), Some(0));
    assert_eq!(next_picker_highlight(Some(0), 3, "up"), Some(2));

    // Keys the filter field owns must not move the cursor.
    assert_eq!(next_picker_highlight(Some(1), 3, "home"), None);
    assert_eq!(next_picker_highlight(Some(1), 3, "enter"), None);

    // An empty result list has nothing to land on.
    assert_eq!(next_picker_highlight(None, 0, "down"), None);
}

#[test]
fn new_task_carries_the_current_tasks_access_mode() {
    let mut current = new_session(ProviderKind::OpenCode);
    current.runtime_mode = RuntimeMode::Ask;

    assert_eq!(
        new_task_runtime_mode(Some(&current), RuntimeMode::FullAccess),
        RuntimeMode::Ask
    );
    assert_eq!(
        new_task_runtime_mode(None, RuntimeMode::AutoAcceptEdits),
        RuntimeMode::AutoAcceptEdits
    );
}

#[test]
fn new_task_navigation_reuses_a_draft_from_the_current_project() {
    let project_id = new_id();
    let draft = AgentSession::new(new_id(), project_id, ProviderKind::Codex, 1);
    let mut started = AgentSession::new(new_id(), project_id, ProviderKind::Claude, 1);
    begin(&mut started, "Existing task");
    let mut navigation = SessionNavigation::new();
    let draft_id = draft.id;

    navigation.remember_new_task(draft_id);
    navigation.visit(Some(draft_id), started.id);

    assert_eq!(
        navigation.remembered_new_task(&vec![draft, started], project_id),
        Some(draft_id)
    );
}

#[test]
fn new_task_navigation_does_not_reopen_a_draft_from_another_project() {
    let draft = new_session(ProviderKind::Codex);
    let current_project_id = new_id();
    let mut navigation = SessionNavigation::new();

    navigation.remember_new_task(draft.id);

    assert_eq!(
        navigation.remembered_new_task(&vec![draft], current_project_id),
        None
    );
}

#[test]
fn new_task_navigation_does_not_reopen_a_started_or_removed_draft() {
    let project_id = new_id();
    let mut draft = AgentSession::new(new_id(), project_id, ProviderKind::Codex, 1);
    let mut navigation = SessionNavigation::new();
    let draft_id = draft.id;
    navigation.remember_new_task(draft_id);

    begin(&mut draft, "Start it");
    assert_eq!(
        navigation.remembered_new_task(&vec![draft], project_id),
        None
    );

    navigation.remove(draft_id);
    assert_eq!(navigation.new_task, None);
}

const ALL_PROVIDERS: [ProviderKind; 11] = [
    ProviderKind::Amp,
    ProviderKind::Claude,
    ProviderKind::Codex,
    ProviderKind::Cursor,
    ProviderKind::DeepSeek,
    ProviderKind::Fx,
    ProviderKind::Grok,
    ProviderKind::Kimi,
    ProviderKind::OpenCode,
    ProviderKind::OpenCode2,
    ProviderKind::Pi,
];

#[test]
fn stopping_releases_the_runtimes_that_cannot_be_interrupted_in_place() {
    // Codex owns a Computer Use process tree; Amp has no stream interrupt.
    assert!(!retain_runtime_after_cancel(ProviderKind::Codex));
    assert!(!retain_runtime_after_cancel(ProviderKind::Amp));
    for provider in ALL_PROVIDERS {
        if !matches!(provider, ProviderKind::Codex | ProviderKind::Amp) {
            assert!(retain_runtime_after_cancel(provider));
        }
    }
}

// ── Streaming ──────────────────────────────────────────────────────────────

#[test]
fn thoughts_stream_into_one_step_and_end() {
    let mut session = new_session(ProviderKind::Codex);
    begin(&mut session, "think");
    let phase = append_reasoning_delta(
        &mut session,
        None,
        "first ".to_owned(),
        7,
        "Thinking".to_owned(),
        3,
        3_000,
    );
    assert_eq!(phase, Some(StreamPhase::Reasoning));
    append_reasoning_delta(
        &mut session,
        phase,
        "second".to_owned(),
        8,
        "Thinking".to_owned(),
        4,
        4_000,
    );
    let steps = &session.transcript_blocks[0].activities;
    assert_eq!(steps.len(), 1);
    assert_eq!(
        steps[0].reasoning.as_ref().map(|block| block.content.as_str()),
        Some("first second")
    );
    assert!(!steps[0].complete);
    assert_eq!(live_reasoning_ids(&session), vec![7]);
    complete_reasoning_activity(&mut session, 5);
    assert!(session.transcript_blocks[0].activities[0].complete);
    assert!(live_reasoning_ids(&session).is_empty());
}

#[test]
fn a_step_with_a_name_is_updated_in_place() {
    let mut session = new_session(ProviderKind::Codex);
    begin(&mut session, "run");
    update_activity(&mut session, None, command(Some("c"), "cargo test", false), 2);
    let id = session.transcript_blocks[0].activities[0].id;
    let stale = update_activity(
        &mut session,
        Some(StreamPhase::Activity),
        command(Some("c"), "cargo test", true),
        3,
    );
    assert_eq!(session.transcript_blocks[0].activities.len(), 1);
    assert!(session.transcript_blocks[0].activities[0].complete);
    assert_eq!(session.transcript_blocks[0].activities[0].id, id);
    assert_eq!(stale, None);
    // New changes make the cached diff stale.
    let mut edited = command(Some("c"), "cargo test", true);
    edited.file_changes = vec![FileChange {
        display_name: "a.rs".to_owned(),
        additions: None,
        deletions: None,
        diff: None,
    }];
    assert_eq!(
        update_activity(&mut session, Some(StreamPhase::Activity), edited, 4),
        Some(id)
    );
}

#[test]
fn output_is_taken_only_while_a_turn_runs() {
    let mut session = new_session(ProviderKind::Codex);
    assert!(!session_accepts_turn_output(&mut session));
    begin(&mut session, "go");
    assert!(!session_accepts_turn_output(&mut session));
    session.status = SessionStatus::Working;
    assert!(session_accepts_turn_output(&mut session));
    session.finish_active_turn(TurnStatus::Completed, 2);
    session.status = SessionStatus::Idle;
    assert!(!session_accepts_turn_output(&mut session));
}

#[test]
fn a_turns_words_are_excerpted_for_the_memory() {
    let mut session = new_session(ProviderKind::Codex);
    assert_eq!(memory_excerpt(&session, 100), None);
    begin(&mut session, "Remember the port");
    session.push_message(new_id(), MessageRole::Assistant, "It is 80.".to_owned(), 1);
    session.push_message(new_id(), MessageRole::Assistant, "Noted.".to_owned(), 1);
    assert_eq!(
        memory_excerpt(&session, 100).as_deref(),
        Some("User:\nRemember the port\n\nAssistant:\nIt is 80.\nNoted.")
    );
    // Each side is cut at its own limit, never inside a character.
    let cut = memory_excerpt(&session, 8).expect("there are words");
    assert!(cut.starts_with("User:\nRemember\n\nAssistant:\nIt is 80"));
}

#[test]
fn streaming_messages_are_listed() {
    let mut session = new_session(ProviderKind::Codex);
    begin(&mut session, "go");
    let session_id = session.id;
    let mut sessions = vec![session];
    append_text_delta_to_session(&mut sessions, session_id, false, "a".to_owned(), 9, 1);
    assert_eq!(streaming_message_ids(&sessions[0]), vec![9]);
}

#[test]
fn deltas_are_told_by_their_kind() {
    let text = DriverEvent::TextDelta("a".to_owned());
    let reasoning = DriverEvent::ReasoningDelta("b".to_owned());
    assert_eq!(stream_delta_kind(&text), Some(StreamDeltaKind::Text));
    assert_eq!(
        stream_delta_kind(&reasoning),
        Some(StreamDeltaKind::Reasoning)
    );
    assert_eq!(stream_delta_kind(&DriverEvent::TurnStarted), None);
    assert_eq!(stream_delta_text(&text, StreamDeltaKind::Text), Some("a"));
    assert_eq!(stream_delta_text(&text, StreamDeltaKind::Reasoning), None);
}

// ── Driver events ──────────────────────────────────────────────────────────

fn handle(
    sessions: &mut Vec<AgentSession>,
    runtime: &mut SessionRuntime,
    event: DriverEvent,
) -> (bool, Vec<Effect>) {
    let session_id = sessions[0].id;
    let result = handle_driver_event(
        &context(),
        &catalog(),
        &HashSet::new(),
        sessions,
        session_id,
        runtime,
        event,
    );
    (result.keep, result.effects)
}

#[test]
fn a_turn_streams_settles_and_is_reported() {
    let mut session = new_session(ProviderKind::Codex);
    begin(&mut session, "go");
    session.status = SessionStatus::Connecting;
    let mut sessions = vec![session];
    let mut runtime = runtime();

    let (keep, _) = handle(&mut sessions, &mut runtime, DriverEvent::TurnStarted);
    assert!(keep);
    assert_eq!(sessions[0].status, SessionStatus::Working);
    handle(
        &mut sessions,
        &mut runtime,
        DriverEvent::TextDelta("Hello".to_owned()),
    );
    handle(
        &mut sessions,
        &mut runtime,
        DriverEvent::TextDelta(" there".to_owned()),
    );
    assert_eq!(sessions[0].messages[1].content, "Hello there");
    assert!(sessions[0].messages[1].streaming);

    let (keep, effects) = handle(
        &mut sessions,
        &mut runtime,
        DriverEvent::TurnFinished {
            success: true,
            summary: None,
        },
    );
    assert!(keep);
    assert_eq!(sessions[0].status, SessionStatus::Idle);
    assert_eq!(sessions[0].turns[0].status, TurnStatus::Completed);
    assert!(!sessions[0].messages[1].streaming);
    assert!(effects
        .iter()
        .any(|effect| matches!(effect, Effect::TrackTurn(TurnOutcome::Completed))));
    assert!(effects
        .iter()
        .any(|effect| matches!(effect, Effect::CaptureCheckpoint)));
}

#[test]
fn only_the_end_of_the_process_detaches_the_runtime() {
    let mut session = new_session(ProviderKind::Codex);
    begin(&mut session, "go");
    session.status = SessionStatus::Working;
    let mut sessions = vec![session];
    let mut runtime = runtime();
    let (keep, _) = handle(
        &mut sessions,
        &mut runtime,
        DriverEvent::Error("trouble".to_owned()),
    );
    assert!(keep);
    assert_eq!(runtime.last_driver_error.as_deref(), Some("trouble"));
    let (keep, effects) = handle(&mut sessions, &mut runtime, DriverEvent::ProcessExited);
    assert!(!keep);
    assert_eq!(sessions[0].active_turn_id(), None);
    assert!(effects
        .iter()
        .any(|effect| matches!(effect, Effect::MarkBackgroundWorkLost)));
}

#[test]
fn stray_output_changes_nothing() {
    let mut sessions = vec![new_session(ProviderKind::Codex)];
    let mut runtime = runtime();
    handle(
        &mut sessions,
        &mut runtime,
        DriverEvent::TextDelta("late".to_owned()),
    );
    assert!(sessions[0].messages.is_empty());
}

#[test]
fn a_permission_waits_and_a_reply_resumes() {
    let mut session = new_session(ProviderKind::Codex);
    begin(&mut session, "go");
    session.status = SessionStatus::Working;
    let mut sessions = vec![session];
    let mut runtime = runtime();
    handle(
        &mut sessions,
        &mut runtime,
        DriverEvent::Permission(PendingPermission {
            request_id: "r".to_owned(),
            title: "Run?".to_owned(),
            detail: None,
            options: Vec::new(),
        }),
    );
    assert_eq!(sessions[0].status, SessionStatus::Waiting);
    assert!(runtime.pending_permission.is_some());
    respond_permission(&mut sessions[0], &mut runtime);
    assert!(runtime.pending_permission.is_none());
    assert_eq!(sessions[0].status, SessionStatus::Working);
}

#[test]
fn a_rejected_steer_is_told_and_queued() {
    let mut session = new_session(ProviderKind::Codex);
    begin(&mut session, "go");
    session.status = SessionStatus::Working;
    let mut sessions = vec![session];
    let mut runtime = runtime();
    runtime.pending_steers = vec![Submission::plain("also this".to_owned())];
    let (_, effects) = handle(
        &mut sessions,
        &mut runtime,
        DriverEvent::SteerRejected {
            message: "also this".to_owned(),
            reason: "busy".to_owned(),
        },
    );
    assert!(runtime.pending_steers.is_empty());
    assert!(effects
        .iter()
        .any(|effect| matches!(effect, Effect::ShowToast(text) if text == "Not steered: busy")));
    assert!(effects
        .iter()
        .any(|effect| matches!(effect, Effect::EnqueueFollowUp(message) if message.prompt == "also this")));
}

#[test]
fn a_failed_turn_settles_its_work_as_failed() {
    let mut session = new_session(ProviderKind::Codex);
    begin(&mut session, "go");
    session.status = SessionStatus::Working;
    let mut sessions = vec![session];
    let mut runtime = runtime();
    let (_, effects) = handle(
        &mut sessions,
        &mut runtime,
        DriverEvent::TurnFinished {
            success: false,
            summary: Some("no luck".to_owned()),
        },
    );
    assert_eq!(sessions[0].status, SessionStatus::Failed);
    assert!(effects.iter().any(|effect| matches!(
        effect,
        Effect::SettleForegroundWork(BackgroundWorkStatus::Failed)
    )));
}

fn preview(window_id: u32, phase: &str) -> ComputerUsePreview {
    ComputerUsePreview {
        target: Some(ComputerTarget {
            window_id,
            bundle_id: "app".to_owned(),
            app_name: "App".to_owned(),
            grant_key: "key".to_owned(),
            persistable: true,
        }),
        phase: phase.to_owned(),
        visible: true,
        screenshot: None,
    }
}

#[test]
fn previews_are_kept_one_for_each_window() {
    let mut previews = Vec::new();
    upsert_computer_use_preview(&mut previews, preview(1, "open"));
    upsert_computer_use_preview(&mut previews, preview(2, "open"));
    upsert_computer_use_preview(&mut previews, preview(1, "click"));
    assert_eq!(previews.len(), 2);
    let windows = |previews: &Vec<ComputerUsePreview>| {
        previews
            .iter()
            .map(|preview| preview.target.as_ref().map(|target| target.window_id))
            .collect::<Vec<_>>()
    };
    bring_computer_use_to_front(&mut previews, 2);
    assert_eq!(windows(&previews), vec![Some(1), Some(2)]);
    bring_computer_use_to_front(&mut previews, 1);
    assert_eq!(windows(&previews), vec![Some(2), Some(1)]);
    dismiss_computer_use(&mut previews, 2);
    assert!(previews
        .iter()
        .filter(|preview| preview.visible)
        .all(|preview| preview.target.as_ref().map(|target| target.window_id) == Some(1)));
}

#[test]
fn consent_for_an_application_is_given_once_or_for_good() {
    let ask = || PendingComputerApproval {
        request: "request".to_owned(),
        target: ComputerTarget {
            window_id: 1,
            bundle_id: "app".to_owned(),
            app_name: "App".to_owned(),
            grant_key: "key".to_owned(),
            persistable: true,
        },
    };
    let mut session = new_session(ProviderKind::Codex);
    session.status = SessionStatus::Waiting;
    let mut runtime = runtime();
    let mut grants: Vec<AppGrant> = Vec::new();
    assert!(matches!(
        respond_computer_permission(&mut session, &mut runtime, &mut grants, "always"),
        ComputerReply::Nothing
    ));
    runtime.pending_computer_approval = Some(ask());
    assert!(matches!(
        respond_computer_permission(&mut session, &mut runtime, &mut grants, "always"),
        ComputerReply::Run { save: true, .. }
    ));
    assert_eq!(grants.len(), 1);
    runtime.pending_computer_approval = Some(ask());
    assert!(matches!(
        respond_computer_permission(&mut session, &mut runtime, &mut grants, "deny"),
        ComputerReply::Reject { .. }
    ));
}

// ── Stopping ───────────────────────────────────────────────────────────────

#[test]
fn escape_goes_to_what_is_on_top() {
    let target = EscapeStopTarget {
        session_id: 1,
        turn_id: Some(2),
    };
    assert_eq!(
        cancel_turn_action(true, true, true, Some(target)),
        EscapeRoute::CancelSwitcher
    );
    assert_eq!(
        cancel_turn_action(false, true, true, Some(target)),
        EscapeRoute::CloseSettings
    );
    assert_eq!(
        cancel_turn_action(false, false, true, Some(target)),
        EscapeRoute::CancelMessageEdit
    );
    assert_eq!(
        cancel_turn_action(false, false, false, Some(target)),
        EscapeRoute::Confirm(target)
    );
    assert_eq!(
        cancel_turn_action(false, false, false, None),
        EscapeRoute::Stop
    );
}

#[test]
fn only_a_busy_session_is_stopped() {
    let mut session = new_session(ProviderKind::Claude);
    assert_eq!(selected_escape_stop_target(Some(&session), false), None);
    assert_eq!(selected_escape_stop_target(None, false), None);
    let turn_id = begin(&mut session, "go");
    session.status = SessionStatus::Working;
    assert_eq!(
        selected_escape_stop_target(Some(&session), false),
        Some(EscapeStopTarget {
            session_id: session.id,
            turn_id: Some(turn_id)
        })
    );
    assert_eq!(plan_stop(Some(&session), true, false), StopPlan::Ignored);
    assert_eq!(
        plan_stop(Some(&session), false, false),
        StopPlan::Stop {
            retain_runtime: true
        }
    );
    assert_eq!(runtime_fate(true, true), RuntimeFate::Keep);
    assert_eq!(runtime_fate(false, true), RuntimeFate::Close);
}

#[test]
fn a_stopped_turn_is_over_and_says_so() {
    let mut session = new_session(ProviderKind::Codex);
    begin(&mut session, "go");
    session.status = SessionStatus::Working;
    let mut runtime = runtime();
    runtime.pending_user_input = Some(PendingUserInput::new("r".to_owned(), Vec::new()));
    assert!(settle_stopped_session(&catalog(), &mut session, 77, 9));
    settle_stopped_runtime(&mut runtime);
    assert_eq!(session.status, SessionStatus::Idle);
    assert_eq!(session.turns[0].status, TurnStatus::Interrupted);
    assert_eq!(session.active_turn_id(), None);
    assert_eq!(session.messages[1].content, "Stopped");
    assert!(runtime.pending_user_input.is_none());
}

// ── Answers ────────────────────────────────────────────────────────────────

#[test]
fn questions_are_answered_one_after_the_other() {
    let mut session = new_session(ProviderKind::Claude);
    session.status = SessionStatus::Waiting;
    let mut runtime = runtime();
    runtime.pending_user_input = Some(PendingUserInput::new(
        "r".to_owned(),
        vec![question("a", vec!["Yes", "No"]), question("b", vec![])],
    ));
    assert!(matches!(
        advance_user_input(&mut session, &mut runtime),
        UserInputStep::Ignored
    ));
    select_user_input_option(&mut runtime, "Yes".to_owned());
    select_user_input_option(&mut runtime, "No".to_owned());
    assert!(matches!(
        advance_user_input(&mut session, &mut runtime),
        UserInputStep::Next
    ));
    assert!(previous_user_input(&mut runtime));
    assert!(!previous_user_input(&mut runtime));
    assert!(matches!(
        advance_user_input(&mut session, &mut runtime),
        UserInputStep::Next
    ));
    update_user_input_custom_answer(&mut runtime, "  ".to_owned());
    assert!(matches!(
        advance_user_input(&mut session, &mut runtime),
        UserInputStep::Ignored
    ));
    match submit_user_input_custom_answer(&mut session, &mut runtime, "soon".to_owned()) {
        UserInputStep::Send {
            request_id,
            answers,
        } => {
            assert_eq!(request_id, "r");
            assert_eq!(answers[0].answers, ["No"]);
            assert_eq!(answers[1].answers, ["soon"]);
        }
        _ => panic!("the last answer sends them all"),
    }
    assert!(runtime.pending_user_input.is_none());
    assert_eq!(session.status, SessionStatus::Working);
}

// ── Choices ────────────────────────────────────────────────────────────────

fn remembered() -> RememberedSettings {
    RememberedSettings {
        provider: ProviderKind::Codex,
        runtime_mode: RuntimeMode::FullAccess,
        model: None,
        reasoning_effort: None,
        service_tier: None,
        context_window: None,
    }
}

fn traits() -> ModelTraits {
    ModelTraits {
        reasoning_effort: Some("high".to_owned()),
        service_tier: None,
        context_window: None,
    }
}

#[test]
fn a_model_of_another_provider_restarts_the_runtime() {
    let mut session = new_session(ProviderKind::Codex);
    let mut settings = remembered();
    let mut picker = ModelPicker {
        tab: ModelPickerTab::Favorites,
        highlight: Some(1),
    };
    let current = Some("old".to_owned());
    assert!(matches!(
        begin_model_choice(&session, &current, false, ProviderKind::Claude, "m"),
        ModelChoiceStep::Unchanged
    ));
    // What the old model is used with is remembered first.
    session.service_tier = Some("fast".to_owned());
    match begin_model_choice(&session, &current, true, ProviderKind::Codex, "m") {
        ModelChoiceStep::Choose {
            remember: Some(used),
        } => {
            assert_eq!(used.provider, ProviderKind::Codex);
            assert_eq!(used.model, "old");
            assert_eq!(used.traits.service_tier.as_deref(), Some("fast"));
        }
        _ => panic!("the model is another one"),
    }
    assert_eq!(
        choose_model(
            &mut session,
            &mut settings,
            &mut picker,
            false,
            ProviderKind::Claude,
            "m".to_owned(),
            traits()
        ),
        ModelChoice::Unchanged
    );
    assert_eq!(picker.tab, ModelPickerTab::Favorites);
    assert_eq!(
        choose_model(
            &mut session,
            &mut settings,
            &mut picker,
            true,
            ProviderKind::Codex,
            "m".to_owned(),
            traits()
        ),
        ModelChoice::Apply
    );
    assert_eq!(session.reasoning_effort.as_deref(), Some("high"));
    assert_eq!(
        choose_model(
            &mut session,
            &mut settings,
            &mut picker,
            true,
            ProviderKind::Claude,
            "n".to_owned(),
            traits()
        ),
        ModelChoice::Restart
    );
    assert_eq!(session.provider, ProviderKind::Claude);
    assert_eq!(settings.provider, ProviderKind::Claude);
    assert_eq!(picker.tab, ModelPickerTab::Provider(ProviderKind::Claude));
    assert_eq!(picker.highlight, Some(1));
}

#[test]
fn favourites_are_toggled() {
    let mut favorites: Vec<FavoriteModel> = Vec::new();
    toggle_favorite_model(&mut favorites, ProviderKind::Codex, "m".to_owned());
    assert_eq!(favorites.len(), 1);
    toggle_favorite_model(&mut favorites, ProviderKind::Codex, "m".to_owned());
    assert!(favorites.is_empty());
}

#[test]
fn settings_of_a_session_change_once() {
    let mut session = new_session(ProviderKind::Codex);
    let mut settings = remembered();
    let model = Some("m".to_owned());
    let low = || "low".to_owned();
    let change = set_reasoning_effort(&mut session, &mut settings, &model, low());
    let used = change.and_then(|change| change.remember).expect("it is remembered");
    assert_eq!(used.model, "m");
    assert_eq!(used.traits.reasoning_effort.as_deref(), Some("low"));
    assert!(set_reasoning_effort(&mut session, &mut settings, &model, low()).is_none());
    let change = set_service_tier(&mut session, &mut settings, &None, "fast".to_owned());
    assert!(change.is_some_and(|change| change.remember.is_none()));
    assert!(set_context_window(&mut session, &mut settings, &model, "1m".to_owned()).is_some());
    assert_eq!(settings.context_window.as_deref(), Some("1m"));
    let change = set_runtime_mode(&mut session, &mut settings, RuntimeMode::Ask);
    assert!(change.apply && change.save);
    let offered = vec!["plan".to_owned()];
    assert!(!set_agent_preset(&mut session, &offered, true, "none".to_owned()));
    assert!(set_agent_preset(&mut session, &offered, true, "plan".to_owned()));
}

#[test]
fn going_back_closes_the_settings_first() {
    let mut navigation = SessionNavigation::new();
    navigation.visit(Some(1), 2);
    assert_eq!(
        navigate_back_action(true, Some(2), &navigation),
        NavigationStep::CloseSettings
    );
    assert_eq!(
        navigate_back_action(false, Some(2), &navigation),
        NavigationStep::Request { target: 1, from: 2 }
    );
    assert_eq!(
        navigate_forward_action(false, Some(2), &navigation),
        NavigationStep::Nothing
    );
}

#[test]
fn a_full_screen_is_not_remembered_as_a_size() {
    let frame = Frame {
        x: 0,
        y: 0,
        width: 64_000,
        height: 32_000,
    };
    let small = Frame {
        x: 64,
        y: 64,
        width: 32_000,
        height: 16_000,
    };
    let captured = capture_window_state(None, true, WindowBounds::Windowed(small), false, Some(3));
    assert_eq!(
        captured,
        Some(PersistedWindowState {
            frame: small,
            maximized: false,
            display: Some(3)
        })
    );
    let kept = capture_window_state(captured, true, WindowBounds::Fullscreen(frame), false, Some(3));
    assert_eq!(kept.map(|state| state.frame), Some(small));
}

// ── Tasks ──────────────────────────────────────────────────────────────────

fn selection(selected: Option<Id>) -> TaskSelection {
    TaskSelection {
        selected_session: selected,
        selected_project: None,
        pending: None,
        hydrating: Vec::new(),
        navigation: SessionNavigation::new(),
    }
}

#[test]
fn a_session_is_loaded_before_it_is_shown() {
    let mut first = new_session(ProviderKind::Codex);
    first.detail_loaded = true;
    let mut second = new_session(ProviderKind::Codex);
    second.detail_loaded = false;
    let (first_id, second_id) = (first.id, second.id);
    let mut sessions = vec![first, second];
    let mut selection = selection(Some(first_id));
    let visit = SessionActivationTransition::Visit;
    assert_eq!(
        selection.request_session_activation(&sessions, new_id(), visit),
        ActivationStep::Ignored
    );
    assert_eq!(
        selection.request_session_activation(&sessions, second_id, visit),
        ActivationStep::Waiting { load: true }
    );
    assert_eq!(
        selection.request_session_activation(&sessions, second_id, visit),
        ActivationStep::Waiting { load: false }
    );
    let mut loaded = AgentSession::new(second_id, 4, ProviderKind::Codex, 1);
    loaded.detail_loaded = true;
    assert_eq!(
        selection.finish_hydration(&mut sessions, second_id, Some(loaded)),
        HydrationStep::Activate
    );
    let mut settings = remembered();
    let activated = activate_session(&mut selection, &mut settings, &sessions, second_id);
    assert!(activated.session_changed);
    assert_eq!(selection.selected_session, Some(second_id));
}

#[test]
fn a_draft_of_the_project_is_used_again() {
    let project = new_id();
    let mut sessions = Vec::new();
    let first = create_session_for(
        &mut sessions,
        None,
        project,
        ProviderKind::Codex,
        RuntimeMode::Ask,
        11,
        1,
    );
    assert_eq!(first, 11);
    let again = create_session_for(
        &mut sessions,
        Some(11),
        project,
        ProviderKind::Codex,
        RuntimeMode::Ask,
        12,
        2,
    );
    assert_eq!(again, 11);
    assert_eq!(sessions.len(), 1);
}

#[test]
fn a_removed_session_makes_room_for_another_of_its_project() {
    let project = new_id();
    let mut first = AgentSession::new(1, project, ProviderKind::Codex, 1);
    begin(&mut first, "a");
    let mut second = AgentSession::new(2, project, ProviderKind::Codex, 1);
    begin(&mut second, "b");
    let mut sessions = vec![first, second];
    let mut projects = vec![ProjectKind {
        id: project,
        projectless: false,
        legacy_root: false,
    }];
    let mut selection = selection(Some(1));
    assert_eq!(
        remove_session(&mut sessions, &mut projects, &mut selection, 1, true),
        Removal::Busy
    );
    assert_eq!(
        remove_session(&mut sessions, &mut projects, &mut selection, 9, false),
        Removal::Unknown
    );
    assert_eq!(
        remove_session(&mut sessions, &mut projects, &mut selection, 1, false),
        Removal::Removed {
            project_dropped: false,
            next: Successor::Select(2)
        }
    );
    assert_eq!(sessions.len(), 1);
}

#[test]
fn a_new_task_goes_where_the_current_one_is() {
    let navigation = SessionNavigation::new();
    let sessions = Vec::new();
    assert_eq!(
        new_session_action(&navigation, &sessions, None),
        NewTask::Projectless
    );
    let project = ProjectKind {
        id: 5,
        projectless: false,
        legacy_root: false,
    };
    assert_eq!(
        new_session_action(&navigation, &sessions, Some(project)),
        NewTask::InProject(5)
    );
    assert_eq!(find_projectless_draft(&sessions, &vec![project]), None);
    assert_eq!(find_project_at_path(&Vec::new(), "/tmp"), None);
    let mut session = new_session(ProviderKind::Codex);
    assert!(can_select_workspace(&session, false));
    assert!(!can_select_workspace(&session, true));
    begin(&mut session, "go");
    assert!(!can_select_workspace(&session, false));
}

fn project(id: Id, path: &str) -> Project {
    Project {
        id,
        name: "waku".to_owned(),
        path: path.to_owned(),
        created_at: 1,
    }
}

#[test]
fn a_directory_becomes_one_project() {
    let mut projects = Vec::new();
    assert_eq!(
        add_project(&mut projects, false, project(1, "/tmp/waku")),
        AddedProject::New(1)
    );
    assert_eq!(
        add_project(&mut projects, false, project(2, "/tmp/waku")),
        AddedProject::Existing(1)
    );
    assert_eq!(
        add_project(&mut projects, true, project(3, "/tmp/other")),
        AddedProject::Refused
    );
    assert_eq!(projects.len(), 1);
    assert_eq!(find_project_at_path(&projects, "/tmp/waku"), Some(1));
    // Another spelling of the same directory is no other project.
    assert_eq!(
        add_project(&mut projects, false, project(4, "/tmp//./waku/")),
        AddedProject::Existing(1)
    );
    assert_eq!(
        add_project(&mut projects, false, project(5, "/tmp/waku/src")),
        AddedProject::New(5)
    );
}

#[test]
fn no_local_picker_opens_for_tasks_on_another_machine() {
    assert_eq!(project_picker(true), PickerStep::Refuse);
    assert_eq!(project_picker(false), PickerStep::Open);
    let catalog = catalog();
    assert_eq!(
        project_picker(true).toast(&catalog).as_deref(),
        Some("errors.remote_project_picker")
    );
    assert_eq!(project_picker(false).toast(&catalog), None);
}

#[test]
fn only_turns_in_projects_are_remembered() {
    let mut session = new_session(ProviderKind::Codex);
    let home = project(session.project_id, "/tmp/waku");
    let asked = |session: &AgentSession, home: Option<&Project>, loose, binary: Option<&str>| {
        memory_extraction(session, home, loose, binary.map(str::to_owned), 100)
    };
    assert!(asked(&session, Some(&home), false, Some("/bin/codex")).is_none());
    begin(&mut session, "remember the port");
    let extraction = asked(&session, Some(&home), false, Some("/bin/codex")).expect("asked");
    assert_eq!(extraction.project, "/tmp/waku");
    assert_eq!(extraction.binary, "/bin/codex");
    assert_eq!(
        extraction.excerpt,
        "User:\nremember the port\n\nAssistant:\n"
    );
    assert!(asked(&session, Some(&home), true, Some("/bin/codex")).is_none());
    assert!(asked(&session, None, false, Some("/bin/codex")).is_none());
    assert!(asked(&session, Some(&home), false, None).is_none());
}

#[test]
fn another_tab_of_the_picker_starts_afresh() {
    let mut picker = ModelPicker {
        tab: ModelPickerTab::Favorites,
        highlight: Some(3),
    };
    assert!(!select_model_picker_tab(&mut picker, ModelPickerTab::Favorites));
    assert_eq!(picker.highlight, Some(3));
    let codex = ModelPickerTab::Provider(ProviderKind::Codex);
    assert!(select_model_picker_tab(&mut picker, codex));
    assert_eq!(picker.highlight, None);
    assert_eq!(picker.tab, ModelPickerTab::Provider(ProviderKind::Codex));
    assert!(select_model_picker_tab(&mut picker, ModelPickerTab::Favorites));
    assert_eq!(picker.tab, ModelPickerTab::Favorites);
}

#[test]
fn the_picker_closes_the_other_menus() {
    let menu = |picker, open| Menu { picker, open };
    let menus = vec![menu(false, true), menu(true, true), menu(false, false)];
    assert_eq!(toggle_model_picker_action(false, true, &menus), Some(vec![0]));
    assert_eq!(toggle_model_picker_action(true, true, &menus), None);
    assert_eq!(toggle_model_picker_action(false, false, &menus), None);
    assert_eq!(
        toggle_model_picker_action(false, true, &vec![menu(false, true)]),
        None
    );
}

#[test]
fn the_field_shows_the_answer_to_the_question_on_screen() {
    let mut pending = PendingUserInput::new(
        "request".to_owned(),
        vec![question("first", vec!["Yes"]), question("second", Vec::new())],
    );
    assert_eq!(pending.current_answer(), "");
    pending
        .custom_answers
        .insert("first".to_owned(), "Perhaps".to_owned());
    assert_eq!(pending.current_answer(), "Perhaps");
    assert_eq!(pending.advance(), Advance::Next);
    assert_eq!(pending.current_answer(), "");
}

#[test]
fn an_error_takes_back_a_pursuit_that_was_not_confirmed() {
    let error = || DriverEvent::Error("no goal".to_owned());
    let opened = || {
        let mut session = new_session(ProviderKind::Codex);
        session.begin_provider_turn(new_id(), 1);
        session.status = SessionStatus::Connecting;
        session
    };
    let session = opened();
    let id = session.id;
    let mut sessions = vec![session];
    let mut pursuing = context();
    pursuing.pursuit = true;
    let result = handle_driver_event(
        &pursuing,
        &catalog(),
        &HashSet::new(),
        &mut sessions,
        id,
        &mut runtime(),
        error(),
    );
    assert!(result.keep);
    assert_eq!(sessions[0].status, SessionStatus::Idle);
    assert!(sessions[0].turns.is_empty());
    assert!(sessions[0].messages.is_empty());
    // Any other turn fails with the error.
    let session = opened();
    let id = session.id;
    let mut sessions = vec![session];
    handle_driver_event(
        &context(),
        &catalog(),
        &HashSet::new(),
        &mut sessions,
        id,
        &mut runtime(),
        error(),
    );
    assert_eq!(sessions[0].status, SessionStatus::Failed);
    assert_eq!(sessions[0].messages[0].content, "no goal");
    assert_eq!(sessions[0].turns.len(), 1);
}

fn fresh_ids(count: usize) -> Vec<FreshIds> {
    (0..count)
        .map(|_| FreshIds {
            message: new_id(),
            turn: new_id(),
        })
        .collect()
}

#[test]
fn a_stop_shows_what_was_received_and_starts_nothing_queued() {
    let mut session = new_session(ProviderKind::Codex);
    begin(&mut session, "go");
    session.status = SessionStatus::Working;
    let mut events = VecDeque::from([
        DriverEvent::TextDelta("half an ".to_owned()),
        DriverEvent::TextDelta("answer".to_owned()),
        DriverEvent::TurnFinished {
            success: true,
            summary: None,
        },
    ]);
    let result = take_buffered_events(
        context(),
        &catalog(),
        &HashSet::new(),
        &mut session,
        &mut runtime(),
        &mut events,
        &fresh_ids(3),
    );
    assert!(result.keep);
    assert!(events.is_empty());
    assert_eq!(session.messages[1].content, "half an answer");
    assert_eq!(session.active_turn_id(), None);
    assert!(!result
        .effects
        .iter()
        .any(|effect| matches!(effect, Effect::DrainQueue)));
}

#[test]
fn an_exit_ends_the_events_of_a_stop() {
    let mut session = new_session(ProviderKind::Codex);
    begin(&mut session, "go");
    session.status = SessionStatus::Working;
    let mut events = VecDeque::from([
        DriverEvent::ProcessExited,
        DriverEvent::TextDelta("late".to_owned()),
    ]);
    let result = take_buffered_events(
        context(),
        &catalog(),
        &HashSet::new(),
        &mut session,
        &mut runtime(),
        &mut events,
        &fresh_ids(2),
    );
    assert!(!result.keep);
    assert_eq!(events.len(), 1);
    let mut none = VecDeque::new();
    assert!(take_buffered_event(
        &mut context(),
        &catalog(),
        &HashSet::new(),
        &mut session,
        &mut runtime(),
        &mut none,
        fresh_ids(1)[0],
    )
    .is_none());
}

#[test]
fn a_stop_drops_what_waits_behind_the_turn() {
    let mut goals = HashMap::from([(1, "set"), (2, "set")]);
    let mut drains = vec![2, 1, 3, 1];
    drop_goal_operations(&mut goals, 1);
    drop_queue_drains(&mut drains, 1);
    assert_eq!(goals.keys().copied().collect::<Vec<Id>>(), vec![2]);
    assert_eq!(drains, vec![2, 3]);
}

fn stop_names(effects: &[StopEffect]) -> Vec<&'static str> {
    effects
        .iter()
        .map(|effect| match effect {
            StopEffect::DropGoalOperations => "goals",
            StopEffect::CancelDriver => "cancel",
            StopEffect::Apply(Effect::CancelComputerUse) => "computer",
            StopEffect::Apply(Effect::SettleForegroundWork(BackgroundWorkStatus::Stopped)) => {
                "stopped"
            }
            StopEffect::Apply(Effect::CaptureCheckpoint) => "checkpoint",
            StopEffect::Apply(Effect::SpliceRows(_)) => "splice",
            StopEffect::Apply(_) => "received",
            StopEffect::DropQueueDrains => "drains",
            StopEffect::KeepRuntime => "keep",
            StopEffect::CloseRuntime => "close",
            StopEffect::RemeasureTail => "remeasure",
            StopEffect::Save => "save",
        })
        .collect()
}

fn running(provider: ProviderKind) -> AgentSession {
    let mut session = new_session(provider);
    begin(&mut session, "go");
    session.status = SessionStatus::Working;
    session
}

#[test]
fn a_stop_goes_through_its_steps_in_order() {
    let mut session = running(ProviderKind::Codex);
    let mut events = VecDeque::from([DriverEvent::TextDelta("half".to_owned())]);
    let effects = stop_turn(
        context(),
        &catalog(),
        &HashSet::new(),
        &mut session,
        &mut runtime(),
        &mut events,
        &fresh_ids(1),
        new_id(),
        false,
    );
    let names = stop_names(&effects);
    assert_eq!(names[..4], ["goals", "cancel", "received", "drains"]);
    assert_eq!(names[4..6], ["stopped", "checkpoint"]);
    assert_eq!(names[names.len() - 3..], ["close", "remeasure", "save"]);
    assert_eq!(session.status, SessionStatus::Idle);
    assert_eq!(session.active_turn_id(), None);
    assert_eq!(session.messages[1].content, "half");
    assert!(!session.messages[1].streaming);
    // Detached work keeps the runtime, without what it does elsewhere.
    let effects = stop_turn(
        context(),
        &catalog(),
        &HashSet::new(),
        &mut running(ProviderKind::Codex),
        &mut runtime(),
        &mut VecDeque::new(),
        &Vec::new(),
        new_id(),
        true,
    );
    let names = stop_names(&effects);
    assert_eq!(names[..4], ["goals", "cancel", "computer", "drains"]);
    assert_eq!(names[names.len() - 3..], ["keep", "remeasure", "save"]);
}

#[test]
fn a_stop_waits_for_the_prompt_and_needs_no_runtime() {
    let mut preparing = context();
    preparing.preparing = true;
    let mut session = running(ProviderKind::Codex);
    assert!(stop_turn_without_runtime(
        &preparing,
        &catalog(),
        &HashSet::new(),
        &mut session,
        new_id()
    )
    .is_empty());
    assert!(session.active_turn_id().is_some());
    let effects = stop_turn_without_runtime(
        &context(),
        &catalog(),
        &HashSet::new(),
        &mut session,
        new_id(),
    );
    let names = stop_names(&effects);
    assert_eq!(names[..3], ["goals", "drains", "stopped"]);
    assert!(!names.contains(&"close"));
    assert_eq!(session.messages[1].content, "Stopped");
}

#[test]
fn a_task_without_a_project_takes_up_a_draft_or_a_workspace() {
    let draft = new_session(ProviderKind::Codex);
    let kind = ProjectKind {
        id: draft.project_id,
        projectless: true,
        legacy_root: false,
    };
    let id = draft.id;
    assert_eq!(
        create_projectless_session(&vec![draft], &vec![kind]),
        ProjectlessStep::Open(id)
    );
    assert_eq!(
        create_projectless_session(&Vec::new(), &vec![kind]),
        ProjectlessStep::CreateWorkspace
    );
    let texts = Catalog {
        entries: vec![Entry {
            key: "errors.create_projectless_task".to_owned(),
            template: "No task: %{error}".to_owned(),
        }],
    };
    let mut projects = Vec::new();
    let created = WorkspaceReply::Created {
        project: project(7, "/loose/1"),
    };
    assert_eq!(
        finish_projectless_workspace(&texts, &mut projects, created),
        Ok(7)
    );
    assert_eq!(projects.len(), 1);
    assert_eq!(
        finish_projectless_workspace(&texts, &mut projects, WorkspaceReply::Other),
        Err("No task: the daemon returned an invalid projectless response".to_owned())
    );
    let failed = WorkspaceReply::Failed {
        error: "gone".to_owned(),
    };
    assert_eq!(
        finish_projectless_workspace(&texts, &mut projects, failed),
        Err("No task: gone".to_owned())
    );
    assert_eq!(projects.len(), 1);
}
