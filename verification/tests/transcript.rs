use std::collections::HashSet;
use waku::cache::{
    remeasure_changed_files, remeasure_transcript_row, selected_transcript_anchor_row,
    TranscriptAnchor, TranscriptCache,
};
use waku::layout::RowRange;
use waku::model::{
    ActivityItem, ActivityKind, Checkpoint, CheckpointFile, CheckpointStatus, Id, MessageRole,
    ProviderKind, ReasoningBlock, SessionStatus, TranscriptBlock, TurnStatus,
};
use waku::model::Message as Text;
use waku::navigation::{
    active_navigation_turn_index, navigation_preview_snippet, transcript_navigation_turns,
    TranscriptNavigationTurn,
};
use waku::response::{
    assistant_response_footer, assistant_response_footer_index, assistant_response_footer_time,
    message_opens_turn, message_starts_followup_turn,
};
use waku::session::AgentSession;
use waku::streaming::append_text_delta_to_session;
use waku::transcript::TranscriptRowKind::{
    ChangedFiles, Message, ResponseFooter, TurnBlock, TurnFold, WorkingIndicator,
};
use waku::transcript::{
    folded_transcript_row_kinds, mix, response_footer_message_index, response_row_turn_id,
    row_turn_id, transcript_row_kinds, transcript_row_splice, transcript_rows_fingerprint,
    turn_answer_start, turn_rows, RowSplice, TranscriptRowKind, EMPTY_TRANSCRIPT_FINGERPRINT,
};

fn new_id() -> Id {
    uuid::Uuid::new_v4().as_u128()
}

fn new_session() -> AgentSession {
    AgentSession::new(new_id(), new_id(), ProviderKind::Codex, 1)
}

fn begin(session: &mut AgentSession, prompt: &str) -> Id {
    let turn_id = new_id();
    session.begin_turn(prompt.to_owned(), new_id(), turn_id, 1);
    turn_id
}

fn say(session: &mut AgentSession, text: &str) {
    session.push_message(new_id(), MessageRole::Assistant, text.to_owned(), 1);
}

fn finish(session: &mut AgentSession, status: TurnStatus) {
    session.finish_active_turn(status, 2);
}

fn thought(content: &str, complete: bool) -> ActivityItem {
    ActivityItem::from_reasoning(
        new_id(),
        "Thinking".to_owned(),
        ReasoningBlock {
            content: content.to_owned(),
            started_at_ms: 1_000,
            finished_at_ms: 2_000,
        },
        complete,
    )
}

fn command(title: &str, complete: bool) -> ActivityItem {
    ActivityItem::new(
        new_id(),
        None,
        ActivityKind::Command,
        title.to_owned(),
        false,
        false,
        None,
        complete,
    )
}

fn block(after_message: usize, turn_id: Id, activities: Vec<ActivityItem>) -> TranscriptBlock {
    TranscriptBlock {
        after_message,
        turn_id: Some(turn_id),
        activities,
    }
}

fn attach_changed_files(session: &mut AgentSession, paths: Vec<&str>) {
    let turn = session.turns.last_mut().expect("the test has a turn");
    turn.checkpoint = Some(Checkpoint {
        status: CheckpointStatus::Ready,
        files: paths
            .into_iter()
            .map(|path| CheckpointFile {
                path: path.to_owned(),
                additions: 2,
                deletions: 1,
            })
            .collect(),
    });
}

fn folded(session: &AgentSession) -> Vec<TranscriptRowKind> {
    folded_transcript_row_kinds(session, &HashSet::new())
}

fn expanded(session: &AgentSession, turn_id: Id) -> Vec<TranscriptRowKind> {
    folded_transcript_row_kinds(session, &HashSet::from([turn_id]))
}

fn fingerprint(session: &AgentSession) -> u64 {
    transcript_rows_fingerprint(session, &HashSet::new())
}

#[test]
fn conversation_navigation_active_turn_follows_the_scroll_top_and_tail() {
    let turn_rows = vec![0, 4, 9];
    assert_eq!(active_navigation_turn_index(&turn_rows, 0, false), Some(0));
    assert_eq!(active_navigation_turn_index(&turn_rows, 3, false), Some(0));
    assert_eq!(active_navigation_turn_index(&turn_rows, 4, false), Some(1));
    assert_eq!(active_navigation_turn_index(&turn_rows, 8, false), Some(1));
    assert_eq!(active_navigation_turn_index(&turn_rows, 4, true), Some(2));
    assert_eq!(active_navigation_turn_index(&vec![], 0, false), None);
}

#[test]
fn conversation_navigation_preview_uses_each_prompt_and_latest_response() {
    let mut session = new_session();
    begin(&mut session, "  First\n\nprompt  ");
    say(&mut session, "Interim update");
    say(&mut session, "Final answer");
    finish(&mut session, TurnStatus::Completed);
    begin(&mut session, "Second prompt");
    let rows = vec![Message(0), Message(1), Message(2), Message(3)];

    let turns = transcript_navigation_turns(&session, &rows);
    assert_eq!(turns.len(), 2);
    assert_eq!(turns[0].message_index, 0);
    assert_eq!(turns[0].row_index, 0);
    assert_eq!(turns[0].prompt, "First prompt");
    assert_eq!(turns[0].response, "Final answer");
    assert_eq!(turns[1].row_index, 3);
    assert!(turns[1].response.is_empty());
    assert_eq!(
        navigation_preview_snippet("one   two\nthree", 20),
        "one two three"
    );
}

#[test]
fn conversation_navigation_preview_does_not_change_during_a_running_turn() {
    let mut session = new_session();
    let session_id = session.id;
    begin(&mut session, "Streaming prompt");
    let mut sessions = vec![session];
    append_text_delta_to_session(
        &mut sessions,
        session_id,
        false,
        "Partial".to_owned(),
        new_id(),
        1,
    );
    let rows = vec![Message(0), Message(1)];
    let before = transcript_navigation_turns(&sessions[0], &rows);

    append_text_delta_to_session(
        &mut sessions,
        session_id,
        true,
        " response".to_owned(),
        new_id(),
        1,
    );
    let during = transcript_navigation_turns(&sessions[0], &rows);

    let fields = |turns: &Vec<TranscriptNavigationTurn>| {
        turns
            .iter()
            .map(|turn| {
                (
                    turn.message_id,
                    turn.message_index,
                    turn.row_index,
                    turn.prompt.clone(),
                    turn.response.clone(),
                )
            })
            .collect::<Vec<_>>()
    };
    assert_eq!(fields(&before), fields(&during));
    assert_eq!(during[0].response, "");

    finish(&mut sessions[0], TurnStatus::Completed);
    let completed = transcript_navigation_turns(&sessions[0], &rows);
    assert_eq!(completed[0].response, "Partial response");
}

#[test]
fn settling_an_anchored_turn_splices_without_resetting_its_prompt() {
    let mut session = new_session();
    begin(&mut session, "hi");
    say(&mut session, "Hello.");
    finish(&mut session, TurnStatus::Completed);

    let turn_id = begin(&mut session, "give me a quick overview");
    session.status = SessionStatus::Working;
    let after = session.messages.len();
    session.transcript_blocks.push(block(
        after,
        turn_id,
        vec![thought("Inspecting the project", true)],
    ));
    say(&mut session, "Here is the overview.");

    let running = folded(&session);
    let anchor_row = running
        .iter()
        .position(|kind| *kind == Message(2))
        .expect("the second prompt is visible");

    session.status = SessionStatus::Idle;
    finish(&mut session, TurnStatus::Completed);
    let settled = folded(&session);
    let splice = transcript_row_splice(&running, &settled)
        .expect("settlement folds the live work and removes its working row");

    assert!(
        splice.start > anchor_row,
        "only rows after the anchored prompt should be folded"
    );
    assert_eq!(
        running.len() - (splice.old_end - splice.start) + splice.new_count,
        settled.len()
    );
    // The rows up to the splice, the anchored prompt among them, stay.
    assert_eq!(running[..splice.start], settled[..splice.start]);
    let anchor = Some(TranscriptAnchor {
        session_id: session.id,
        turn_id,
    });
    assert_eq!(
        selected_transcript_anchor_row(anchor, Some(&session), &settled),
        Some(anchor_row),
        "an exact settlement splice must retain the sent-row anchor"
    );
}

#[test]
fn only_later_user_messages_start_followup_turns() {
    let message =
        |role: MessageRole, content: &str| Text::new(new_id(), role, content.to_owned(), None, 1);
    let messages = vec![
        message(MessageRole::User, "first"),
        message(MessageRole::Assistant, "answer"),
        message(MessageRole::User, "follow-up"),
        message(MessageRole::Assistant, "answer"),
    ];
    assert!(!message_starts_followup_turn(&messages, 0));
    assert!(!message_starts_followup_turn(&messages, 1));
    assert!(message_starts_followup_turn(&messages, 2));
    assert!(!message_starts_followup_turn(&messages, 3));
}

#[test]
fn only_the_turn_opening_prompt_is_a_rewind_boundary() {
    let mut session = new_session();
    begin(&mut session, "first prompt");
    say(&mut session, "working on it");
    // A steer the provider folded into the live turn.
    session.push_user_message_with_presentation(
        new_id(),
        "actually, also this".to_owned(),
        None,
        Vec::new(),
        1,
    );
    say(&mut session, "answer");
    finish(&mut session, TurnStatus::Interrupted);
    begin(&mut session, "second prompt");

    assert!(message_opens_turn(&session.messages, 0));
    assert!(!message_opens_turn(&session.messages, 1));
    assert!(
        !message_opens_turn(&session.messages, 2),
        "a steer shares the turn's checkpoint, so it cannot be rewound to on its own"
    );
    assert!(!message_opens_turn(&session.messages, 3));
    assert!(message_opens_turn(&session.messages, 4));
}

#[test]
fn turn_blocks_keep_their_message_boundaries() {
    // user, assistant text, tool row, assistant text, reasoning row,
    // assistant text
    let rows = transcript_row_kinds(4, &vec![2, 3]);
    assert_eq!(
        rows,
        vec![
            Message(0),
            Message(1),
            TurnBlock(0),
            Message(2),
            TurnBlock(1),
            Message(3)
        ]
    );
}

#[test]
fn blocks_follow_the_latest_message_without_a_reply() {
    let rows = transcript_row_kinds(2, &vec![2]);
    assert_eq!(rows, vec![Message(0), Message(1), TurnBlock(0)]);
}

#[test]
fn plain_transcript_maps_one_to_one() {
    let rows = transcript_row_kinds(4, &vec![]);
    assert_eq!(rows, vec![Message(0), Message(1), Message(2), Message(3)]);
}

#[test]
fn multiple_blocks_at_one_boundary_preserve_event_order() {
    let rows = transcript_row_kinds(2, &vec![1, 1]);
    assert_eq!(
        rows,
        vec![Message(0), TurnBlock(0), TurnBlock(1), Message(1)]
    );
}

#[test]
fn row_kinds_and_row_count_describe_the_same_rows() {
    let mut session = new_session();
    let turn_id = begin(&mut session, "Build it");
    session.transcript_blocks.push(block(
        1,
        turn_id,
        vec![thought("Looking around", true), command("Ran tests", true)],
    ));
    say(&mut session, "Done.");
    finish(&mut session, TurnStatus::Completed);

    let kinds = expanded(&session, turn_id);
    // The work the agent did must be reachable by index, not just counted.
    assert!(
        kinds.iter().any(|kind| matches!(kind, TurnBlock(_))),
        "reasoning and activity must survive into the rendered rows: {kinds:?}"
    );
    assert_eq!(
        kinds
            .iter()
            .filter(|kind| matches!(kind, TurnBlock(_)))
            .count(),
        1,
        "reasoning and tools share one activity cluster: {kinds:?}"
    );
    // Every index below the count resolves to a real row.
    let mut cache = TranscriptCache::new();
    let count = cache.refresh_transcript_row_kinds(Some(&session), &HashSet::from([turn_id]));
    assert_eq!(count, kinds.len());
    for index in 0..kinds.len() {
        assert!(kinds.get(index).is_some());
    }
    // Collapsed, that same work is one fold row — reachable, not lost.
    assert_eq!(
        folded(&session),
        vec![
            Message(0),
            TurnFold(turn_id),
            Message(1),
            ResponseFooter(turn_id, 1),
        ]
    );
}

#[test]
fn changed_files_attach_to_the_response_footer() {
    let mut session = new_session();
    let first_turn = begin(&mut session, "Build it");
    say(&mut session, "Done.");
    finish(&mut session, TurnStatus::Completed);
    attach_changed_files(&mut session, vec!["src/app.rs"]);

    begin(&mut session, "One more thing");
    session.status = SessionStatus::Connecting;

    assert_eq!(
        folded(&session),
        vec![
            Message(0),
            Message(1),
            ResponseFooter(first_turn, 1),
            Message(2),
            WorkingIndicator,
        ],
        "the footer containing the card must remain before the next prompt"
    );
    assert_eq!(response_footer_message_index(&session, first_turn), Some(1));
}

#[test]
fn response_hover_owns_every_response_row_but_not_the_prompt() {
    let mut session = new_session();
    let turn_id = begin(&mut session, "Build it");
    session.transcript_blocks.push(block(
        1,
        turn_id,
        vec![command("Inspected the project", true)],
    ));
    say(&mut session, "Done.");
    finish(&mut session, TurnStatus::Completed);

    assert_eq!(response_row_turn_id(&session, Message(0)), None);
    for row in [
        TurnBlock(0),
        TurnFold(turn_id),
        Message(1),
        ResponseFooter(turn_id, 1),
        ChangedFiles(turn_id),
    ] {
        assert_eq!(response_row_turn_id(&session, row), Some(turn_id));
    }
    assert_eq!(response_row_turn_id(&session, WorkingIndicator), None);
}

#[test]
fn changed_files_remain_visible_when_an_interrupted_turn_has_no_answer() {
    let mut session = new_session();
    let turn_id = begin(&mut session, "Make the change");
    session
        .transcript_blocks
        .push(block(1, turn_id, vec![command("Edited a file", true)]));
    say(&mut session, "");
    finish(&mut session, TurnStatus::Interrupted);
    attach_changed_files(&mut session, vec!["src/lib.rs"]);

    assert_eq!(
        folded(&session),
        vec![Message(0), TurnFold(turn_id), ChangedFiles(turn_id)]
    );
    assert_eq!(
        expanded(&session, turn_id),
        vec![
            Message(0),
            TurnFold(turn_id),
            TurnBlock(0),
            Message(1),
            ChangedFiles(turn_id),
        ]
    );
    assert_eq!(response_footer_message_index(&session, turn_id), None);
}

#[test]
fn changed_files_surface_appears_only_for_a_ready_nonempty_checkpoint() {
    let mut session = new_session();
    let turn_id = begin(&mut session, "Build it");
    say(&mut session, "Done.");
    finish(&mut session, TurnStatus::Completed);

    attach_changed_files(&mut session, Vec::new());
    assert!(!folded(&session).contains(&ChangedFiles(turn_id)));

    attach_changed_files(&mut session, vec!["src/main.rs"]);
    assert_eq!(response_footer_message_index(&session, turn_id), Some(1));
    assert!(
        !folded(&session).contains(&ChangedFiles(turn_id)),
        "a response with visible text hosts the card inside its footer"
    );
    session.turns[0]
        .checkpoint
        .as_mut()
        .expect("checkpoint")
        .status = CheckpointStatus::Unavailable;
    assert!(!folded(&session).contains(&ChangedFiles(turn_id)));
    assert_eq!(response_footer_message_index(&session, turn_id), Some(1));
}

#[test]
fn checkpoint_completion_invalidates_the_cached_transcript_rows() {
    let mut session = new_session();
    let turn_id = begin(&mut session, "Build it");
    say(&mut session, "Done.");
    finish(&mut session, TurnStatus::Completed);
    let before = fingerprint(&session);

    attach_changed_files(&mut session, vec!["src/main.rs"]);

    assert_ne!(fingerprint(&session), before);
    assert_eq!(response_footer_message_index(&session, turn_id), Some(1));
    assert!(
        !folded(&session).contains(&ChangedFiles(turn_id)),
        "checkpoint completion changes the existing footer row's height"
    );
}

#[test]
fn an_inline_checkpoint_keeps_followup_row_identity() {
    let turn_id = new_id();
    let previous = vec![
        Message(0),
        Message(1),
        ResponseFooter(turn_id, 1),
        Message(2),
        WorkingIndicator,
    ];
    let with_checkpoint = previous.clone();

    assert_eq!(
        transcript_row_splice(&previous, &with_checkpoint),
        None,
        "the card remeasures its footer instead of shifting the following prompt"
    );
}

fn worked_session(session_id: Id, turn_id: Id) -> AgentSession {
    let mut session = AgentSession::new(session_id, 2, ProviderKind::Codex, 1);
    session.begin_turn("Build it".to_owned(), 3, turn_id, 1);
    session
        .transcript_blocks
        .push(block(1, turn_id, vec![thought("Looking around", true)]));
    say(&mut session, "I found the relevant code.");
    session
        .transcript_blocks
        .push(block(2, turn_id, vec![command("Ran tests", true)]));
    say(&mut session, "Done. The change is ready.");
    finish(&mut session, TurnStatus::Completed);
    session
}

#[test]
fn the_row_fingerprint_moves_whenever_the_fold_does() {
    let session_id = new_id();
    let turn_id = new_id();
    let base = worked_session(session_id, turn_id);

    let settled = HashSet::new();
    // Both states, because a mutation inside the fold only moves rows once the
    // reader opens it — and those rows have to be right when they do.
    let rows = |session: &AgentSession| (folded(session), expanded(session, turn_id));
    let baseline_rows = rows(&base);
    let baseline_fingerprint = transcript_rows_fingerprint(&base, &settled);

    // Expansion lives outside the session, so check it against the same base.
    assert_ne!(
        transcript_rows_fingerprint(&base, &HashSet::from([turn_id])),
        baseline_fingerprint,
        "expanding a turn fold"
    );

    let mutations: Vec<(&str, fn(&mut AgentSession))> = vec![
        ("a new message", |session| {
            session.push_message(
                new_id(),
                MessageRole::User,
                "One more thing".to_owned(),
                1,
            );
        }),
        ("a new transcript block", |session| {
            let turn = session.turns[0].id;
            let after = session.messages.len();
            session
                .transcript_blocks
                .push(block(after, turn, vec![command("Ran tests", true)]));
        }),
        // `update_activity` re-anchors the block it is still appending to, so
        // the anchor cannot be treated as fixed at insertion.
        ("an existing block re-anchored", |session| {
            session.transcript_blocks[0].after_message = 2;
        }),
        ("a turn returning to running", |session| {
            session.turns[0].status = TurnStatus::Running;
        }),
        ("a message reassigned to no turn", |session| {
            session.messages[1].turn_id = None;
        }),
        // A blank part is work, not answer, so where the answer starts — and
        // with it everything the fold swallows — turns on the content itself.
        ("the final text part left blank", |session| {
            session.messages[2].content.clear();
        }),
    ];

    for (description, mutate) in mutations {
        let mut session = worked_session(session_id, turn_id);
        mutate(&mut session);
        assert_ne!(
            rows(&session),
            baseline_rows,
            "{description} should change the rows — the case no longer proves anything"
        );
        assert_ne!(
            transcript_rows_fingerprint(&session, &settled),
            baseline_fingerprint,
            "{description} changed the rows but not the fingerprint, so the \
             cached rows would go stale"
        );
    }

    // The point of the guard: streamed text lands in an existing message
    // without moving a single row, and must not trigger a refold.
    let mut streamed = worked_session(session_id, turn_id);
    streamed.messages[2].content.push_str(" Let me know.");
    assert_eq!(
        transcript_rows_fingerprint(&streamed, &settled),
        baseline_fingerprint,
        "appending to a message leaves the rows exactly where they were"
    );
}

#[test]
fn a_settled_turn_folds_all_of_its_work_above_the_answer() {
    let turn_id = new_id();
    let session = worked_session(new_id(), turn_id);

    // The summary opens the turn and everything the agent did before its
    // answer sits behind it — reasoning, tool activity and interim commentary
    // alike. A divider between two pieces of work would read as a cut-off
    // response.
    assert_eq!(
        folded(&session),
        vec![
            Message(0),
            TurnFold(turn_id),
            Message(2),
            ResponseFooter(turn_id, 2),
        ]
    );
    // Expanding restores the turn's real order in place.
    assert_eq!(
        expanded(&session, turn_id),
        vec![
            Message(0),
            TurnFold(turn_id),
            TurnBlock(0),
            Message(1),
            TurnBlock(1),
            Message(2),
            ResponseFooter(turn_id, 2),
        ]
    );
}

#[test]
fn consecutive_trailing_text_parts_all_stay_out_of_the_fold() {
    let mut session = new_session();
    let turn_id = begin(&mut session, "Build it");
    session
        .transcript_blocks
        .push(block(1, turn_id, vec![thought("Looking around", true)]));
    say(&mut session, "First half of the answer.");
    say(&mut session, "Second half of the answer.");
    finish(&mut session, TurnStatus::Completed);

    assert_eq!(
        folded(&session),
        vec![
            Message(0),
            TurnFold(turn_id),
            Message(1),
            Message(2),
            ResponseFooter(turn_id, 2),
        ]
    );
}

#[test]
fn a_turn_without_an_answer_folds_completely() {
    let mut session = new_session();
    let turn_id = begin(&mut session, "Build it");
    session
        .transcript_blocks
        .push(block(1, turn_id, vec![command("Ran tests", true)]));
    // The streaming placeholder never received any text.
    say(&mut session, "");
    finish(&mut session, TurnStatus::Interrupted);

    assert_eq!(folded(&session), vec![Message(0), TurnFold(turn_id)]);
    assert_eq!(
        expanded(&session, turn_id),
        vec![Message(0), TurnFold(turn_id), TurnBlock(0), Message(1)]
    );
}

#[test]
fn assistant_response_footer_is_owned_by_the_terminal_part_and_copies_the_visible_answer() {
    let mut session = new_session();
    let turn_id = begin(&mut session, "Build it");
    session
        .transcript_blocks
        .push(block(1, turn_id, vec![thought("Looking around", true)]));
    say(&mut session, "Interim commentary.");
    session
        .transcript_blocks
        .push(block(2, turn_id, vec![command("Ran tests", true)]));
    say(&mut session, "First half of the answer.");
    say(&mut session, "Second half of the answer.");
    finish(&mut session, TurnStatus::Completed);
    session.messages[3].created_at = 100;
    session.turns.last_mut().unwrap().completed_at = Some(200);

    assert_eq!(assistant_response_footer_index(&session, 1), Some(3));
    assert_eq!(assistant_response_footer_index(&session, 3), Some(3));
    assert_eq!(assistant_response_footer(&session, 1), None);
    // The interim commentary hides behind the "Worked for X" fold, so copying
    // the message must skip it and combine only the trailing answer parts.
    assert_eq!(
        assistant_response_footer(&session, 3).as_deref(),
        Some("First half of the answer.\n\nSecond half of the answer.")
    );
    assert_eq!(assistant_response_footer_time(&session, 1), None);
    assert_eq!(assistant_response_footer_time(&session, 3), Some(200));
    assert!(session.messages[1..]
        .iter()
        .all(|message| message.turn_id == Some(turn_id)));
}

#[test]
fn response_footer_follows_trailing_tool_activity() {
    let mut session = new_session();
    let turn_id = begin(&mut session, "Inspect it");
    say(&mut session, "I’ll inspect the implementation.");
    session
        .transcript_blocks
        .push(block(2, turn_id, vec![command("Searched the source", true)]));
    finish(&mut session, TurnStatus::Interrupted);

    assert_eq!(
        folded(&session),
        vec![
            Message(0),
            Message(1),
            TurnBlock(0),
            ResponseFooter(turn_id, 1),
        ]
    );
}

#[test]
fn assistant_response_footer_treats_a_blank_part_as_work() {
    let mut session = new_session();
    let turn_id = begin(&mut session, "Build it");
    say(&mut session, "First text part.");
    say(&mut session, "  ");
    say(&mut session, "Final text part.");
    finish(&mut session, TurnStatus::Completed);

    assert_eq!(
        folded(&session),
        vec![
            Message(0),
            TurnFold(turn_id),
            Message(3),
            ResponseFooter(turn_id, 3),
        ]
    );
    assert_eq!(
        assistant_response_footer(&session, 3).as_deref(),
        Some("Final text part.")
    );
}

#[test]
fn running_assistant_response_withholds_its_footer() {
    let mut session = new_session();
    begin(&mut session, "Keep going");
    say(&mut session, "Interim text.");

    assert_eq!(assistant_response_footer_index(&session, 1), None);
    assert_eq!(assistant_response_footer(&session, 1), None);
}

#[test]
fn unkeyed_assistant_message_keeps_a_standalone_footer() {
    let mut session = new_session();
    session.messages.push(Text::new(
        new_id(),
        MessageRole::Assistant,
        "Standalone response.".to_owned(),
        None,
        1,
    ));
    session.messages[0].created_at = 300;

    assert_eq!(assistant_response_footer_index(&session, 0), Some(0));
    assert_eq!(
        assistant_response_footer(&session, 0).as_deref(),
        Some("Standalone response.")
    );
    assert_eq!(assistant_response_footer_time(&session, 0), Some(300));
}

#[test]
fn turn_fold_visibility_splice_preserves_surrounding_message_rows() {
    let turn_id = new_id();
    let collapsed = vec![
        Message(0),
        TurnFold(turn_id),
        Message(2),
        ResponseFooter(turn_id, 2),
    ];
    let expanded = vec![
        Message(0),
        TurnFold(turn_id),
        TurnBlock(0),
        Message(1),
        TurnBlock(1),
        Message(2),
        ResponseFooter(turn_id, 2),
    ];

    assert_eq!(
        transcript_row_splice(&collapsed, &expanded),
        Some(RowSplice {
            start: 2,
            old_end: 2,
            new_count: 3
        })
    );
    assert_eq!(
        transcript_row_splice(&expanded, &collapsed),
        Some(RowSplice {
            start: 2,
            old_end: 5,
            new_count: 0
        })
    );
    assert_eq!(transcript_row_splice(&collapsed, &collapsed), None);
}

#[test]
fn running_turn_keeps_its_ordered_work_visible() {
    let mut session = new_session();
    let turn_id = begin(&mut session, "Keep going");
    session
        .transcript_blocks
        .push(block(1, turn_id, vec![thought("Still thinking", false)]));
    say(&mut session, "Interim update");

    assert_eq!(
        folded(&session),
        vec![Message(0), TurnBlock(0), Message(1)]
    );
}

#[test]
fn plain_settled_response_does_not_add_an_empty_work_fold() {
    let mut session = new_session();
    let turn_id = begin(&mut session, "Answer directly");
    say(&mut session, "The answer.");
    finish(&mut session, TurnStatus::Completed);

    assert_eq!(
        folded(&session),
        vec![Message(0), Message(1), ResponseFooter(turn_id, 1)]
    );
}

#[test]
fn a_busy_turn_pins_the_working_indicator_after_the_last_row() {
    let mut session = new_session();
    let turn_id = begin(&mut session, "Build it");
    session.status = SessionStatus::Working;

    // No chunks yet: the indicator alone follows the prompt.
    assert_eq!(folded(&session), vec![Message(0), WorkingIndicator]);

    // Streamed content pushes it down, never off.
    say(&mut session, "Starting on it.");
    assert_eq!(
        folded(&session),
        vec![Message(0), Message(1), WorkingIndicator]
    );

    // A pending permission keeps the turn — and the indicator — alive.
    session.status = SessionStatus::Waiting;
    assert_eq!(
        folded(&session),
        vec![Message(0), Message(1), WorkingIndicator]
    );

    // A driver error can fail the session while its last turn is still
    // marked running. Busy-ness is the only input that moved, so the
    // fingerprint must move with it or the stale indicator lingers.
    session.status = SessionStatus::Working;
    let busy_fingerprint = fingerprint(&session);
    session.status = SessionStatus::Failed;
    assert_eq!(folded(&session), vec![Message(0), Message(1)]);
    assert_ne!(
        fingerprint(&session),
        busy_fingerprint,
        "dropping the busy status changed the rows but not the fingerprint"
    );

    // A settled turn swaps the indicator for its final transcript shape.
    session.status = SessionStatus::Working;
    finish(&mut session, TurnStatus::Completed);
    session.status = SessionStatus::Idle;
    assert_eq!(
        folded(&session),
        vec![Message(0), Message(1), ResponseFooter(turn_id, 1)]
    );
}

#[test]
fn the_answer_is_the_last_run_of_text() {
    let turn_id = new_id();
    let session = worked_session(new_id(), turn_id);
    let rows = turn_rows(&session, turn_id);
    assert_eq!(
        rows,
        vec![TurnBlock(0), Message(1), TurnBlock(1), Message(2)]
    );
    assert_eq!(turn_answer_start(&session, &rows), 3);
    assert_eq!(row_turn_id(&session, Message(0)), Some(turn_id));
    assert_eq!(row_turn_id(&session, Message(9)), None);
}

#[test]
fn mixing_follows_the_published_constants() {
    // One step of the mix: exclusive or, then a product modulo two to the 64th.
    assert_eq!(
        mix(EMPTY_TRANSCRIPT_FINGERPRINT, 0),
        0xcbf2_9ce4_8422_2325_u64.wrapping_mul(0x0000_0100_0000_01b3)
    );
    assert_ne!(
        mix(EMPTY_TRANSCRIPT_FINGERPRINT, 1),
        mix(EMPTY_TRANSCRIPT_FINGERPRINT, 2)
    );
}

#[test]
fn a_cached_transcript_is_folded_again_only_after_a_change() {
    let turn_id = new_id();
    let mut session = worked_session(new_id(), turn_id);
    let mut cache = TranscriptCache::new();
    let none = HashSet::new();
    assert_eq!(cache.refresh_transcript_row_kinds(None, &none), 0);
    assert_eq!(cache.rows_fingerprint, Some(EMPTY_TRANSCRIPT_FINGERPRINT));

    assert_eq!(cache.refresh_transcript_row_kinds(Some(&session), &none), 4);
    assert_eq!(cache.rows, folded(&session));

    // Rows that are kept under the same fingerprint are not made again.
    cache.rows.pop();
    assert_eq!(cache.refresh_transcript_row_kinds(Some(&session), &none), 3);
    session.status = SessionStatus::Working;
    assert_eq!(cache.refresh_transcript_row_kinds(Some(&session), &none), 4);
}

#[test]
fn cached_footers_and_entries_are_those_of_the_transcript() {
    let turn_id = new_id();
    let mut session = worked_session(new_id(), turn_id);
    let mut cache = TranscriptCache::new();
    let none = HashSet::new();
    let footer = cache.assistant_response_footer_cached(Some(&session), &none, 2);
    assert_eq!(footer.copied.as_deref(), Some("Done. The change is ready."));
    assert_eq!(footer.time, Some(2));
    // The second time the kept footer is handed out.
    session.turns[0].completed_at = Some(9);
    let footer = cache.assistant_response_footer_cached(Some(&session), &none, 2);
    assert_eq!(footer.time, Some(2));
    // A new turn drops what was kept.
    begin(&mut session, "More");
    let footer = cache.assistant_response_footer_cached(Some(&session), &none, 2);
    assert_eq!(footer.time, Some(9));
    let footer = cache.assistant_response_footer_cached(None, &none, 2);
    assert_eq!(footer.copied, None);

    cache.navigation_turns(Some(&session), &none);
    assert_eq!(cache.turns.len(), 2);
    assert_eq!(cache.turns[0].prompt, "Build it");
    cache.navigation_turns(None, &none);
    assert!(cache.turns.is_empty());
}

#[test]
fn a_disclosure_splices_the_rows_that_it_reveals() {
    let turn_id = new_id();
    let session = worked_session(new_id(), turn_id);
    let mut cache = TranscriptCache::new();
    let previous = folded(&session);
    cache.refresh_transcript_row_kinds(Some(&session), &HashSet::new());
    let splice = cache.splice_transcript_rows_after_visibility_change(
        Some(&session),
        &HashSet::from([turn_id]),
        &previous,
    );
    assert_eq!(
        splice,
        Some(RowSplice {
            start: 2,
            old_end: 2,
            new_count: 3
        })
    );
}

#[test]
fn rows_are_found_where_they_are_shown() {
    let turn_id = new_id();
    let session = worked_session(new_id(), turn_id);
    let rows = folded(&session);
    assert_eq!(
        remeasure_changed_files(Some(&session), turn_id),
        ResponseFooter(turn_id, 2)
    );
    assert_eq!(remeasure_changed_files(None, turn_id), ChangedFiles(turn_id));
    assert_eq!(
        remeasure_transcript_row(&rows, ResponseFooter(turn_id, 2)),
        Some(RowRange { from: 3, to: 4 })
    );
    assert_eq!(remeasure_transcript_row(&rows, TurnBlock(0)), None);

    let anchor = TranscriptAnchor {
        session_id: session.id,
        turn_id,
    };
    assert_eq!(
        selected_transcript_anchor_row(Some(anchor), Some(&session), &rows),
        Some(0)
    );
    assert_eq!(
        selected_transcript_anchor_row(None, Some(&session), &rows),
        None
    );
    let elsewhere = TranscriptAnchor {
        session_id: new_id(),
        turn_id,
    };
    assert_eq!(
        selected_transcript_anchor_row(Some(elsewhere), Some(&session), &rows),
        None
    );
}

#[test]
fn long_previews_are_cut_between_characters_as_a_reader_counts_them() {
    assert_eq!(navigation_preview_snippet("abcdef", 3), "abc…");
    assert_eq!(navigation_preview_snippet("abc", 3), "abc");
    // A letter with a combining mark counts once.
    assert_eq!(navigation_preview_snippet("e\u{301}xyz", 2), "e\u{301}x…");
    assert_eq!(navigation_preview_snippet(" \n ", 3), "");
}
