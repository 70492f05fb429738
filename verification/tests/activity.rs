use chrono::TimeZone;
use waku::activity::{
    activity_action_label, activity_disclosure_sections, activity_display_title,
    activity_file_change_stats, activity_group_is_live, activity_header_title, activity_path_name,
    activity_preview, activity_row_detail, activity_shows_diff, activity_summary, fenced_code,
    humanize_tool_name, reasoning_activity_title, tool_name_leaf, ActivityDisclosureSection,
    ActivityDisclosureSectionKind, ActivityNouns, Noun,
};
use waku::calendar::{
    day_ordinal_suffix, format_message_time, format_message_time_at, message_time_for,
    CalendarDate, Moment,
};
use waku::duration::{format_worked_duration, format_working_elapsed, turn_fold_label};
use waku::i18n::{Catalog, Entry};
use waku::model::{ActivityItem, ActivityKind, FileChange, Id, ProviderKind, ReasoningBlock, TurnStatus};
use waku::session::AgentSession;

fn new_id() -> Id {
    uuid::Uuid::new_v4().as_u128()
}

fn english() -> Catalog {
    let texts = [
        ("activity.arguments", "Arguments"),
        ("activity.output", "Output"),
        ("activity.command_detail", "Command"),
        ("activity.image_output", "Image output"),
        ("activity.tool", "Tool"),
        ("activity.ask_questions", "Ask questions"),
        ("activity.action_run", "Run"),
        ("activity.action_think", "Think"),
        ("activity.running_named_command", "Running %{command}"),
        ("activity.ran_named_command", "Ran %{command}"),
        ("activity.named_command_failed", "Failed to run %{command}"),
        (
            "activity.running_described_command",
            "Running command: %{description}",
        ),
        ("activity.ran_described_command", "Ran command: %{description}"),
        ("activity.count", "%{count} %{activity}"),
        ("activity.ran", "Ran %{activities}"),
        ("activity.running", "Running %{activities}"),
        ("activity.file_count", "%{count} files"),
        ("activity.editing_named_file", "Editing %{file}"),
        ("activity.edited_named_file", "Edited %{file}"),
        ("activity.edit_failed_named_file", "Failed to edit %{file}"),
        ("activity.edited_files", "Edited files"),
        ("activity.reading_named_file", "Reading %{file}"),
        ("activity.read_named_file", "Read %{file}"),
        ("activity.read_named_file_failed", "Failed to read %{file}"),
        ("activity.searched_files_for", "Searched files for %{query}"),
        ("activity.listing_files_in", "Listing files in %{directory}"),
        ("activity.searched_web_for", "Searched the web for %{query}"),
        ("activity.updating_plan", "Updating plan"),
        ("time.yesterday_at", "Yesterday %{time}"),
        ("time.date_at", "%{month}/%{day} %{time}"),
        ("time.full_date_at", "%{year}/%{month}/%{day} %{time}"),
        ("time.weekday_at", "%{weekday} %{time}"),
        ("time.friday", "Fri"),
        ("transcript.thinking", "Thinking"),
        ("transcript.thought_for", "Thought for %{duration}"),
        ("transcript.worked_for", "Worked for %{duration}"),
        ("transcript.you_stopped_after", "You stopped after %{duration}"),
        ("transcript.worked", "Worked"),
        ("duration.second", "%{count} second"),
        ("duration.seconds", "%{count} seconds"),
        ("duration.minute", "%{count} minute"),
        ("duration.minutes", "%{count} minutes"),
        ("duration.hour", "%{count} hour"),
        ("duration.hours", "%{count} hours"),
        ("duration.seconds_short", "%{count}s"),
        ("duration.minutes_short", "%{count}m"),
        ("duration.hours_short", "%{count}h"),
        ("duration.two_units", "%{first} %{second}"),
    ];
    Catalog {
        entries: texts
            .into_iter()
            .map(|(key, template)| Entry {
                key: key.to_owned(),
                template: template.to_owned(),
            })
            .collect(),
    }
}

fn noun(singular: &str, plural: &str) -> Noun {
    Noun {
        singular: singular.to_owned(),
        plural: plural.to_owned(),
    }
}

fn nouns() -> ActivityNouns {
    ActivityNouns {
        reasoning: noun("thought", "thoughts"),
        command: noun("command", "commands"),
        file_change: noun("edit", "edits"),
        file_read: noun("read", "reads"),
        file_search: noun("file search", "file searches"),
        file_list: noun("listing", "listings"),
        search: noun("web search", "web searches"),
        plan: noun("plan update", "plan updates"),
        tool: noun("tool", "tools"),
    }
}

fn step(
    source_id: &str,
    kind: ActivityKind,
    title: &str,
    generic: bool,
    detail: Option<&str>,
    complete: bool,
) -> ActivityItem {
    ActivityItem::new(
        new_id(),
        Some(source_id.to_owned()),
        kind,
        title.to_owned(),
        generic,
        false,
        detail.map(str::to_owned),
        complete,
    )
}

fn change(name: &str, additions: u64, deletions: u64) -> FileChange {
    FileChange {
        display_name: name.to_owned(),
        additions: Some(additions),
        deletions: Some(deletions),
        diff: None,
    }
}

fn section(kind: ActivityDisclosureSectionKind, content: &str) -> (ActivityDisclosureSectionKind, String) {
    (kind, content.to_owned())
}

fn sections(activity: &ActivityItem) -> Vec<(ActivityDisclosureSectionKind, String)> {
    activity_disclosure_sections(activity)
        .into_iter()
        .map(|section: ActivityDisclosureSection| (section.kind, section.content))
        .collect()
}

fn activity_disclosure_text(activity: &ActivityItem) -> Option<String> {
    let catalog = english();
    let sections = activity_disclosure_sections(activity);
    (!sections.is_empty()).then(|| {
        sections
            .into_iter()
            .map(
                |section| match (section.kind.label(&catalog), section.content.is_empty()) {
                    (Some(label), false) => format!("{label}\n{}", section.content),
                    (Some(label), true) => label,
                    (None, _) => section.content,
                },
            )
            .collect::<Vec<_>>()
            .join("\n\n")
    })
}

fn local_timestamp(year: i32, month: u32, day: u32, hour: u32, minute: u32) -> u64 {
    chrono::Local
        .with_ymd_and_hms(year, month, day, hour, minute, 0)
        .single()
        .expect("test date should be valid in the local timezone")
        .timestamp()
        .try_into()
        .expect("test date should have a positive Unix timestamp")
}

const TODAY: CalendarDate = CalendarDate {
    year: 2026,
    month: 8,
    day: 9,
}; // Sunday

#[test]
fn message_time_includes_calendar_context_for_older_messages() {
    let catalog = english();
    let time = |year, month, day, hour, minute| {
        format_message_time_at(
            &catalog,
            false,
            local_timestamp(year, month, day, hour, minute),
            TODAY,
        )
    };

    assert_eq!(time(2026, 8, 9, 9, 5), "9:05 AM");
    assert_eq!(time(2026, 8, 8, 17, 0), "Yesterday 5:00 PM");
    assert_eq!(time(2026, 8, 7, 13, 12), "Friday 1:12 PM");
    assert_eq!(time(2026, 5, 12, 23, 0), "May 12th, 11:00 PM");
    assert_eq!(time(2024, 8, 4, 11, 0), "Aug 4th 2024, 11:00 AM");
}

#[test]
fn message_time_uses_correct_ordinal_suffixes() {
    let catalog = english();
    for (day, suffix) in [
        (1, "st"),
        (2, "nd"),
        (3, "rd"),
        (11, "th"),
        (12, "th"),
        (13, "th"),
        (21, "st"),
    ] {
        let formatted =
            format_message_time_at(&catalog, false, local_timestamp(2026, 5, day, 9, 0), TODAY);
        assert!(formatted.starts_with(&format!("May {day}{suffix},")));
        assert_eq!(day_ordinal_suffix(day), suffix);
    }
}

#[test]
fn east_asian_message_times_keep_the_day_clock() {
    let catalog = english();
    let at = |year, month, day, hour, minute| {
        message_time_for(
            &catalog,
            true,
            Moment {
                date: CalendarDate { year, month, day },
                hour,
                minute,
            },
            TODAY,
        )
    };
    assert_eq!(at(2026, 8, 9, 9, 5), "09:05");
    assert_eq!(at(2026, 8, 10, 21, 5), "21:05");
    assert_eq!(at(2026, 8, 8, 17, 0), "Yesterday 17:00");
    assert_eq!(at(2026, 8, 7, 13, 12), "Fri 13:12");
    assert_eq!(at(2026, 5, 12, 23, 0), "5/12 23:00");
    assert_eq!(at(2024, 8, 4, 0, 0), "2024/8/4 00:00");
}

#[test]
fn a_message_of_this_moment_shows_only_its_time() {
    let catalog = english();
    let now = chrono::Utc::now().timestamp();
    let now: u64 = now.try_into().expect("the clock is past 1970");
    let shown = format_message_time(&catalog, true, now);
    assert!(shown.len() == 5 || shown.starts_with("Yesterday"));
}

#[test]
fn activity_disclosure_keeps_arguments_and_output() {
    let catalog = english();
    let mut activity = step(
        "tool-1",
        ActivityKind::Tool,
        "Use Helium",
        false,
        Some("failed"),
        true,
    );
    activity.arguments = Some("{\n  \"actions\": []\n}".to_owned());
    activity.output = Some("Computer Use helper closed its session".to_owned());
    activity.failed = true;

    assert_eq!(
        sections(&activity),
        vec![
            section(
                ActivityDisclosureSectionKind::Arguments,
                "{\n  \"actions\": []\n}"
            ),
            section(
                ActivityDisclosureSectionKind::Output,
                "Computer Use helper closed its session"
            ),
        ]
    );
    assert_eq!(
        activity_disclosure_text(&activity).as_deref(),
        Some(
            "Arguments\n{\n  \"actions\": []\n}\n\nOutput\nComputer Use helper closed its session"
        )
    );
    assert_eq!(
        activity_preview(&catalog, &activity),
        "Computer Use helper closed its session"
    );

    let mut image_only = step("tool-2", ActivityKind::Tool, "Screenshot", false, None, true);
    image_only.image_urls = vec!["data:image/png;base64,aGVsbG8=".to_owned()];
    assert_eq!(
        activity_disclosure_text(&image_only).as_deref(),
        Some("Output")
    );
    assert_eq!(activity_preview(&catalog, &image_only), "Image output");
}

#[test]
fn command_disclosure_shows_only_the_command_and_output() {
    let mut activity = step(
        "command-1",
        ActivityKind::Command,
        "bash",
        true,
        Some("Completed"),
        true,
    );
    activity.arguments = Some("git status --short".to_owned());
    activity.display_target = Some("git status --short".to_owned());
    activity.display_description = Some("Check status".to_owned());
    activity.output = Some("clean".to_owned());

    assert_eq!(
        sections(&activity),
        vec![
            section(ActivityDisclosureSectionKind::Command, "git status --short"),
            section(ActivityDisclosureSectionKind::Output, "clean"),
        ]
    );
    assert_eq!(
        activity_disclosure_text(&activity).as_deref(),
        Some("Command\ngit status --short\n\nOutput\nclean")
    );
}

#[test]
fn activity_display_title_prefers_the_human_facing_tool_argument() {
    let catalog = english();
    let mut titled = step("tool-1", ActivityKind::Tool, "Js", false, None, true);
    titled.display_target = Some("Inspect Helium browser".to_owned());
    let untitled = step("tool-2", ActivityKind::Tool, "Js", false, None, true);

    assert_eq!(
        activity_display_title(&catalog, &titled),
        "Inspect Helium browser"
    );
    assert_eq!(activity_display_title(&catalog, &untitled), "Js");
}

#[test]
fn generic_tool_rows_keep_a_humanized_provider_name() {
    let catalog = english();
    let named = step(
        "tool-1",
        ActivityKind::Tool,
        "mcp__threads__create_thread",
        false,
        None,
        true,
    );
    let unnamed = step("tool-2", ActivityKind::Tool, "Tool", true, None, true);

    assert_eq!(activity_action_label(&catalog, &named), "Tool");
    assert_eq!(activity_row_detail(&catalog, &named, false), "Create thread");
    assert_eq!(activity_display_title(&catalog, &named), "Create thread");
    assert_eq!(activity_action_label(&catalog, &unnamed), "Tool");
    assert_eq!(activity_row_detail(&catalog, &unnamed, false), "");
}

#[test]
fn ask_user_question_has_a_purpose_specific_label() {
    let catalog = english();
    let mut activity = step(
        "tool-1",
        ActivityKind::Tool,
        "AskUserQuestion",
        false,
        None,
        true,
    );
    activity.arguments = Some(r#"{"questions":[]}"#.to_owned());

    assert_eq!(activity_action_label(&catalog, &activity), "Ask questions");
    assert_eq!(activity_row_detail(&catalog, &activity, false), "");
    assert_eq!(activity_display_title(&catalog, &activity), "Ask questions");
}

#[test]
fn activity_header_summarizes_only_after_the_group_leaves_the_live_tail() {
    let catalog = english();
    let nouns = nouns();
    let reasoning = ActivityItem::from_reasoning(
        new_id(),
        "Thinking".to_owned(),
        ReasoningBlock {
            content: "Inspecting history".to_owned(),
            started_at_ms: 1_000,
            finished_at_ms: 2_000,
        },
        true,
    );
    let mut command = step("command-1", ActivityKind::Command, "bash", true, None, false);
    command.display_target = Some("git log --oneline -15".to_owned());
    let mut activities = vec![reasoning, command];

    assert_eq!(
        activity_header_title(&catalog, &nouns, &activities, true, None),
        "Running git log --oneline -15"
    );
    assert!(activity_group_is_live(true, true, 1, 1));
    activities[1].complete = true;
    assert_eq!(
        activity_header_title(&catalog, &nouns, &activities, true, None),
        "Ran git log --oneline -15"
    );
    assert!(!activity_group_is_live(true, true, 1, 2));
    assert_eq!(
        activity_header_title(&catalog, &nouns, &activities, false, None),
        "Ran 1 thought · 1 command"
    );
    assert!(!activity_group_is_live(true, false, 1, 1));
    assert!(!activity_group_is_live(false, true, 1, 1));
    assert_eq!(activity_action_label(&catalog, &activities[1]), "Run");
    assert_eq!(
        activity_row_detail(&catalog, &activities[1], false),
        "git log --oneline -15"
    );
}

#[test]
fn file_edit_title_and_stats_follow_the_activity_state() {
    let catalog = english();
    let mut activity = step(
        "edit-1",
        ActivityKind::FileChange,
        "apply_patch",
        true,
        None,
        false,
    );
    activity.file_changes = vec![change("app.rs", 2, 1)];

    assert_eq!(activity_display_title(&catalog, &activity), "Editing app.rs");
    assert_eq!(activity_file_change_stats(&activity), None);

    activity.complete = true;
    assert_eq!(activity_display_title(&catalog, &activity), "Edited app.rs");
    assert_eq!(activity_file_change_stats(&activity), Some((2, 1)));

    activity.failed = true;
    assert_eq!(
        activity_display_title(&catalog, &activity),
        "Failed to edit app.rs"
    );
    assert_eq!(activity_file_change_stats(&activity), None);
}

#[test]
fn multi_file_edits_use_a_compact_count() {
    let catalog = english();
    let mut activity = step(
        "edit-2",
        ActivityKind::FileChange,
        "apply_patch",
        true,
        None,
        true,
    );
    activity.file_changes = vec![change("a.rs", 1, 1), change("b.rs", 1, 1)];

    assert_eq!(activity_display_title(&catalog, &activity), "Edited 2 files");
    assert_eq!(activity_file_change_stats(&activity), Some((2, 2)));
}

#[test]
fn file_tool_titles_include_the_target_and_state() {
    let catalog = english();
    let mut read = step("read-1", ActivityKind::FileRead, "read", true, None, false);
    read.display_target = Some("/tmp/waku/src/model.rs".to_owned());
    assert_eq!(activity_display_title(&catalog, &read), "Reading model.rs");
    read.complete = true;
    assert_eq!(activity_display_title(&catalog, &read), "Read model.rs");
    read.failed = true;
    assert_eq!(
        activity_display_title(&catalog, &read),
        "Failed to read model.rs"
    );

    let mut search = step("grep-1", ActivityKind::FileSearch, "grep", true, None, true);
    search.display_target = Some("ActivityKind".to_owned());
    assert_eq!(
        activity_display_title(&catalog, &search),
        "Searched files for ActivityKind"
    );

    let mut list = step("list-1", ActivityKind::FileList, "ls", true, None, false);
    list.display_target = Some("/tmp/waku/src".to_owned());
    assert_eq!(
        activity_display_title(&catalog, &list),
        "Listing files in src"
    );

    let custom = step(
        "read-2",
        ActivityKind::FileRead,
        "Inspect generated manifest",
        false,
        None,
        true,
    );
    assert_eq!(
        activity_display_title(&catalog, &custom),
        "Inspect generated manifest"
    );
}

#[test]
fn command_web_search_and_plan_titles_include_their_state() {
    let catalog = english();
    let mut command = step("command-1", ActivityKind::Command, "bash", true, None, true);
    command.display_description = Some("Run focused tests".to_owned());
    command.display_target = Some("cargo test activity".to_owned());
    assert_eq!(
        activity_display_title(&catalog, &command),
        "Ran command: Run focused tests"
    );
    command.complete = false;
    assert_eq!(
        activity_display_title(&catalog, &command),
        "Running command: Run focused tests"
    );

    let mut web_search = step("search-1", ActivityKind::Search, "web_search", true, None, true);
    web_search.title_names_search = true;
    web_search.display_target = Some("Waku GPUI".to_owned());
    assert_eq!(
        activity_display_title(&catalog, &web_search),
        "Searched the web for Waku GPUI"
    );

    let plan = step("plan-1", ActivityKind::Plan, "update_plan", true, None, false);
    assert_eq!(activity_display_title(&catalog, &plan), "Updating plan");
}

#[test]
fn fenced_code_collects_all_blocks_without_languages() {
    let markdown = "Before\n```rust\nfn main() {}\n```\nAfter\n```\ncargo test\n```";
    assert_eq!(
        fenced_code(markdown).as_deref(),
        Some("fn main() {}\n\ncargo test")
    );
    assert_eq!(fenced_code("No code here"), None);
}

#[test]
fn worked_duration_uses_readable_units() {
    let catalog = english();
    assert_eq!(format_worked_duration(&catalog, 1), "1 second");
    assert_eq!(format_worked_duration(&catalog, 28), "28 seconds");
    assert_eq!(format_worked_duration(&catalog, 60), "1 minute");
    assert_eq!(format_worked_duration(&catalog, 88), "1 minute 28 seconds");
    assert_eq!(format_worked_duration(&catalog, 7_320), "2 hours 2 minutes");
}

#[test]
fn working_elapsed_stays_compact() {
    let catalog = english();
    assert_eq!(format_working_elapsed(&catalog, 0), "0s");
    assert_eq!(format_working_elapsed(&catalog, 9), "9s");
    assert_eq!(format_working_elapsed(&catalog, 59), "59s");
    assert_eq!(format_working_elapsed(&catalog, 60), "1m");
    assert_eq!(format_working_elapsed(&catalog, 65), "1m 5s");
    assert_eq!(format_working_elapsed(&catalog, 3_600), "1h");
    assert_eq!(format_working_elapsed(&catalog, 3_720), "1h 2m");
}

#[test]
fn a_fold_tells_how_long_the_work_took() {
    let catalog = english();
    let mut session = AgentSession::new(1, 2, ProviderKind::Codex, 10);
    session.begin_turn("go".to_owned(), 3, 4, 10);
    assert_eq!(turn_fold_label(&catalog, &session, 4, 40), "Worked for 30 seconds");
    session.finish_active_turn(TurnStatus::Interrupted, 98);
    assert_eq!(
        turn_fold_label(&catalog, &session, 4, 500),
        "You stopped after 1 minute 28 seconds"
    );
    assert_eq!(turn_fold_label(&catalog, &session, 5, 500), "Worked");
}

#[test]
fn tool_names_become_words() {
    let catalog = english();
    assert_eq!(tool_name_leaf("mcp__server__do_it"), "do_it");
    assert_eq!(tool_name_leaf("a.b/c:d"), "d");
    assert_eq!(humanize_tool_name(&catalog, "readHTMLFile"), "Read HTML File");
    assert_eq!(humanize_tool_name(&catalog, "with spaces"), "with spaces");
    assert_eq!(humanize_tool_name(&catalog, "__"), "Tool");
    // The first letter is capitalised as its alphabet asks.
    assert_eq!(humanize_tool_name(&catalog, "ßtool"), "SStool");
    // A question is recognised however its name is spelled.
    let activity = step(
        "tool-3",
        ActivityKind::Tool,
        "ASK_user-Question",
        false,
        None,
        true,
    );
    assert_eq!(activity_action_label(&catalog, &activity), "Ask questions");
}

#[test]
fn paths_are_called_by_their_last_part() {
    assert_eq!(activity_path_name("/tmp/waku/src/model.rs"), "model.rs");
    assert_eq!(activity_path_name("/"), "/");
    assert_eq!(activity_path_name("/tmp/.."), "/tmp/..");
}

#[test]
fn a_shown_diff_replaces_what_the_tool_was_given() {
    let mut activity = step(
        "edit-3",
        ActivityKind::FileChange,
        "apply_patch",
        true,
        None,
        true,
    );
    activity.arguments = Some("{}".to_owned());
    let mut edited = change("a.rs", 1, 0);
    edited.diff = Some("+a".to_owned());
    activity.file_changes = vec![edited];
    assert!(activity_shows_diff(&activity));
    assert!(sections(&activity)
        .iter()
        .all(|(kind, _)| *kind != ActivityDisclosureSectionKind::Arguments));
}

#[test]
fn sections_are_named_and_found() {
    let catalog = english();
    assert_eq!(ActivityDisclosureSectionKind::Command.id(), "command");
    assert_eq!(ActivityDisclosureSectionKind::Arguments.id(), "arguments");
    assert_eq!(ActivityDisclosureSectionKind::Output.id(), "output");
    assert_eq!(ActivityDisclosureSectionKind::Detail.id(), "detail");
    assert_eq!(ActivityDisclosureSectionKind::Detail.label(&catalog), None);
}

#[test]
fn several_steps_are_counted_by_kind() {
    let catalog = english();
    let steps = vec![
        step("1", ActivityKind::Command, "bash", true, None, true),
        step("2", ActivityKind::FileRead, "read", true, None, true),
        step("3", ActivityKind::Command, "bash", true, None, false),
    ];
    assert_eq!(
        activity_summary(&catalog, &nouns(), &steps),
        "Running 2 commands · 1 read"
    );
}

#[test]
fn thoughts_tell_how_long_they_took() {
    let catalog = english();
    let reasoning = ReasoningBlock {
        content: "hm".to_owned(),
        started_at_ms: 1_000,
        finished_at_ms: 4_200,
    };
    assert_eq!(reasoning_activity_title(&catalog, &reasoning, true), "Thinking");
    let settled = reasoning_activity_title(&catalog, &reasoning, false);
    assert!(settled.starts_with("Thought for "));
}
