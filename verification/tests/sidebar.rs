use std::collections::{HashMap, HashSet};
use waku::calendar::{
    session_date_group, session_date_group_for_dates, CalendarDate, SessionDateGroup,
};
use waku::i18n::{Catalog, Entry};
use waku::layout::{Length, PIXEL};
use waku::model::{Id, ProviderKind, SessionStatus};
use waku::session::AgentSession;
use waku::sidebar::{
    append_sidebar_group_rows, format_time_ago, project_sidebar_groups, session_time_label,
    sidebar_entries, sidebar_entry, sidebar_grouping_label, sidebar_ordering_label,
    sidebar_project_is_projectless, sidebar_projects, sidebar_rows, sidebar_rows_cached,
    sidebar_rows_fingerprint, sidebar_session_timestamp, sort_sidebar_sessions,
    visible_project_sessions, Project, SidebarEntry, SidebarGroup, SidebarGrouping, SidebarHistory,
    SidebarOrdering, SidebarProject, SidebarRow, SidebarSection, SidebarSnapshot, SidebarState,
    SIDEBAR_PROJECT_REVEAL_BATCH,
};
use waku::sidebar_state::{
    accepts_branch_labels, begin_branch_scan, begin_session_rename, branch_scan_paths,
    cache_sidebar_branch_label, cancel_session_rename, collapse_all_sidebar_groups,
    commit_session_rename, invalidate_workspace_queries, localized_session_title,
    set_sidebar_group_collapsed, set_sidebar_grouping, set_sidebar_ordering,
    show_more_project_sessions, sidebar_session_selected, toggle_sidebar_group,
};
use waku::sidebar_view::{
    empty_state, frame_rate, frame_rate_label, group_header_key, key_presses,
    open_new_task_for_sidebar_group, pick_project, reveal_sidebar_list_row, session_item_key,
    sidebar_bottom_aligned_offset, sidebar_group_header, sidebar_options, sidebar_row,
    sidebar_row_height, sidebar_session_item, sidebar_session_row_index, start_available_update,
    sync_sidebar_rows, updater_button, window_header, EmptyState, FrameRate, GroupCompose,
    HeaderKey, ListOffset, ProjectInfo, ProjectPick, ProjectPickStep, RevealStep, RowContent,
    SessionKey, SessionMark, SidebarSync, UpdateStatus, UpdaterButton, WindowChrome,
};
use waku::user_input::Table;

fn new_id() -> Id {
    uuid::Uuid::new_v4().as_u128()
}

fn px(pixels: f32) -> Length {
    (pixels * PIXEL as f32) as Length
}

fn english() -> Catalog {
    let texts = [
        ("sidebar.just_now", "just now"),
        ("sidebar.minutes_ago", "%{count}m"),
        ("sidebar.hours_ago", "%{count}h"),
        ("sidebar.days_ago", "%{count}d"),
        ("sidebar.today", "Today"),
        ("sidebar.grouping_project", "By project"),
        ("sidebar.grouping_updated", "By date"),
        ("sidebar.ordering_newest", "Newest first"),
        ("sidebar.ordering_oldest", "Oldest first"),
        ("session.new_task", "New task"),
        ("project.no_project_name", "No project"),
    ];
    Catalog {
        entries: texts
            .into_iter()
            .map(|(key, template)| Entry {
                key: key.to_owned(),
                template: template.to_owned(),
            })
            .collect(),
    }
}

fn date(year: i32, month: u32, day: u32) -> CalendarDate {
    CalendarDate { year, month, day }
}

fn new_session(project_id: Id) -> AgentSession {
    AgentSession::new(new_id(), project_id, ProviderKind::Codex, 1)
}

fn parts(sections: Vec<SidebarSection>) -> Vec<(SidebarGroup, Vec<Id>)> {
    sections
        .into_iter()
        .map(|section| (section.group, section.sessions))
        .collect()
}

#[test]
fn groups_sessions_by_calendar_period() {
    let today = date(2026, 8, 12);
    let cases = [
        ((2026, 8, 12), SessionDateGroup::Today),
        ((2026, 8, 11), SessionDateGroup::Yesterday),
        ((2026, 8, 10), SessionDateGroup::ThisWeek),
        ((2026, 8, 1), SessionDateGroup::ThisMonth),
        ((2026, 1, 1), SessionDateGroup::ThisYear),
        ((2025, 12, 31), SessionDateGroup::More),
    ];

    for ((year, month, day), expected) in cases {
        assert_eq!(
            session_date_group_for_dates(date(year, month, day), today),
            expected
        );
    }
}

#[test]
fn future_sessions_stay_in_today() {
    let today = date(2026, 8, 12);
    let tomorrow = date(2026, 8, 13);
    assert_eq!(
        session_date_group_for_dates(tomorrow, today),
        SessionDateGroup::Today
    );
}

#[test]
fn collapsed_sidebar_group_keeps_only_its_header_and_spacer() {
    let sessions = vec![1, 2];
    let group = SidebarGroup::Updated(SessionDateGroup::Today);
    let mut expanded = Vec::new();
    append_sidebar_group_rows(&mut expanded, group, &sessions, false, false);
    assert_eq!(
        expanded,
        vec![
            SidebarRow::Header(group),
            SidebarRow::Session(sessions[0]),
            SidebarRow::Session(sessions[1]),
            SidebarRow::GroupSpacer,
        ]
    );

    let mut collapsed = Vec::new();
    append_sidebar_group_rows(&mut collapsed, group, &sessions, true, false);
    assert_eq!(
        collapsed,
        vec![SidebarRow::Header(group), SidebarRow::GroupSpacer,]
    );
}

#[test]
fn hidden_project_sessions_keep_a_keyboard_reveal_row() {
    let group = SidebarGroup::Project(1);
    let mut expanded = Vec::new();
    append_sidebar_group_rows(&mut expanded, group, &vec![], false, true);
    assert_eq!(
        expanded,
        vec![
            SidebarRow::Header(group),
            SidebarRow::ShowMore(group),
            SidebarRow::GroupSpacer,
        ]
    );

    let mut collapsed = Vec::new();
    append_sidebar_group_rows(&mut collapsed, group, &vec![], true, true);
    assert_eq!(
        collapsed,
        vec![SidebarRow::Header(group), SidebarRow::GroupSpacer]
    );
}

#[test]
fn project_sessions_reveal_older_history_in_thirty_item_batches() {
    let sessions = (1..=36).collect::<Vec<Id>>();
    let recent_cutoff = 100;
    let timestamps = sessions
        .iter()
        .enumerate()
        .map(|(index, session_id)| {
            (
                *session_id,
                if index == 0 {
                    recent_cutoff
                } else {
                    recent_cutoff - 1
                },
            )
        })
        .collect::<HashMap<_, _>>();

    let (initial, show_more) = visible_project_sessions(&sessions, &timestamps, recent_cutoff, 0);
    assert_eq!(initial, vec![sessions[0]]);
    assert!(show_more);

    let (first_batch, show_more) = visible_project_sessions(
        &sessions,
        &timestamps,
        recent_cutoff,
        SIDEBAR_PROJECT_REVEAL_BATCH,
    );
    assert_eq!(first_batch, sessions[..31]);
    assert!(show_more);

    let (all_sessions, show_more) = visible_project_sessions(
        &sessions,
        &timestamps,
        recent_cutoff,
        SIDEBAR_PROJECT_REVEAL_BATCH * 2,
    );
    assert_eq!(all_sessions, sessions);
    assert!(!show_more);
}

#[test]
fn sidebar_recency_uses_last_reply_with_creation_fallback() {
    let project_id = new_id();
    let mut renamed_old_session = new_session(project_id);
    renamed_old_session.created_at = 10;
    renamed_old_session.last_reply_at = Some(20);
    renamed_old_session.updated_at = 1_000;

    let mut newer_unanswered_session = new_session(project_id);
    newer_unanswered_session.created_at = 30;
    newer_unanswered_session.last_reply_at = None;
    newer_unanswered_session.updated_at = 30;

    assert_eq!(sidebar_session_timestamp(&renamed_old_session), 20);
    assert_eq!(sidebar_session_timestamp(&newer_unanswered_session), 30);

    let entries = vec![
        sidebar_entry(&renamed_old_session),
        sidebar_entry(&newer_unanswered_session),
    ];
    let sessions = sort_sidebar_sessions(&entries, SidebarOrdering::Newest);
    assert_eq!(sessions[0].id, newer_unanswered_session.id);

    let sessions = sort_sidebar_sessions(&sessions, SidebarOrdering::Oldest);
    assert_eq!(sessions[0].id, renamed_old_session.id);
}

#[test]
fn project_grouping_preserves_global_group_and_session_order() {
    let first_project = 1;
    let second_project = 2;
    let first = new_session(first_project);
    let second = new_session(second_project);
    let third = new_session(first_project);

    let groups = project_sidebar_groups(
        &vec![
            sidebar_entry(&second),
            sidebar_entry(&first),
            sidebar_entry(&third),
        ],
        &HashSet::new(),
    );

    assert_eq!(
        parts(groups),
        vec![
            (SidebarGroup::Project(second_project), vec![second.id]),
            (
                SidebarGroup::Project(first_project),
                vec![first.id, third.id]
            ),
        ]
    );
}

#[test]
fn projectless_sessions_share_one_trailing_group() {
    let ordinary_project = 1;
    let first_projectless_project = 2;
    let second_projectless_project = 3;
    let first_projectless = new_session(first_projectless_project);
    let ordinary = new_session(ordinary_project);
    let second_projectless = new_session(second_projectless_project);

    let groups = project_sidebar_groups(
        &vec![
            sidebar_entry(&first_projectless),
            sidebar_entry(&ordinary),
            sidebar_entry(&second_projectless),
        ],
        &HashSet::from([first_projectless_project, second_projectless_project]),
    );

    assert_eq!(
        parts(groups),
        vec![
            (SidebarGroup::Project(ordinary_project), vec![ordinary.id]),
            (
                SidebarGroup::Projectless,
                vec![first_projectless.id, second_projectless.id]
            ),
        ]
    );
}

#[test]
fn projectless_sidebar_projects_are_paths_under_the_workspace_root() {
    let root = Some("/tmp/.waku/projects".to_owned());
    let projectless = Project {
        id: 1,
        name: "Task".to_owned(),
        path: "/tmp/.waku/projects/2026-08-23/task".to_owned(),
        created_at: 0,
    };
    let ordinary = Project {
        id: 2,
        name: "Ordinary".to_owned(),
        path: "/tmp/dev/ordinary".to_owned(),
        created_at: 0,
    };

    assert!(sidebar_project_is_projectless(&projectless, &root));
    assert!(!sidebar_project_is_projectless(&ordinary, &root));
    assert!(!sidebar_project_is_projectless(&projectless, &None));
}

#[test]
fn pending_session_replaces_sidebar_selection_immediately() {
    let current = 1;
    let pending = 2;

    assert!(!sidebar_session_selected(
        Some(current),
        Some(pending),
        current
    ));
    assert!(sidebar_session_selected(
        Some(current),
        Some(pending),
        pending
    ));
    assert!(sidebar_session_selected(Some(current), None, current));
}

#[test]
fn selected_session_uses_nearest_bottom_edge_for_an_unmeasured_lower_row() {
    let target = 31;
    let group = SidebarGroup::Updated(SessionDateGroup::Today);
    let mut rows = vec![SidebarRow::Search, SidebarRow::Header(group)];
    rows.extend((1..=40).map(SidebarRow::Session));
    rows.push(SidebarRow::GroupSpacer);

    let index = sidebar_session_row_index(&rows, target).unwrap();
    let offset = sidebar_bottom_aligned_offset(&rows, index, px(400.0));

    assert_eq!(index, 32);
    // Recompute these two whenever SIDEBAR_SESSION_ROW_HEIGHT changes:
    // 13 rows of 33px fill the 400px viewport, leaving 29px clipped off
    // the topmost one.
    assert_eq!(offset.item_ix, 20);
    assert_eq!(offset.offset_in_item, px(29.0));
    let visible_height = rows[offset.item_ix..=index]
        .iter()
        .copied()
        .map(sidebar_row_height)
        .fold(0, |height, row| height + row)
        - offset.offset_in_item;
    assert_eq!(visible_height, px(400.0));
    assert_eq!(sidebar_session_row_index(&rows, 41), None);
}

#[test]
fn sidebar_time_labels_report_the_last_reply_age() {
    let catalog = english();
    assert_eq!(format_time_ago(&catalog, 0), "just now");
    assert_eq!(format_time_ago(&catalog, 59), "just now");
    assert_eq!(format_time_ago(&catalog, 300), "5m");
    assert_eq!(format_time_ago(&catalog, 7_200), "2h");
    assert_eq!(format_time_ago(&catalog, 420 * 86_400), "420d");

    // Never replied: the row stays quiet, so a fresh task shows no age.
    let mut session = new_session(new_id());
    assert_eq!(session_time_label(&catalog, &session, 1_000), None);

    // The reply's age, whatever the session is doing. A live turn is spoken
    // for by the row's spinner, and the waiting, background and failed states
    // by their own icons, so this no longer competes with them for the slot.
    session.begin_turn("go".to_owned(), new_id(), new_id(), 9);
    session.status = SessionStatus::Working;
    session.last_reply_at = Some(40);
    assert_eq!(
        session_time_label(&catalog, &session, 340).as_deref(),
        Some("5m")
    );

    session.status = SessionStatus::Background;
    assert_eq!(
        session_time_label(&catalog, &session, 340).as_deref(),
        Some("5m")
    );

    session.status = SessionStatus::Waiting;
    assert_eq!(
        session_time_label(&catalog, &session, 340).as_deref(),
        Some("5m")
    );
}

// ── The list ───────────────────────────────────────────────────────────────

fn entry(id: Id, project_id: Id, timestamp: u64) -> SidebarEntry {
    SidebarEntry {
        id,
        project_id,
        timestamp,
    }
}

fn history() -> SidebarHistory {
    SidebarHistory {
        entries: vec![
            entry(1, 10, 1_000_000),
            entry(2, 20, 1_000_100),
            entry(3, 10, 900),
        ],
        projects: vec![
            SidebarProject {
                id: 10,
                projectless: false,
            },
            SidebarProject {
                id: 20,
                projectless: true,
            },
        ],
        selected_project: Some(10),
    }
}

const NOW: u64 = 1_000_200;

fn today() -> CalendarDate {
    waku::calendar::local_date(NOW).expect("the moment has a date")
}

#[test]
fn projects_list_their_recent_sessions() {
    let state = SidebarState::new(SidebarGrouping::Project, SidebarOrdering::Newest);
    let project = SidebarGroup::Project(10);
    assert_eq!(
        sidebar_rows(&state, &history(), today(), NOW),
        vec![
            SidebarRow::Search,
            SidebarRow::Header(project),
            SidebarRow::Session(1),
            SidebarRow::ShowMore(project),
            SidebarRow::GroupSpacer,
            SidebarRow::Header(SidebarGroup::Projectless),
            SidebarRow::Session(2),
            SidebarRow::GroupSpacer,
        ]
    );
}

#[test]
fn revealing_shows_what_was_hidden() {
    let mut state = SidebarState::new(SidebarGrouping::Project, SidebarOrdering::Newest);
    show_more_project_sessions(&mut state, SidebarGroup::Project(10));
    let rows = sidebar_rows(&state, &history(), today(), NOW);
    assert!(rows.contains(&SidebarRow::Session(3)));
    assert!(!rows.contains(&SidebarRow::ShowMore(SidebarGroup::Project(10))));
}

#[test]
fn periods_list_all_of_their_sessions() {
    let state = SidebarState::new(SidebarGrouping::Updated, SidebarOrdering::Oldest);
    let rows = sidebar_rows(&state, &history(), today(), NOW);
    let listed = rows
        .iter()
        .filter_map(|row| match row {
            SidebarRow::Session(id) => Some(*id),
            _ => None,
        })
        .collect::<Vec<_>>();
    assert_eq!(listed, vec![3, 1, 2]);
    assert_eq!(session_date_group(NOW, today()), SessionDateGroup::Today);
}

#[test]
fn folding_and_opening_a_section() {
    let mut state = SidebarState::new(SidebarGrouping::Project, SidebarOrdering::Newest);
    let group = SidebarGroup::Project(10);
    assert!(set_sidebar_group_collapsed(&mut state, group, true));
    assert!(!set_sidebar_group_collapsed(&mut state, group, true));
    let rows = sidebar_rows(&state, &history(), today(), NOW);
    assert!(!rows.contains(&SidebarRow::Session(1)));
    assert!(toggle_sidebar_group(&mut state, group));
    assert_eq!(
        sidebar_rows(&state, &history(), today(), NOW),
        sidebar_rows(
            &SidebarState::new(SidebarGrouping::Project, SidebarOrdering::Newest),
            &history(),
            today(),
            NOW
        )
    );
    let rows = sidebar_rows(&state, &history(), today(), NOW);
    assert!(collapse_all_sidebar_groups(&mut state, &rows));
    assert_eq!(state.collapsed.len(), 2);
    assert!(!collapse_all_sidebar_groups(&mut state, &rows));
}

#[test]
fn the_fingerprint_tells_histories_apart() {
    let state = SidebarState::new(SidebarGrouping::Project, SidebarOrdering::Newest);
    let base = sidebar_rows_fingerprint(&state, &history(), today(), NOW);
    assert_eq!(
        base,
        sidebar_rows_fingerprint(&state, &history(), today(), NOW)
    );
    let mut changed = history();
    changed.entries.pop();
    assert_ne!(
        base,
        sidebar_rows_fingerprint(&state, &changed, today(), NOW)
    );
    let mut folded = SidebarState::new(SidebarGrouping::Project, SidebarOrdering::Newest);
    toggle_sidebar_group(&mut folded, SidebarGroup::Project(10));
    toggle_sidebar_group(&mut folded, SidebarGroup::Projectless);
    let mut turned = SidebarState::new(SidebarGrouping::Project, SidebarOrdering::Newest);
    toggle_sidebar_group(&mut turned, SidebarGroup::Projectless);
    toggle_sidebar_group(&mut turned, SidebarGroup::Project(10));
    assert_eq!(
        sidebar_rows_fingerprint(&folded, &history(), today(), NOW),
        sidebar_rows_fingerprint(&turned, &history(), today(), NOW),
        "the order of folding does not count"
    );
}

#[test]
fn cached_rows_are_made_again_only_after_a_change() {
    let mut state = SidebarState::new(SidebarGrouping::Project, SidebarOrdering::Newest);
    let mut snapshot = SidebarSnapshot { rows: Vec::new() };
    sidebar_rows_cached(&mut snapshot, &mut state, &history(), today(), NOW);
    assert_eq!(snapshot.rows.len(), 8);
    snapshot.rows.clear();
    sidebar_rows_cached(&mut snapshot, &mut state, &history(), today(), NOW);
    assert!(snapshot.rows.is_empty());
    toggle_sidebar_group(&mut state, SidebarGroup::Project(10));
    sidebar_rows_cached(&mut snapshot, &mut state, &history(), today(), NOW);
    assert!(!snapshot.rows.is_empty());
}

#[test]
fn grouping_and_ordering_change_once() {
    let mut state = SidebarState::new(SidebarGrouping::Project, SidebarOrdering::Newest);
    assert!(!set_sidebar_grouping(&mut state, SidebarGrouping::Project));
    assert!(set_sidebar_grouping(&mut state, SidebarGrouping::Updated));
    assert!(!set_sidebar_ordering(&mut state, SidebarOrdering::Newest));
    assert!(set_sidebar_ordering(&mut state, SidebarOrdering::Oldest));
    let catalog = english();
    assert_eq!(
        sidebar_grouping_label(&catalog, SidebarGrouping::Updated),
        "By date"
    );
    assert_eq!(
        sidebar_ordering_label(&catalog, SidebarOrdering::Oldest),
        "Oldest first"
    );
    let (groupings, orderings) = sidebar_options(&catalog, &state);
    assert!(groupings
        .iter()
        .any(|choice| choice.selected && choice.label == "By date"));
    assert!(orderings
        .iter()
        .any(|choice| choice.selected && choice.label == "Oldest first"));
}

#[test]
fn titles_are_edited_kept_and_given_up() {
    let catalog = english();
    let mut state = SidebarState::new(SidebarGrouping::Project, SidebarOrdering::Newest);
    let mut session = new_session(1);
    let session_id = session.id;
    assert_eq!(localized_session_title(&catalog, &session), "New task");
    session.title = Some("Fix it".to_owned());
    let mut sessions = vec![session];
    assert_eq!(
        begin_session_rename(&mut state, &catalog, &sessions, session_id).as_deref(),
        Some("Fix it")
    );
    assert!(commit_session_rename(&mut state, &mut sessions, "  Mend it "));
    assert_eq!(sessions[0].title.as_deref(), Some("Mend it"));
    assert_eq!(state.rename, None);
    begin_session_rename(&mut state, &catalog, &sessions, session_id);
    assert!(cancel_session_rename(&mut state));
    assert!(!cancel_session_rename(&mut state));
    begin_session_rename(&mut state, &catalog, &sessions, session_id);
    assert!(!commit_session_rename(&mut state, &mut sessions, "   "));
    assert_eq!(sessions[0].title.as_deref(), Some("Mend it"));
}

#[test]
fn branches_are_looked_up_once_for_each_history() {
    let mut state = SidebarState::new(SidebarGrouping::Project, SidebarOrdering::Newest);
    let history = history();
    let generation = begin_branch_scan(&mut state, &history.entries, &history.projects)
        .expect("nothing was looked up yet");
    assert!(accepts_branch_labels(&state, generation));
    assert_eq!(
        begin_branch_scan(&mut state, &history.entries, &history.projects),
        None
    );
    invalidate_workspace_queries(&mut state);
    assert!(!accepts_branch_labels(&state, generation));
    assert!(begin_branch_scan(&mut state, &history.entries, &history.projects).is_some());

    let project = Project {
        id: 10,
        name: "Ten".to_owned(),
        path: "/ten".to_owned(),
        created_at: 0,
    };
    assert_eq!(
        branch_scan_paths(&history.entries, &vec![project], &history.projects),
        vec!["/ten".to_owned()]
    );
    let mut labels = Table { rows: Vec::new() };
    cache_sidebar_branch_label(&mut labels, "/ten", &Some("main".to_owned()));
    assert_eq!(labels.get("/ten").map(String::as_str), Some("main"));
    cache_sidebar_branch_label(&mut labels, "/ten", &None);
    assert!(labels.get("/ten").is_none());
}

#[test]
fn only_started_sessions_are_listed() {
    let draft = new_session(1);
    let mut started = new_session(1);
    started.begin_turn("go".to_owned(), new_id(), new_id(), 5);
    let id = started.id;
    let entries = sidebar_entries(&vec![draft, started]);
    assert_eq!(
        entries.iter().map(|entry| entry.id).collect::<Vec<_>>(),
        vec![id]
    );
    let listed = sidebar_projects(
        &vec![Project {
            id: 1,
            name: "One".to_owned(),
            path: "/root/one".to_owned(),
            created_at: 0,
        }],
        &Some("/root".to_owned()),
    );
    assert!(listed[0].projectless);
}

#[test]
fn sections_have_keys_of_their_own() {
    let id = 0x0123_4567_89ab_cdef_0123_4567_89ab_cdef;
    assert!(SidebarGroup::Project(id)
        .element_key()
        .ends_with("01234567-89ab-cdef-0123-456789abcdef"));
    assert_ne!(
        SidebarGroup::Projectless.element_key(),
        SidebarGroup::Updated(SessionDateGroup::Today).element_key()
    );
    assert_ne!(
        SidebarGroup::Projectless.mix_fingerprint(1),
        SidebarGroup::Updated(SessionDateGroup::Today).mix_fingerprint(1)
    );
}

// ── What is shown ──────────────────────────────────────────────────────────

#[test]
fn a_row_out_of_view_is_brought_into_view() {
    let rows = vec![
        SidebarRow::Search,
        SidebarRow::Session(1),
        SidebarRow::Session(2),
    ];
    assert_eq!(
        reveal_sidebar_list_row(&rows, 1, 0, px(400.0), Some((px(42.0), px(75.0))), 0),
        RevealStep::Stay
    );
    assert_eq!(
        reveal_sidebar_list_row(&rows, 0, 0, px(400.0), None, 2),
        RevealStep::Scroll {
            offset: ListOffset {
                item_ix: 0,
                offset_in_item: 0
            }
        }
    );
}

#[test]
fn rows_on_screen_follow_the_list() {
    let mut cached = vec![SidebarRow::Search, SidebarRow::Session(1)];
    let rows = vec![
        SidebarRow::Search,
        SidebarRow::Session(2),
        SidebarRow::Session(1),
    ];
    assert_eq!(
        sync_sidebar_rows(&mut cached, &rows),
        SidebarSync::Splice {
            start: 1,
            end: 2,
            count: 2
        }
    );
    assert_eq!(cached, rows);
    assert_eq!(
        sync_sidebar_rows(&mut cached, &rows),
        SidebarSync::Unchanged
    );
    assert_eq!(sidebar_row(&rows, 1), RowContent::Session { id: 2 });
    assert_eq!(sidebar_row(&rows, 9), RowContent::Nothing);
}

#[test]
fn headers_fold_and_compose() {
    let catalog = english();
    let state = SidebarState::new(SidebarGrouping::Project, SidebarOrdering::Newest);
    let projects = vec![Project {
        id: 10,
        name: "Ten".to_owned(),
        path: "/ten".to_owned(),
        created_at: 0,
    }];
    let header = sidebar_group_header(
        &catalog,
        &state,
        &projects,
        SidebarGroup::Project(10),
        true,
        true,
    );
    assert_eq!(header.label, "Ten");
    assert!(header.compose_id.is_some());
    assert!(header.shows_actions);
    let header = sidebar_group_header(
        &catalog,
        &state,
        &projects,
        SidebarGroup::Updated(SessionDateGroup::Today),
        false,
        false,
    );
    assert_eq!(header.label, "Today");
    assert!(header.compose_id.is_none());
    assert!(header.chevron_turned.is_some());

    assert!(key_presses("enter") && key_presses("space") && !key_presses("a"));
    assert_eq!(group_header_key("enter", false), HeaderKey::Toggle);
    assert_eq!(group_header_key("left", false), HeaderKey::Collapse);
    assert_eq!(group_header_key("right", true), HeaderKey::Expand);
    assert_eq!(group_header_key("a", true), HeaderKey::Ignored);
    assert_eq!(
        open_new_task_for_sidebar_group(SidebarGroup::Project(10)),
        GroupCompose::SelectProject(10)
    );
    assert_eq!(
        open_new_task_for_sidebar_group(SidebarGroup::Projectless),
        GroupCompose::Projectless
    );
    assert_eq!(
        open_new_task_for_sidebar_group(SidebarGroup::Updated(SessionDateGroup::Today)),
        GroupCompose::Nothing
    );
}

#[test]
fn a_session_row_is_marked_by_what_it_does() {
    let catalog = english();
    let state = SidebarState::new(SidebarGrouping::Project, SidebarOrdering::Newest);
    let mut session = new_session(1);
    let id = session.id;
    session.last_reply_at = Some(40);
    let item = |session: AgentSession| {
        sidebar_session_item(&catalog, &state, &vec![session], id, Some(id), None, 340)
            .expect("the session is there")
    };
    let idle = item(session);
    assert!(idle.selected);
    assert_eq!(idle.title, "New task");
    assert!(matches!(idle.mark, SessionMark::Age(Some(age)) if age == "5m"));
    let mut session = AgentSession::new(id, 1, ProviderKind::Codex, 1);
    session.status = SessionStatus::Working;
    assert!(matches!(item(session).mark, SessionMark::Spinner));
    let mut session = AgentSession::new(id, 1, ProviderKind::Codex, 1);
    session.status = SessionStatus::Failed;
    assert!(matches!(item(session).mark, SessionMark::Cross));
    assert!(sidebar_session_item(&catalog, &state, &vec![], id, None, None, 1).is_none());
    assert_eq!(session_item_key("enter", false, false), SessionKey::Select);
    assert_eq!(session_item_key("enter", false, true), SessionKey::Ignored);
}

#[test]
fn the_header_carries_what_is_hidden() {
    let catalog = english();
    let chrome = WindowChrome {
        sidebar_visible: false,
        right_panel_visible: true,
        sidebar_width: px(200.0),
        button_clearance: px(80.0),
        has_back: true,
        has_forward: false,
    };
    let header = window_header(&catalog, None, &None, chrome);
    assert!(header.hosts_sidebar_controls);
    assert!(!header.hosts_panel_controls);
    assert!(header.can_go_back && !header.can_go_forward);
}

#[test]
fn frames_are_rated() {
    assert_eq!(frame_rate(0), FrameRate::Unknown);
    assert_ne!(frame_rate(120), frame_rate(5));
    assert!(frame_rate_label(60).contains("60"));
}

#[test]
fn an_empty_window_asks_for_a_project_or_a_task() {
    let catalog = Catalog {
        entries: Vec::new(),
    };
    assert!(matches!(
        empty_state(&catalog, &Vec::new(), None),
        EmptyState::Onboarding { title, .. } if title == "onboarding.open_project_to_begin"
    ));
    let info = |id, name: &str, projectless| ProjectInfo {
        id,
        name: name.to_owned(),
        projectless,
    };
    let projects = vec![
        info(2, "Two", false),
        info(1, "One", false),
        info(3, "Loose", true),
    ];
    match empty_state(&catalog, &projects, Some(1)) {
        EmptyState::InProject { name, menu, .. } => {
            assert_eq!(name, "One");
            assert_eq!(menu.choices.len(), 2);
            assert!(menu.choices[0].selected && menu.choices[0].name == "One");
            assert!(menu.separator);
            assert_eq!(menu.new_project.label, "project.new_project");
            assert_eq!(menu.no_project.label, "project.no_project");
            assert!(!menu.no_project.selected);
        }
        _ => panic!("a project is selected"),
    }
    assert!(matches!(
        empty_state(&catalog, &projects, Some(3)),
        EmptyState::Projectless { .. }
    ));
}

#[test]
fn a_project_is_picked_once() {
    assert_eq!(
        pick_project(ProjectPick::Project(1), Some(1), false),
        ProjectPickStep::Nothing
    );
    assert_eq!(
        pick_project(ProjectPick::Project(2), Some(1), false),
        ProjectPickStep::Select(2)
    );
    assert_eq!(
        pick_project(ProjectPick::NewProject, Some(1), false),
        ProjectPickStep::AddProject
    );
    assert_eq!(
        pick_project(ProjectPick::NoProject, Some(1), false),
        ProjectPickStep::Projectless
    );
    assert_eq!(
        pick_project(ProjectPick::NoProject, Some(3), true),
        ProjectPickStep::Nothing
    );
}

#[test]
fn an_update_is_started_once() {
    assert_eq!(
        updater_button(UpdateStatus::Idle, false, 0),
        UpdaterButton::Hidden
    );
    assert_eq!(
        updater_button(UpdateStatus::Updating, false, 0),
        UpdaterButton::Busy
    );
    assert!(matches!(
        updater_button(UpdateStatus::Available, true, 1),
        UpdaterButton::Ready { expanded: true, .. }
    ));
    assert_eq!(
        start_available_update(UpdateStatus::Available, true),
        UpdateStatus::Updating
    );
    assert_eq!(
        start_available_update(UpdateStatus::Idle, true),
        UpdateStatus::Idle
    );
}
