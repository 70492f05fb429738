use std::collections::HashMap;
use waku::calendar::SessionDateGroup;
use waku::controls::AppGrant;
use waku::i18n::{Catalog, Entry};
use waku::memory::{
    add_memory_fact, delete_memory_fact, ensure_memory, finish_memory_load, memory_page, Fact,
    ForgetStep, LoadEnd, MemoryPage, MemoryState, RememberStep,
};
use waku::messages::{
    attachment_tile_key, message_attachments, message_footer, message_menu_items, message_row,
    AssistantMessageAction, CopiedControls, CopiedMessages, FooterControl, MessageBody,
    MessageContext, MessageMenuItem, TileContent, TileKey, UserMessageAction,
};
use waku::model::{Attachment, Message, MessageRole, ProviderKind, RuntimeMode, SessionStatus};
use waku::session::{AgentSession, TodoItem, TodoStatus};
use waku::settings::{
    abbreviate_home_path, appearance_settings, apply_daemon_exposure, apply_daemon_exposure_fields,
    apply_provider_path_override, computer_use_settings, copy_button, cycle_settings_page,
    daemon_copied, daemon_exposure_fields_dirty, daemon_exposure_from_fields, daemon_settings,
    detection_checked_label, finish_daemon_restart, page_layout, provider_override_caption,
    provider_refresh_labels, provider_row, regenerate_daemon_token, reported_permissions,
    request_computer_permissions, revoke_computer_app, set_computer_use_enabled, set_language,
    set_theme_preference,
    set_daemon_exposure_enabled, set_provider_enabled, settings_page_title, settings_search_query,
    toggle_provider_expanded, visible_settings_pages, BinaryOverride, DaemonCopy, DaemonExposure,
    DaemonPageState, ExposureStep, Offered, OfferedValue, PermissionReply, ProviderDot,
    ProviderNames, ProviderProbe, SettingsPage,
};
use waku::tasks::RememberedSettings;
use waku::todo::{todo_panel, todo_progress, todo_progress_label, TODO_VISIBLE_LIMIT};

fn english() -> Catalog {
    let texts = [
        ("settings.general", "General"),
        ("settings.general_keywords", "updates privacy"),
        ("settings.appearance", "Appearance"),
        ("settings.appearance_keywords", "theme language font"),
        ("settings.providers", "Providers"),
        ("settings.providers_keywords", "amp codex binary"),
        ("settings.skills", "Skills"),
        ("settings.skills_keywords", "Skills agents Codex"),
        ("settings.memory", "Memory"),
        ("settings.memory_keywords", "facts remember"),
        ("settings.usage", "Usage"),
        ("settings.usage_keywords", "tokens codex"),
        ("settings.daemon", "Daemon"),
        ("settings.daemon_keywords", "port token network"),
        ("settings.computer_use", "Computer Use"),
        ("settings.computer_use_keywords", "screen codex"),
        ("daemon.invalid_port", "Not a port"),
        ("providers.checked_just_now", "Checked just now"),
        ("providers.checked_minutes_ago", "Checked %{count}m ago"),
        ("providers.checked_hours_ago", "Checked %{count}h ago"),
        ("providers.detected_at", "Detected at %{path}"),
        ("providers.searches_path", "Searches for %{command}"),
        ("providers.invalid_override", "Not usable"),
        ("providers.using_override", "Using %{path}"),
        ("providers.not_detected_as", "No %{command}"),
        ("providers.model_count_one", "%{count} model"),
        ("providers.model_count_many", "%{count} models"),
        ("todo.more", "%{count} more"),
        ("common.copied", "Copied"),
        ("common.copy", "Copy"),
    ];
    Catalog {
        entries: texts
            .into_iter()
            .map(|(key, template)| Entry {
                key: key.to_owned(),
                template: template.to_owned(),
            })
            .collect(),
    }
}

fn pages(query: &str, computer_use_available: bool) -> Vec<SettingsPage> {
    visible_settings_pages(&english(), query, computer_use_available)
        .into_iter()
        .map(|row| row.page)
        .collect()
}

#[test]
fn settings_search_filters_pages_for_arrow_cycling() {
    for computer_use in [false, true] {
        // An empty query keeps every page in sidebar order, so the arrows cycle
        // the full navigation even before anything is typed.
        let mut all_pages = vec![
            SettingsPage::General,
            SettingsPage::Appearance,
            SettingsPage::Providers,
            SettingsPage::Skills,
            SettingsPage::Memory,
            SettingsPage::Usage,
            SettingsPage::Daemon,
        ];
        if computer_use {
            all_pages.push(SettingsPage::ComputerUse);
        }
        assert_eq!(pages("", computer_use), all_pages);

        assert_eq!(pages("theme", computer_use), vec![SettingsPage::Appearance]);
        assert_eq!(pages("skill", computer_use), vec![SettingsPage::Skills]);

        // A keyword shared across pages keeps them all reachable.
        let mut codex_pages = vec![
            SettingsPage::Providers,
            SettingsPage::Skills,
            SettingsPage::Usage,
        ];
        if computer_use {
            codex_pages.push(SettingsPage::ComputerUse);
        }
        assert_eq!(pages("codex", computer_use), codex_pages);

        assert_eq!(pages("no such setting", computer_use), vec![]);
    }
}

#[test]
fn computer_use_navigation_is_macos_debug_only() {
    assert!(SettingsPage::General.is_visible_in_navigation(false));
    assert!(!SettingsPage::ComputerUse.is_visible_in_navigation(false));
    assert!(SettingsPage::ComputerUse.is_visible_in_navigation(true));
}

#[test]
fn provider_paths_abbreviate_only_the_home_prefix() {
    let home = Some("/Users/example".to_owned());

    assert_eq!(
        abbreviate_home_path("/Users/example/.local/bin/amp", &home),
        "~/.local/bin/amp"
    );
    assert_eq!(
        abbreviate_home_path("/opt/homebrew/bin/codex", &home),
        "/opt/homebrew/bin/codex"
    );
}

#[test]
fn arrows_cycle_what_the_search_shows() {
    let catalog = english();
    let next = |query: &str, page, key: &str| cycle_settings_page(&catalog, query, false, page, key);
    assert_eq!(
        next("codex", Some(SettingsPage::Providers), "down"),
        Some(SettingsPage::Skills)
    );
    assert_eq!(
        next("codex", Some(SettingsPage::Providers), "up"),
        Some(SettingsPage::Usage)
    );
    assert_eq!(next("no such setting", None, "down"), None);
    assert_eq!(settings_search_query("  Theme "), "theme");
    assert_eq!(
        settings_page_title(&catalog, SettingsPage::Memory),
        "Memory"
    );
}

#[test]
fn pages_are_laid_out_by_what_they_show() {
    assert!(page_layout(SettingsPage::Skills, false, true).owns_column);
    let usage = page_layout(SettingsPage::Usage, true, true);
    assert!(usage.wide && usage.fills_viewport && !usage.shows_scroll_edge);
    let general = page_layout(SettingsPage::General, false, true);
    assert!(!general.wide && general.shows_scroll_edge);
}

fn exposure() -> DaemonExposure {
    DaemonExposure {
        enabled: false,
        port: 4_000,
        allowed_origins: vec!["https://a.example".to_owned()],
        token: "secret".to_owned(),
    }
}

#[test]
fn the_exposure_is_read_from_its_fields() {
    let catalog = english();
    let origins = || Ok(vec!["https://b.example".to_owned()]);
    let read = |port: &str| daemon_exposure_from_fields(&catalog, &exposure(), port, origins());
    for port in ["", "0", "65536", "http", "-1"] {
        assert_eq!(read(port).err().as_deref(), Some("Not a port"));
    }
    let named = read(" 8080 ").unwrap_or_else(|_| panic!("the port is one"));
    assert_eq!(named.port, 8_080);
    assert_eq!(named.allowed_origins, ["https://b.example"]);
    assert_eq!(named.token, "secret");
    assert_eq!(
        daemon_exposure_from_fields(&catalog, &exposure(), "80", Err("bad origin".to_owned()))
            .err()
            .as_deref(),
        Some("bad origin")
    );
    assert!(daemon_exposure_fields_dirty(&exposure(), &Ok(named)));
    assert!(!daemon_exposure_fields_dirty(&exposure(), &Ok(exposure())));
}

#[test]
fn switching_off_ignores_the_fields() {
    let failed = || -> Result<DaemonExposure, String> { Err("bad".to_owned()) };
    let catalog = Catalog {
        entries: vec![Entry {
            key: "daemon.invalid_settings".to_owned(),
            template: "Invalid: %{error}".to_owned(),
        }],
    };
    let mut revealed = true;
    let off = set_daemon_exposure_enabled(&catalog, &exposure(), false, failed(), &mut revealed)
        .unwrap_or_else(|_| panic!("switching off needs no fields"));
    assert!(!off.enabled);
    assert_eq!(off.port, 4_000);
    assert!(!revealed);
    revealed = true;
    let refused = set_daemon_exposure_enabled(&catalog, &exposure(), true, failed(), &mut revealed);
    assert_eq!(refused.err().as_deref(), Some("Invalid: bad"));
    assert!(revealed);
    let on = set_daemon_exposure_enabled(
        &catalog,
        &exposure(),
        true,
        Ok(exposure()),
        &mut revealed,
    );
    assert!(on.is_ok_and(|settings| settings.enabled));
    assert!(revealed);
    let refused = regenerate_daemon_token(&catalog, failed(), "new".to_owned(), &mut revealed);
    assert_eq!(refused.err().as_deref(), Some("Invalid: bad"));
    assert!(revealed);
    let renewed =
        regenerate_daemon_token(&catalog, Ok(exposure()), "new".to_owned(), &mut revealed)
            .unwrap_or_else(|_| panic!("the fields are right"));
    assert_eq!(renewed.token, "new");
    assert!(!revealed);
    assert!(apply_daemon_exposure_fields(&catalog, Ok(exposure())).is_ok());
    assert_eq!(
        apply_daemon_exposure_fields(&catalog, failed()).err().as_deref(),
        Some("Invalid: bad")
    );
}

#[test]
fn a_restart_waits_for_running_tasks() {
    let mut open = exposure();
    open.enabled = true;
    let mut session = AgentSession::new(1, 2, ProviderKind::Codex, 1);
    let step = |session: &AgentSession, pending, remote, settings: &DaemonExposure| {
        let mut copy = AgentSession::new(session.id, 2, ProviderKind::Codex, 1);
        copy.status = session.status;
        apply_daemon_exposure(&exposure(), settings, pending, remote, &vec![copy])
    };
    assert_eq!(
        step(&session, true, false, &open),
        ExposureStep::Nothing
    );
    assert_eq!(
        step(&session, false, false, &exposure()),
        ExposureStep::Nothing
    );
    assert_eq!(step(&session, false, true, &open), ExposureStep::External);
    assert_eq!(step(&session, false, false, &open), ExposureStep::Restart);
    session.status = SessionStatus::Working;
    assert_eq!(
        step(&session, false, false, &open),
        ExposureStep::TasksRunning
    );
}

#[test]
fn a_token_is_shown_only_when_asked_for() {
    let catalog = english();
    let state = DaemonPageState {
        reconfigure_pending: false,
        token_revealed: false,
        url_copied: true,
        token_copied: false,
        fields_dirty: true,
    };
    assert!(daemon_settings(&catalog, true, &exposure(), "host", state).is_none());
    let panel =
        daemon_settings(&catalog, false, &exposure(), "host", state).expect("the daemon is ours");
    assert!(!panel.token.contains("secret"));
    assert_eq!(panel.copy_url.label, "Copied");
    assert!(panel.websocket_url.contains("host") && panel.websocket_url.contains("4000"));
    let revealed = daemon_settings(
        &catalog,
        false,
        &exposure(),
        "host",
        DaemonPageState {
            token_revealed: true,
            ..state
        },
    )
    .expect("the daemon is ours");
    assert_eq!(revealed.token, "secret");
    assert_eq!(copy_button(&catalog, false).label, "Copy");
}

#[test]
fn appearance_offers_four_choices() {
    let catalog = english();
    let value = |value, label: &str| OfferedValue {
        value,
        label: label.to_owned(),
    };
    let offered = |label: &str, current| Offered {
        current: value(current, label),
        values: vec![value(0, "One"), value(1, "Two")],
    };
    let panel = appearance_settings(
        &catalog,
        &offered("Dark", 1),
        &offered("English", 0),
        &offered("14", 14),
        &offered("13", 13),
    );
    assert_eq!(panel.theme.label, "Dark");
    assert!(panel.theme.choices[1].selected && !panel.theme.choices[0].selected);
    assert!(panel.language.choices[0].selected);
    assert!(panel
        .ui_font_size
        .choices
        .iter()
        .all(|choice| !choice.selected));
}

#[test]
fn detection_tells_how_old_it_is() {
    let catalog = english();
    assert_eq!(detection_checked_label(&catalog, 30), "Checked just now");
    assert_eq!(detection_checked_label(&catalog, 120), "Checked 2m ago");
    assert_eq!(detection_checked_label(&catalog, 7_200), "Checked 2h ago");
    let (label, _) = provider_refresh_labels(&catalog, true, Some(3));
    let (other, checked) = provider_refresh_labels(&catalog, false, Some(120));
    assert_ne!(label, other);
    assert_eq!(checked.as_deref(), Some("Checked 2m ago"));
}

fn names() -> ProviderNames {
    ProviderNames {
        id: "codex".to_owned(),
        display_name: "Codex".to_owned(),
        short_name: "Codex".to_owned(),
        command: "codex".to_owned(),
    }
}

#[test]
fn a_provider_row_tells_what_was_found() {
    let catalog = english();
    let home = Some("/home/me".to_owned());
    let missing = provider_row(&catalog, &names(), None, &home, &None, false, false);
    assert_eq!(missing.dot, ProviderDot::Missing);
    assert_eq!(missing.detail, "No codex");
    assert!(!missing.shows_toggle);
    let probe = ProviderProbe {
        installed: true,
        path: Some("/home/me/bin/codex".to_owned()),
        model_count: 2,
        catalog_error: None,
    };
    let found = provider_row(&catalog, &names(), Some(&probe), &home, &None, false, true);
    assert_eq!(found.dot, ProviderDot::Ready);
    assert!(found.detail.contains("~/bin/codex") && found.detail.contains("2 models"));
    let off = provider_row(&catalog, &names(), Some(&probe), &home, &None, true, true);
    assert_eq!(off.dot, ProviderDot::SwitchedOff);
    assert!(!off.enabled);

    assert_eq!(
        provider_override_caption(&catalog, &names(), false, None),
        "Searches for codex"
    );
    assert_eq!(
        provider_override_caption(&catalog, &names(), false, Some(&probe)),
        "Detected at /home/me/bin/codex"
    );
    assert_eq!(
        provider_override_caption(&catalog, &names(), true, None),
        "Not usable"
    );
    assert_eq!(
        provider_override_caption(&catalog, &names(), true, Some(&probe)),
        "Using /home/me/bin/codex"
    );
}

#[test]
fn a_binary_can_be_chosen_by_hand() {
    let mut overrides: Vec<BinaryOverride> = Vec::new();
    assert_eq!(
        apply_provider_path_override(&mut overrides, None, "/bin/x"),
        None
    );
    assert_eq!(
        apply_provider_path_override(&mut overrides, Some(ProviderKind::Codex), " /bin/x "),
        Some(ProviderKind::Codex)
    );
    assert_eq!(overrides[0].path, "/bin/x");
    let (expanded, field) =
        toggle_provider_expanded(None, &overrides, ProviderKind::Codex);
    assert_eq!(expanded, Some(ProviderKind::Codex));
    assert_eq!(field.as_deref(), Some("/bin/x"));
    let (folded, _) = toggle_provider_expanded(expanded, &overrides, ProviderKind::Codex);
    assert_eq!(folded, None);
    apply_provider_path_override(&mut overrides, Some(ProviderKind::Codex), "  ");
    assert!(overrides.is_empty());
}

#[test]
fn a_provider_that_is_switched_off_is_left_by_drafts() {
    let mut disabled = Vec::new();
    let mut remembered = RememberedSettings {
        provider: ProviderKind::Codex,
        runtime_mode: RuntimeMode::Ask,
        model: Some("m".to_owned()),
        reasoning_effort: None,
        service_tier: None,
        context_window: None,
    };
    let draft = AgentSession::new(1, 2, ProviderKind::Codex, 1);
    let mut started = AgentSession::new(3, 2, ProviderKind::Codex, 1);
    started.begin_turn("go".to_owned(), 4, 5, 1);
    let mut sessions = vec![draft, started];
    let all = vec![ProviderKind::Amp, ProviderKind::Codex];
    set_provider_enabled(
        &mut disabled,
        &mut remembered,
        &mut sessions,
        &all,
        ProviderKind::Codex,
        false,
    );
    assert_eq!(disabled, vec![ProviderKind::Codex]);
    assert_eq!(remembered.provider, ProviderKind::Amp);
    assert_eq!(sessions[0].provider, ProviderKind::Amp);
    assert_eq!(sessions[1].provider, ProviderKind::Codex);
    set_provider_enabled(
        &mut disabled,
        &mut remembered,
        &mut sessions,
        &all,
        ProviderKind::Codex,
        true,
    );
    assert!(disabled.is_empty());
}

#[test]
fn consent_can_be_taken_back() {
    let catalog = english();
    let mut grants = vec![AppGrant {
        bundle_id: "app".to_owned(),
        app_name: "App".to_owned(),
        key: "k".to_owned(),
    }];
    let panel = computer_use_settings(&catalog, true, true, false, false, "Helper", &grants);
    assert_eq!(panel.apps.len(), 1);
    assert!(panel.no_apps.is_none());
    assert!(panel.screen_recording.granted && !panel.accessibility.granted);
    revoke_computer_app(&mut grants, "k");
    assert!(grants.is_empty());
    let panel = computer_use_settings(&catalog, true, true, false, false, "Helper", &grants);
    assert!(panel.no_apps.is_some());
    let mut pending = false;
    assert_eq!(request_computer_permissions(&mut pending, false), Some(false));
    assert_eq!(request_computer_permissions(&mut pending, true), None);
    let mut enabled = false;
    assert_eq!(set_computer_use_enabled(&mut enabled, &mut pending, true), None);
    assert!(enabled);
    pending = false;
    assert_eq!(
        set_computer_use_enabled(&mut enabled, &mut pending, true),
        Some(true)
    );
    pending = false;
    assert_eq!(
        set_computer_use_enabled(&mut enabled, &mut pending, false),
        None
    );
    assert!(!enabled && !pending);
    assert_eq!(reported_permissions(PermissionReply::Permissions(3)), Ok(3));
    assert_eq!(
        reported_permissions(PermissionReply::<u32>::Other),
        Err("the daemon returned an invalid permission response".to_owned())
    );
    assert_eq!(
        reported_permissions(PermissionReply::<u32>::Failed {
            error: "gone".to_owned()
        }),
        Err("gone".to_owned())
    );
}

// ── Plans ──────────────────────────────────────────────────────────────────

fn todo(content: &str, status: TodoStatus) -> TodoItem {
    TodoItem {
        content: content.to_owned(),
        status,
    }
}

#[test]
fn progress_counts_only_completed_entries() {
    let todos = vec![
        todo("a", TodoStatus::Completed),
        todo("b", TodoStatus::InProgress),
        todo("c", TodoStatus::Cancelled),
        todo("d", TodoStatus::Pending),
    ];

    // Cancelled is unfinished, not done: a plan the agent abandoned must
    // not read as complete.
    assert_eq!(todo_progress(&todos), (1, 4));
    assert_eq!(todo_progress(&vec![]), (0, 0));
}

#[test]
fn every_status_is_open_except_the_two_terminal_ones() {
    assert!(TodoStatus::Pending.is_open());
    assert!(TodoStatus::InProgress.is_open());
    assert!(!TodoStatus::Completed.is_open());
    assert!(!TodoStatus::Cancelled.is_open());
}

#[test]
fn a_long_plan_is_cut() {
    let catalog = english();
    let todos = (0..TODO_VISIBLE_LIMIT + 3)
        .map(|index| todo(&format!("{index}"), TodoStatus::Pending))
        .collect::<Vec<_>>();
    let panel = todo_panel(&catalog, &todos).expect("there is a plan");
    assert_eq!(panel.rows.len(), TODO_VISIBLE_LIMIT);
    assert_eq!(panel.more.as_deref(), Some("3 more"));
    assert_eq!(panel.progress, todo_progress_label(&todos));
    assert!(panel.progress.contains("11"));
}

// ── Memory ─────────────────────────────────────────────────────────────────

#[test]
fn facts_are_read_kept_and_forgotten() {
    let catalog = english();
    let mut state = MemoryState {
        facts: None,
        project: None,
        reading: None,
        pending: false,
        generation: 0,
        delete_arming: None,
    };
    assert!(matches!(
        memory_page(&catalog, &state, &None),
        MemoryPage::NoProject
    ));
    let project = Some("/p".to_owned());
    let first = ensure_memory(&mut state, &project, false).expect("nothing was read");
    assert!(matches!(
        memory_page(&catalog, &state, &project),
        MemoryPage::Unread { loading: true }
    ));
    assert_eq!(ensure_memory(&mut state, &project, true), None);
    let facts = || {
        vec![
            Fact {
                title: "old".to_owned(),
                body: "o".to_owned(),
            },
            Fact {
                title: "new".to_owned(),
                body: "n".to_owned(),
            },
        ]
    };
    assert_eq!(
        finish_memory_load(&mut state, first + 1, &project, facts()),
        LoadEnd::Overtaken
    );
    assert_eq!(
        finish_memory_load(&mut state, first, &project, facts()),
        LoadEnd::Taken
    );
    assert_eq!(state.project.as_deref(), Some("/p"));
    assert_eq!(ensure_memory(&mut state, &Some("/p/".to_owned()), false), None);
    match memory_page(&catalog, &state, &project) {
        MemoryPage::Facts { rows } => {
            assert_eq!(rows[0].title, "new");
            assert!(!rows[0].armed);
        }
        _ => panic!("the facts are there"),
    }
    assert_eq!(
        delete_memory_fact(&mut state, true, "old"),
        ForgetStep::Armed
    );
    assert_eq!(
        delete_memory_fact(&mut state, true, "old"),
        ForgetStep::Forget
    );
    assert_eq!(
        delete_memory_fact(&mut state, false, "old"),
        ForgetStep::NoProject
    );
    assert!(matches!(
        add_memory_fact(false, "x"),
        RememberStep::NoProject
    ));
    assert!(matches!(add_memory_fact(true, "  "), RememberStep::Usage));
    assert!(matches!(
        add_memory_fact(true, " x "),
        RememberStep::Remember { fact } if fact == "x"
    ));
}

#[test]
fn facts_of_one_project_are_never_kept_as_anothers() {
    let catalog = english();
    let mut state = MemoryState {
        facts: None,
        project: None,
        reading: None,
        pending: false,
        generation: 0,
        delete_arming: None,
    };
    let fact = |title: &str| {
        vec![Fact {
            title: title.to_owned(),
            body: String::new(),
        }]
    };
    let first = Some("/a".to_owned());
    let second = Some("/b".to_owned());
    let reading = ensure_memory(&mut state, &first, false).expect("nothing was read");
    // The selection moves while the first project's facts are being read.
    assert_eq!(ensure_memory(&mut state, &second, false), None);
    let end = finish_memory_load(&mut state, reading, &second, fact("a"));
    let next = state.generation;
    assert_eq!(end, LoadEnd::Superseded { next: Some(next) });
    assert_eq!(state.reading, second);
    assert!(state.facts.is_none());
    assert!(matches!(
        memory_page(&catalog, &state, &second),
        MemoryPage::Unread { loading: true }
    ));
    assert_eq!(
        finish_memory_load(&mut state, next, &second, fact("b")),
        LoadEnd::Taken
    );
    assert_eq!(state.project, second);
    // Another project's facts are not shown as the selected one's.
    assert!(matches!(
        memory_page(&catalog, &state, &first),
        MemoryPage::Unread { loading: false }
    ));
}

// ── Messages ───────────────────────────────────────────────────────────────

fn message(role: MessageRole, content: &str) -> Message {
    Message::new(7, role, content.to_owned(), None, 100)
}

fn plain_context() -> MessageContext {
    MessageContext {
        footer_copy_content: None,
        footer_time: None,
        assistant_action: None,
        user_action: None,
        edit_input: None,
    }
}

#[test]
fn a_prompt_an_answer_and_a_note_are_laid_out() {
    let prompt = message_row(&message(MessageRole::User, "Do it"), &plain_context());
    assert_eq!(prompt.content, "Do it");
    assert!(matches!(
        prompt.body,
        MessageBody::Prompt {
            shows_text: true,
            shows_attachments: false,
            ..
        }
    ));
    let mut context = plain_context();
    context.edit_input = Some("  ".to_owned());
    assert!(matches!(
        message_row(&message(MessageRole::User, "Do it"), &context).body,
        MessageBody::Editing {
            can_submit: false,
            ..
        }
    ));
    let mut context = plain_context();
    context.footer_copy_content = Some("All of it".to_owned());
    context.footer_time = Some(9);
    match message_row(&message(MessageRole::Assistant, "Part"), &context).body {
        MessageBody::Answer { footer: Some(plan) } => {
            assert_eq!(plan.copy_content, "All of it");
            assert_eq!(plan.time, 9);
        }
        _ => panic!("the answer carries its footer"),
    }
    assert!(matches!(
        message_row(&message(MessageRole::System, "Stopped"), &plain_context()).body,
        MessageBody::Note
    ));
}

#[test]
fn footers_offer_what_can_be_done() {
    let catalog = english();
    let controls = message_footer(
        &catalog,
        7,
        "9:05".to_owned(),
        true,
        false,
        Some(AssistantMessageAction {
            session_id: 1,
            turn_count: 2,
            enabled: true,
            preparing: false,
        }),
        None,
    );
    assert!(controls
        .iter()
        .any(|control| matches!(control, FooterControl::Time { label } if label == "9:05")));
    assert!(controls
        .iter()
        .any(|control| matches!(control, FooterControl::Copy { tooltip, .. } if tooltip == "Copied")));
    assert!(controls
        .iter()
        .any(|control| matches!(control, FooterControl::Fork { enabled: true, .. })));
    let items = message_menu_items(
        &catalog,
        "```\ncode\n```",
        MessageRole::User,
        Some(UserMessageAction {
            session_id: 1,
            message_id: 7,
        }),
        None,
        Some("part".to_owned()),
    );
    assert!(matches!(
        &items[0],
        MessageMenuItem::CopySelection { text, .. } if text == "part"
    ));
    assert!(items
        .iter()
        .any(|item| matches!(item, MessageMenuItem::CopyCode { code, .. } if code == "code")));
    assert!(items
        .iter()
        .any(|item| matches!(item, MessageMenuItem::Revert { .. })));
}

#[test]
fn attachments_are_shown_as_tiles() {
    let mut prompt = message(MessageRole::User, "look");
    let file = |name: &str, is_image, is_dir| Attachment {
        name: name.to_owned(),
        path: format!("/{name}"),
        is_image,
        is_dir,
    };
    prompt.attachments = vec![
        file("a.png", true, false),
        file("b.png", true, false),
        file("dir", false, true),
        file("c.txt", false, false),
    ];
    let tiles = message_attachments(&prompt, 4, &vec![true, false, false, false]);
    assert_eq!(
        tiles.iter().map(|tile| tile.content).collect::<Vec<_>>(),
        vec![
            TileContent::Image,
            TileContent::ImagePending,
            TileContent::Folder,
            TileContent::File
        ]
    );
    assert_eq!(
        attachment_tile_key(TileContent::Image, "enter", false),
        TileKey::Enlarge
    );
    assert_eq!(
        attachment_tile_key(TileContent::File, "a", false),
        TileKey::Ignored
    );
}

#[test]
fn what_was_copied_is_marked_for_a_while() {
    let mut controls = CopiedControls::new();
    let first = controls.show_control_copied("url");
    let second = controls.show_control_copied("url");
    assert!(controls.control_was_copied("url"));
    assert!(!controls.expire_control("url", first));
    assert!(controls.control_was_copied("url"));
    assert!(controls.expire_control("url", second));
    assert!(!controls.control_was_copied("url"));
    let mut messages = CopiedMessages::new();
    let mark = messages.show_message_copied(7);
    assert!(messages.expire_message(7, mark));
    assert!(!messages.expire_message(7, mark));
}

#[test]
fn periods_are_named() {
    let catalog = english();
    assert_eq!(SessionDateGroup::Today.index(), 0);
    assert_eq!(SessionDateGroup::More.index(), 5);
    // A text that the catalog lacks stands for itself.
    assert_eq!(SessionDateGroup::More.label(&catalog), "sidebar.more");
}

#[test]
fn the_answer_to_a_restart_is_taken_up() {
    let catalog = Catalog {
        entries: vec![Entry {
            key: "daemon.restart_failed".to_owned(),
            template: "Failed: %{error}".to_owned(),
        }],
    };
    let mut current = exposure();
    let mut pending = true;
    let mut runtimes = HashMap::from([(1, ())]);
    let applied = || DaemonExposure {
        port: 4_500,
        ..exposure()
    };
    let end = finish_daemon_restart(
        &catalog,
        &mut current,
        &mut pending,
        &mut runtimes,
        applied(),
        Err("no".to_owned()),
    );
    assert!(!pending);
    assert_eq!(end.toast, "Failed: no");
    assert!(end.fields.is_none());
    assert_eq!(runtimes.len(), 1);
    assert_ne!(current.port, 4500);
    let end = finish_daemon_restart(
        &catalog,
        &mut current,
        &mut pending,
        &mut runtimes,
        applied(),
        Ok(()),
    );
    assert_eq!(end.toast, "daemon.settings_applied");
    assert_eq!(end.fields.expect("the fields are filled").port, "4500");
    assert!(runtimes.is_empty());
    assert_eq!(current.port, 4500);
}

#[test]
fn the_token_is_copied_though_it_is_hidden() {
    let settings = exposure();
    assert_eq!(
        daemon_copied(DaemonCopy::Token, &settings, "host"),
        settings.token
    );
    assert_eq!(
        daemon_copied(DaemonCopy::Url, &settings, "host"),
        format!("ws://host:{}", settings.port)
    );
}

#[test]
fn another_language_renames_the_fields() {
    let catalog = Catalog {
        entries: vec![Entry {
            key: "input.do_anything".to_owned(),
            template: "Frag etwas".to_owned(),
        }],
    };
    let mut language = 0;
    assert!(set_language(&catalog, &mut language, 0).is_none());
    let placeholders = set_language(&catalog, &mut language, 1).expect("it is another one");
    assert_eq!(placeholders.composer, "Frag etwas");
    assert_eq!(placeholders.skills_search, "skills.search");
    assert_eq!(language, 1);
    let mut theme = 2;
    assert!(!set_theme_preference(&mut theme, 2));
    assert!(set_theme_preference(&mut theme, 1));
    assert_eq!(theme, 1);
}
