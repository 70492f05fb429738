use waku::analytics::{
    analytics_available, env_flag, Analytics, BuildInfo, Event, Taken, TurnOutcome,
};

fn build() -> BuildInfo {
    BuildInfo {
        version: "1.2.3".to_owned(),
        platform: "linux".to_owned(),
        arch: "x86_64".to_owned(),
        debug: false,
    }
}

#[test]
fn debug_builds_never_enable_analytics() {
    let set = Some("https://stats.example".to_owned());
    let website = Some("id".to_owned());
    assert!(!analytics_available(true, &None, &set, &website));
    assert!(analytics_available(false, &None, &set, &website));
    assert!(!analytics_available(false, &None, &None, &website));
    assert!(!analytics_available(false, &None, &set, &None));
    assert!(!analytics_available(
        false,
        &Some("1".to_owned()),
        &set,
        &website
    ));
}

#[test]
fn sharing_preference_gates_events_before_the_queue() {
    let mut analytics = Analytics::with_capacity(true, false, 1);

    analytics.track(Event::ProjectAdded);
    assert!(matches!(analytics.take_next(), Taken::Empty));

    analytics.set_enabled(true);
    analytics.track(Event::ProjectAdded);
    assert!(matches!(
        analytics.take_next(),
        Taken::Send(Event::ProjectAdded)
    ));

    analytics.set_enabled(false);
    analytics.track(Event::ProjectAdded);
    assert!(matches!(analytics.take_next(), Taken::Empty));
}

#[test]
fn turn_events_expose_only_coarse_product_metadata() {
    let (name, data) = Event::TurnSubmitted {
        provider: "codex",
        model: "gpt-5".to_owned(),
        turn_number: 2,
        workspace: "worktree",
        projectless: false,
        attachment_count: 1,
        has_input: true,
    }
    .into_track(&build());

    assert_eq!(name, "provider.turn.sent");
    assert_eq!(data["provider"], "codex");
    assert_eq!(data["model"], "gpt-5");
    assert_eq!(data["workspace"], "worktree");
    assert_eq!(data["clientType"], "desktop");
    assert!(data.get("prompt").is_none());
    assert!(data.get("project_path").is_none());
    assert!(data.get("user_id").is_none());
}

#[test]
fn a_full_queue_takes_no_more() {
    let mut analytics = Analytics::with_capacity(true, true, 1);
    analytics.track(Event::ProjectAdded);
    analytics.track(Event::RightPanelOpened);
    assert!(matches!(
        analytics.take_next(),
        Taken::Send(Event::ProjectAdded)
    ));
    assert!(matches!(analytics.take_next(), Taken::Empty));
}

#[test]
fn switching_off_drops_what_waits() {
    let mut analytics = Analytics::new(true, true);
    analytics.track(Event::ProjectAdded);
    analytics.set_enabled(false);
    assert!(matches!(analytics.take_next(), Taken::Dropped));
    assert!(matches!(analytics.take_next(), Taken::Empty));
    // A build that cannot send takes nothing.
    let mut silent = Analytics::new(false, true);
    silent.set_enabled(true);
    silent.track(Event::ProjectAdded);
    assert!(matches!(silent.take_next(), Taken::Empty));
}

#[test]
fn finished_turns_tell_their_outcome() {
    let (name, data) = Event::TurnFinished {
        provider: "amp",
        turn_number: 3,
        outcome: TurnOutcome::ProcessExited,
        duration_seconds: 12,
    }
    .into_track(&build());
    assert!(name.starts_with("provider.turn."));
    assert!(data
        .values()
        .any(|value| value == TurnOutcome::ProcessExited.id()));
    assert!(data.values().any(|value| value == 12));
    let (_, launched) = Event::AppLaunched {
        task_count: 4,
        project_count: 2,
    }
    .into_track(&build());
    assert!(launched.values().any(|value| value == 4));
    assert_eq!(launched["version"], "1.2.3");
    assert_eq!(launched["taskCount"], 4);
    assert_eq!(launched["projectCount"], 2);
    let (_, sent) = Event::TurnSubmitted {
        provider: "amp",
        model: "m".to_owned(),
        turn_number: 1,
        workspace: "local",
        projectless: true,
        attachment_count: 0,
        has_input: false,
    }
    .into_track(&build());
    assert_eq!(sent["projectless"], true);
    assert_eq!(sent["hasInput"], false);
}

#[test]
fn switches_are_read_generously() {
    assert!(env_flag("1") && env_flag(" TRUE ") && env_flag("yes") && env_flag("on"));
    assert!(!env_flag("0") && !env_flag("") && !env_flag("off"));
}
