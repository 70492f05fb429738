use waku::daemon::{
    daemon_executable_path, daemon_file_name, daemon_search, debug_directory, local_hostname,
    name_length, start_process, DaemonFiles, DaemonPath, DaemonStart,
};
use waku::driver::{
    apply_options, encode_failure, fork, invalid_attachment, is_replayed, notify_failure,
    received, rollback, session_thread_name, start_remote, AttachReply, DaemonReply, Link,
    LinkInput, LinkPhase, LinkStep,
};
use waku::events::DriverEvent;
use waku::session::RuntimeEventCursor;
use waku::swap::{
    kept_report, poll_relaunch, retained_report, Action, Observation, Outcome, Place, Poll, Update,
};
use waku::updater::{
    error_record, name_step, no_name_left, one_line_error, record_step, staging_name_prefix,
    validate_packaged_layout, Argument, Arguments, Entry, Handoff, Layout, Lookup, NameProbe,
    NameStep, RecordPlace, RecordStep, Surroundings, MANAGED_MARKER, MANAGED_MARKER_CONTENTS,
    MAX_ERROR_LENGTH,
};

fn arguments(texts: &[&str]) -> Vec<Argument> {
    texts
        .iter()
        .map(|text| Argument {
            shown: text.to_string(),
            is_text: true,
        })
        .collect()
}

#[test]
fn arguments_reject_repetition_and_missing_values() {
    assert!(Arguments::parse(&arguments(&[
        "--install-dir",
        "/tmp/one",
        "--install-dir",
        "/tmp/two",
    ]))
    .is_err());
    assert!(Arguments::parse(&arguments(&["--staged-dir"])).is_err());
}

fn refusal(texts: &[&str]) -> String {
    match Arguments::parse(&arguments(texts)) {
        Ok(_) => panic!("the command line is refused"),
        Err(error) => error.message(),
    }
}

#[test]
fn a_command_line_is_read_in_any_order() {
    let parsed = Arguments::parse(&arguments(&[
        "--parent-pid",
        "+42",
        "--staged-dir",
        "/tmp/b",
        "--install-dir",
        "/tmp/a",
    ]))
    .unwrap_or_else(|error| panic!("{}", error.message()));
    assert_eq!(parsed.parent_pid, 42);
    assert_eq!(parsed.staged_dir, 3);
    assert_eq!(parsed.install_dir, 5);
}

#[test]
fn each_refusal_has_its_words() {
    assert_eq!(refusal(&["--staged-dir"]), "--staged-dir requires a value");
    assert_eq!(refusal(&["-x", "1"]), "unknown or repeated argument -x");
    assert_eq!(
        refusal(&["--parent-pid", "1", "--parent-pid", "2"]),
        "unknown or repeated argument --parent-pid"
    );
    for number in ["", "x", "4294967296", "-1", "+"] {
        assert_eq!(
            refusal(&["--parent-pid", number]),
            "--parent-pid is not a process id"
        );
    }
    let raw = vec![
        Argument {
            shown: "--parent-pid".to_owned(),
            is_text: true,
        },
        Argument {
            shown: "\u{fffd}".to_owned(),
            is_text: false,
        },
    ];
    match Arguments::parse(&raw) {
        Ok(_) => panic!("the value is not text"),
        Err(error) => assert_eq!(error.message(), "--parent-pid is not UTF-8"),
    }
    assert_eq!(refusal(&[]), "--install-dir is required");
    assert_eq!(
        refusal(&["--install-dir", "a"]),
        "--staged-dir is required"
    );
    assert_eq!(
        refusal(&["--install-dir", "a", "--staged-dir", "b"]),
        "--parent-pid is required"
    );
}

fn executable() -> Entry {
    Entry::File { mode: 0o100_755 }
}

fn layout() -> Layout {
    Layout {
        prefix: Entry::Directory,
        marker: Entry::File { mode: 0o100_644 },
        marker_contents: Some(MANAGED_MARKER_CONTENTS.to_owned()),
        application: executable(),
        daemon: executable(),
        helper: executable(),
    }
}

#[test]
fn a_packaged_install_is_marked_and_complete() {
    assert_eq!(MANAGED_MARKER, "share/waku/self-update-v1");
    assert_eq!(validate_packaged_layout(&layout()), None);

    let mut changed = layout();
    changed.daemon = Entry::Failed {
        error: "no such file".to_owned(),
    };
    assert_eq!(
        validate_packaged_layout(&changed).as_deref(),
        Some("no such file")
    );
    let mut changed = layout();
    changed.daemon = Entry::File { mode: 0o100_644 };
    assert_eq!(
        validate_packaged_layout(&changed).as_deref(),
        Some("the install is missing executable bin/waku-daemon")
    );
    let mut changed = layout();
    changed.helper = Entry::Other;
    assert_eq!(
        validate_packaged_layout(&changed).as_deref(),
        Some("the install is missing executable bin/waku-updater")
    );
    let mut changed = layout();
    changed.marker_contents = Some("something else".to_owned());
    assert_eq!(
        validate_packaged_layout(&changed).as_deref(),
        Some("the install is not marked as a Kerenzikov-managed tarball")
    );
    let mut changed = layout();
    changed.prefix = Entry::Other;
    assert_eq!(
        validate_packaged_layout(&changed).as_deref(),
        Some("the Kerenzikov prefix is not a real directory")
    );
}

fn surroundings() -> Surroundings {
    Surroundings {
        effective_user: 1_000,
        declared_parent: 42,
        actual_parent: 42,
        install_error: None,
        staged_error: None,
        parent: Lookup::Found,
        home: Lookup::Found,
        under_home: true,
        beside: true,
        install_name: Some("waku.app".to_owned()),
        staged_name: Some(".waku.app.update-test".to_owned()),
        install_layout: layout(),
        staged_layout: layout(),
        running_error: None,
        expected_error: None,
        same_helper: true,
    }
}

#[test]
fn an_update_is_carried_out_only_where_everything_is_in_place() {
    let handoff = match Handoff::validate(&surroundings()) {
        Ok(handoff) => handoff,
        Err(message) => panic!("{message}"),
    };
    assert_eq!(handoff.prefix_name, "waku.app");
    assert_eq!(handoff.parent_pid, 42);
    assert_eq!(handoff.error_name(), ".waku.app.update-error");
    assert_eq!(
        handoff.unique_name("update-backup", 17, 3),
        ".waku.app.update-backup-17-3"
    );
    assert_eq!(staging_name_prefix("waku.app"), ".waku.app.update-");

    let cases: Vec<(fn(&mut Surroundings), &str)> = vec![
        (
            |found| found.effective_user = 0,
            "refusing to self-update from a root desktop session",
        ),
        (
            |found| found.actual_parent = 1,
            "the update helper was not launched directly by Kerenzikov",
        ),
        (
            |found| found.install_error = Some("gone".to_owned()),
            "could not resolve the current install: gone",
        ),
        (
            |found| found.staged_error = Some("gone".to_owned()),
            "could not resolve the staged install: gone",
        ),
        (
            |found| found.parent = Lookup::Missing,
            "the install has no parent directory",
        ),
        (
            |found| found.home = Lookup::Missing,
            "the user's home directory is unavailable",
        ),
        (
            |found| found.under_home = false,
            "the install is outside the user's home directory",
        ),
        (
            |found| found.beside = false,
            "the staged install is not beside the current install",
        ),
        (
            |found| found.install_name = None,
            "the install directory has no UTF-8 name",
        ),
        (
            |found| found.staged_name = Some(".other.update-test".to_owned()),
            "the staged install name does not belong to this Kerenzikov prefix",
        ),
        (
            |found| found.staged_name = None,
            "the staged install name does not belong to this Kerenzikov prefix",
        ),
        (
            |found| found.staged_layout.application = Entry::Other,
            "the install is missing executable bin/waku",
        ),
        (
            |found| found.running_error = Some("no helper".to_owned()),
            "no helper",
        ),
        (
            |found| found.same_helper = false,
            "the helper is not running from the install it was asked to replace",
        ),
    ];
    for (change, expected) in cases {
        let mut found = surroundings();
        change(&mut found);
        match Handoff::validate(&found) {
            Ok(_) => panic!("{expected}"),
            Err(message) => assert_eq!(message, expected),
        }
    }
}

#[test]
fn names_are_tried_a_hundred_times() {
    assert_eq!(name_step(1, &NameProbe::Free), NameStep::Use);
    assert_eq!(name_step(99, &NameProbe::Taken), NameStep::TryNext);
    assert_eq!(name_step(100, &NameProbe::Taken), NameStep::GiveUp);
    assert_eq!(name_step(1, &NameProbe::Failed), NameStep::Fail);
    assert_eq!(
        no_name_left("update-ready"),
        "could not reserve a unique update-ready path"
    );
}

#[test]
fn failures_are_recorded_on_one_line_and_within_bounds() {
    assert_eq!(error_record("oops"), "oops\n");
    let long = "é".repeat(MAX_ERROR_LENGTH);
    let record = error_record(&long);
    assert_eq!(record.len(), MAX_ERROR_LENGTH + 1);
    let odd = format!("a{long}");
    assert_eq!(error_record(&odd).len(), MAX_ERROR_LENGTH);
    assert_eq!(record_step(&RecordPlace::Directory), RecordStep::Leave);
    assert_eq!(record_step(&RecordPlace::Unknown), RecordStep::Leave);
    assert_eq!(record_step(&RecordPlace::Other), RecordStep::Replace);
    assert_eq!(record_step(&RecordPlace::Nothing), RecordStep::Create);
    assert_eq!(one_line_error("a\r\n\tb"), "a   b");
    assert_eq!(one_line_error(&"x".repeat(2_000)).len(), 1_024);
}

fn performed(outcomes: Vec<Outcome>) -> (Vec<(Place, Place)>, Option<Option<String>>) {
    let mut update = Update::new();
    let mut moves = Vec::new();
    for outcome in outcomes {
        if let Action::Move { from, to } = update.action() {
            if !matches!(outcome, Outcome::Failed { .. }) {
                moves.push((from, to));
            }
        }
        update.advance(&outcome);
    }
    let finished = match update.action() {
        Action::Finish { reason } => Some(reason),
        _ => None,
    };
    (moves, finished)
}

fn done(count: usize) -> Vec<Outcome> {
    (0..count).map(|_| Outcome::Done).collect()
}

fn failed(error: &str) -> Outcome {
    Outcome::Failed {
        error: error.to_owned(),
    }
}

#[test]
fn an_acknowledged_update_swaps_the_builds() {
    let (moves, finished) = performed(done(11));
    assert_eq!(
        moves,
        vec![
            (Place::Install, Place::Backup),
            (Place::Staged, Place::Install)
        ]
    );
    assert_eq!(finished, Some(None));
}

#[test]
fn an_update_that_exits_early_is_rolled_back() {
    let mut outcomes = done(7);
    outcomes.push(Outcome::Exited {
        status: "exit status: 1".to_owned(),
    });
    outcomes.extend(done(7));
    let (moves, finished) = performed(outcomes);
    assert_eq!(
        moves,
        vec![
            (Place::Install, Place::Backup),
            (Place::Staged, Place::Install),
            (Place::Install, Place::Failed),
            (Place::Backup, Place::Install)
        ]
    );
    assert_eq!(
        finished,
        Some(Some(
            "the updated Kerenzikov build exited before its window opened (exit status: 1)"
                .to_owned()
        ))
    );
}

#[test]
fn an_update_that_takes_too_long_keeps_both_builds() {
    let mut outcomes = done(7);
    outcomes.push(Outcome::TimedOut);
    outcomes.push(Outcome::Done);
    let (moves, finished) = performed(outcomes);
    assert_eq!(moves.len(), 2);
    assert_eq!(finished, Some(None));
}

#[test]
fn each_failed_step_is_told() {
    let (moves, finished) = performed(vec![failed("full")]);
    assert!(moves.is_empty());
    assert_eq!(finished, Some(Some("full".to_owned())));

    let (moves, finished) = performed(vec![
        Outcome::Done,
        failed("denied"),
        Outcome::Done,
        Outcome::Done,
    ]);
    assert!(moves.is_empty());
    assert_eq!(
        finished,
        Some(Some(
            "could not preserve the current Kerenzikov install: denied".to_owned()
        ))
    );

    let mut outcomes = done(3);
    outcomes.push(failed("denied"));
    outcomes.extend(done(4));
    let (moves, finished) = performed(outcomes);
    assert_eq!(
        moves,
        vec![
            (Place::Install, Place::Backup),
            (Place::Backup, Place::Install)
        ]
    );
    assert_eq!(
        finished,
        Some(Some(
            "could not activate the staged Kerenzikov install: denied".to_owned()
        ))
    );

    let mut outcomes = done(3);
    outcomes.push(failed("denied"));
    outcomes.push(failed("busy"));
    assert_eq!(
        performed(outcomes).1,
        Some(Some(
            "the staged install could not be activated (denied) and the previous install could not be restored: busy"
                .to_owned()
        ))
    );

    let mut outcomes = done(6);
    outcomes.push(failed("no exec"));
    outcomes.extend(done(2));
    outcomes.push(failed("busy"));
    outcomes.push(Outcome::Done);
    let (moves, finished) = performed(outcomes);
    assert_eq!(moves.last(), Some(&(Place::Failed, Place::Install)));
    assert_eq!(
        finished,
        Some(Some(
            "could not restore the previous Kerenzikov install: busy".to_owned()
        ))
    );
}

#[test]
fn a_build_is_awaited_until_it_reports_ends_or_takes_too_long() {
    let over = |poll: Poll| match poll {
        Poll::Over { outcome } => Some(outcome),
        Poll::LookAgain => None,
    };
    let exited = Observation::Exited {
        status: "1".to_owned(),
    };
    assert!(matches!(
        over(poll_relaunch(true, &exited, true)),
        Some(Outcome::Done)
    ));
    assert!(matches!(
        over(poll_relaunch(false, &exited, true)),
        Some(Outcome::Exited { status }) if status == "1"
    ));
    assert!(over(poll_relaunch(false, &Observation::Running, false)).is_none());
    assert!(matches!(
        over(poll_relaunch(false, &Observation::Running, true)),
        Some(Outcome::TimedOut)
    ));
    assert!(matches!(
        over(poll_relaunch(false, &Observation::Unknown, false)),
        Some(Outcome::TimedOut)
    ));
    assert_eq!(
        kept_report("/b", "busy"),
        "update succeeded but the rollback copy /b could not be removed: busy"
    );
    assert!(retained_report("/b").ends_with("retaining /b"));
}

// ── The daemon ─────────────────────────────────────────────────────────────

#[test]
fn a_daemon_elsewhere_needs_an_address_and_a_token() {
    let text = |value: &str| Some(value.to_owned());
    let start = |address, token| start_process(&address, &token, "ADDRESS", "TOKEN");
    assert!(matches!(
        start(text(" host:1 "), text("t")),
        DaemonStart::Connect { address, token } if address == "host:1" && token == "t"
    ));
    assert!(matches!(
        start(text("host:1"), text("")),
        DaemonStart::Refused { message } if message == "ADDRESS is set but TOKEN is missing"
    ));
    assert!(matches!(
        start(text("  "), text("t")),
        DaemonStart::Refused { message } if message == "TOKEN is set but ADDRESS is missing"
    ));
    assert!(matches!(start(None, None), DaemonStart::Spawn));
}

#[test]
fn a_machine_is_called_by_its_first_name() {
    assert_eq!(name_length(&vec![104, 105, 0, 120]), 2);
    assert_eq!(name_length(&vec![104]), 1);
    let names = |names: &[&str]| names.iter().map(|name| name.to_string()).collect();
    assert_eq!(
        local_hostname(&names(&[" ", " box ", "other"])).as_deref(),
        Some("box")
    );
    assert_eq!(local_hostname(&names(&["", "\t"])), None);
}

#[test]
fn the_daemon_is_found_where_it_may_be() {
    let files = || DaemonFiles {
        named: false,
        current_error: None,
        development: false,
        in_debug: true,
        sibling: Some("/app/waku-daemon".to_owned()),
        sibling_is_file: true,
    };
    assert!(matches!(
        daemon_executable_path(&files()),
        DaemonPath::Sibling
    ));
    let mut found = files();
    found.development = true;
    assert!(matches!(
        daemon_executable_path(&found),
        DaemonPath::InDebug
    ));
    let mut found = files();
    found.named = true;
    assert!(matches!(daemon_executable_path(&found), DaemonPath::Named));
    let mut found = files();
    found.sibling_is_file = false;
    assert!(matches!(
        daemon_executable_path(&found),
        DaemonPath::Missing { message }
            if message == "Kerenzikov daemon is missing next to the app executable: /app/waku-daemon"
    ));
    let mut found = files();
    found.sibling = None;
    assert!(matches!(
        daemon_executable_path(&found),
        DaemonPath::Missing { message }
            if message == "Kerenzikov executable has no parent directory"
    ));
    assert_eq!(daemon_file_name(false, ".exe"), "waku-daemon.exe");
    assert_eq!(daemon_file_name(true, ""), "waku-debug-daemon");
    let names = vec![Some("waku".to_owned()), Some("debug".to_owned())];
    let search = daemon_search(true, "", &names);
    assert_eq!(search.debug, Some((1, "waku-debug-daemon".to_owned())));
    assert_eq!(search.sibling, "waku-daemon");
    let search = daemon_search(false, "", &names);
    assert_eq!(search.debug, None);
    assert_eq!(search.sibling, "waku-daemon");
    assert_eq!(
        debug_directory(&vec![
            Some("waku".to_owned()),
            None,
            Some("debug".to_owned()),
            Some("debug".to_owned())
        ]),
        Some(2)
    );
    assert_eq!(debug_directory(&vec![None]), None);
}

// ── The link ───────────────────────────────────────────────────────────────

fn cursor(sequence: u64) -> RuntimeEventCursor {
    RuntimeEventCursor {
        runtime_id: 1,
        epoch: 2,
        sequence,
    }
}

fn delivered(sequence: u64, event: DriverEvent) -> LinkInput {
    LinkInput::Delivered {
        cursor: cursor(sequence),
        event,
    }
}

#[test]
fn events_that_were_seen_are_not_told_again() {
    assert!(is_replayed(Some(cursor(5)), cursor(5)));
    assert!(!is_replayed(Some(cursor(5)), cursor(6)));
    assert!(!is_replayed(None, cursor(0)));
    let other = RuntimeEventCursor {
        epoch: 3,
        ..cursor(1)
    };
    assert!(!is_replayed(Some(cursor(5)), other));

    let mut link = Link::new(1, Some(cursor(5)));
    assert!(matches!(
        link.step(delivered(5, DriverEvent::TurnStarted)),
        LinkStep::Nothing
    ));
    assert!(matches!(
        link.step(delivered(6, DriverEvent::TurnStarted)),
        LinkStep::Forward { cursor, .. } if cursor.sequence == 6
    ));
    assert!(matches!(
        link.step(delivered(7, DriverEvent::ProcessExited)),
        LinkStep::ForwardLast { .. }
    ));
    assert_eq!(link.phase, LinkPhase::Over);
    assert!(matches!(
        link.step(LinkInput::Shutdown),
        LinkStep::Nothing
    ));
}

#[test]
fn a_lost_connection_waits_for_the_next_daemon() {
    let mut link = Link::new(1, None);
    assert!(matches!(
        link.step(LinkInput::Disconnected { closed: false }),
        LinkStep::Wait
    ));
    assert!(matches!(
        link.step(LinkInput::Connection { same: true }),
        LinkStep::Nothing
    ));
    assert!(matches!(
        link.step(LinkInput::Connection { same: false }),
        LinkStep::Attach
    ));
    let attached = |reply| LinkInput::Attached { reply };
    assert!(matches!(
        link.step(attached(AttachReply::Failed)),
        LinkStep::Adopt
    ));
    link.step(LinkInput::Disconnected { closed: false });
    link.step(LinkInput::Connection { same: false });
    assert!(matches!(
        link.step(attached(AttachReply::Runtime {
            runtime_id: Some(1)
        })),
        LinkStep::Resubscribe
    ));
    assert_eq!(link.phase, LinkPhase::Listening);
    link.step(LinkInput::Disconnected { closed: false });
    link.step(LinkInput::Connection { same: false });
    assert!(matches!(
        link.step(attached(AttachReply::Runtime { runtime_id: None })),
        LinkStep::ReportExit
    ));

    let mut link = Link::new(1, None);
    assert!(matches!(
        link.step(LinkInput::Disconnected { closed: true }),
        LinkStep::Leave
    ));
    let mut link = Link::new(1, None);
    link.step(LinkInput::Disconnected { closed: false });
    link.step(LinkInput::Connection { same: false });
    assert!(matches!(
        link.step(attached(AttachReply::Other)),
        LinkStep::ReportInvalid
    ));
    assert_eq!(
        invalid_attachment(),
        "Kerenzikov daemon returned an invalid runtime attachment response"
    );
}

#[test]
fn replies_are_read_for_what_they_are() {
    assert_eq!(
        start_remote(&Ok(DaemonReply::Started {
            supports_steer: true
        })),
        Ok(true)
    );
    assert_eq!(
        start_remote(&Ok(DaemonReply::Other)),
        Err("Kerenzikov daemon returned an invalid start response".to_owned())
    );
    assert_eq!(
        start_remote(&Err("gone".to_owned())),
        Err("gone".to_owned())
    );
    assert!(apply_options(&Ok(DaemonReply::OptionsApplied {
        applied: true
    })));
    assert!(!apply_options(&Ok(DaemonReply::OptionsApplied {
        applied: false
    })));
    assert!(!apply_options(&Err("gone".to_owned())));
    assert_eq!(
        rollback(&Ok(DaemonReply::Cursor { cursor: None })),
        Ok(None)
    );
    assert_eq!(
        rollback(&Ok(DaemonReply::Other)),
        Err("Kerenzikov daemon returned an invalid rollback response".to_owned())
    );
    assert_eq!(
        fork(&Ok(DaemonReply::Cursor {
            cursor: Some("c".to_owned())
        })),
        Ok("c".to_owned())
    );
    assert_eq!(
        fork(&Ok(DaemonReply::Cursor { cursor: None })),
        Err("Kerenzikov daemon returned an invalid fork response".to_owned())
    );
    assert!(matches!(
        notify_failure("gone"),
        DriverEvent::Error(text) if text == "Kerenzikov daemon command failed: gone"
    ));
    assert!(matches!(
        encode_failure("bad"),
        DriverEvent::Error(text) if text == "could not encode background-work command: bad"
    ));
    assert!(matches!(
        received(Err("bad".to_owned())),
        DriverEvent::Error(text) if text == "Kerenzikov daemon sent an invalid event: bad"
    ));
    assert!(matches!(
        received(Ok(DriverEvent::TurnStarted)),
        DriverEvent::TurnStarted
    ));
    assert_eq!(
        session_thread_name(0x0123_4567_89ab_cdef_0123_4567_89ab_cdef),
        "waku-daemon-session-01234567-89ab-cdef-0123-456789abcdef"
    );
}
