use wdm::session::ChildStep;
use wdm::supervise::{
    create_cache_dir, create_runtime_dir, describe_exit, hand_over_runtime_dir, DirStep,
    Disposition, Exit, Greeter, GreeterError, KillAction, KillSeen, Waited, GRACE,
    GREETER_GAVE_UP_EXIT, LAST_WAIT, MAX_RAPID_FAILURES, RAPID_FAILURE,
};
use wdm::users::Account;

const SECOND: u64 = 1_000_000_000;
const NOW: u64 = 1_000 * SECOND;

fn greeter(command: &str) -> Greeter {
    Greeter::new(command, "nobody", "wayland-test", false, &None).expect("greeter")
}

fn restart_delay(disposition: &Disposition) -> Option<u64> {
    match disposition {
        Disposition::Restart { delay, .. } => Some(*delay),
        Disposition::GaveUp { .. } => None,
    }
}

fn reason_of(disposition: &Disposition) -> &str {
    match disposition {
        Disposition::Restart { reason, .. } | Disposition::GaveUp { reason } => reason,
    }
}

fn wdm_account() -> Account {
    Account {
        name: "wdm".to_owned(),
        uid: 950,
        gid: 951,
        gecos: String::new(),
        home: b"/var/lib/wdm".to_vec(),
        shell: b"/usr/sbin/nologin".to_vec(),
        avatar_path: String::new(),
    }
}

#[test]
fn supervise_rejects_empty_command() {
    assert!(matches!(
        Greeter::new("   ", "nobody", "wayland-test", false, &None),
        Err(GreeterError::EmptyCommand)
    ));
}

#[test]
fn splits_command_without_a_shell() {
    let g = greeter("/usr/bin/env FOO=bar");
    assert_eq!(g.argv, ["/usr/bin/env", "FOO=bar"]);
}

#[test]
fn every_backoff_entry_is_reachable() {
    let mut g = greeter("/bin/true");
    let mut seen = Vec::new();
    while let Disposition::Restart { delay, .. } = g.note_exit(Exit::Code(0), NOW) {
        seen.push(delay);
    }
    assert_eq!(seen, [SECOND, 2 * SECOND]);
}

#[test]
fn backoff_grows_then_gives_up() {
    let mut g = greeter("/bin/true");
    assert_eq!(
        restart_delay(&g.note_exit(Exit::Code(0), NOW)),
        Some(SECOND)
    );
    assert_eq!(
        restart_delay(&g.note_exit(Exit::Code(0), NOW)),
        Some(2 * SECOND)
    );
    assert!(matches!(
        g.note_exit(Exit::Code(0), NOW),
        Disposition::GaveUp { .. }
    ));
    assert!(g.gave_up());
}

#[test]
fn long_running_greeter_does_not_exhaust_the_budget() {
    let mut g = greeter("/bin/true");
    g.note_exit(Exit::Code(0), NOW);
    g.note_exit(Exit::Code(0), NOW);
    assert_eq!(g.rapid_failures, 2);

    g.started = Some(NOW - RAPID_FAILURE - SECOND);
    assert_eq!(
        restart_delay(&g.note_exit(Exit::Code(0), NOW)),
        Some(SECOND)
    );
    assert_eq!(g.rapid_failures, 1);
    assert!(!g.gave_up());
}

#[test]
fn give_up_reason_points_at_the_recovery_path() {
    let mut g = greeter("/bin/true");
    g.note_exit(Exit::Code(0), NOW);
    g.note_exit(Exit::Code(0), NOW);
    let Disposition::GaveUp { reason } = g.note_exit(Exit::Signal(11), NOW) else {
        panic!("expected give-up");
    };
    assert!(reason.contains("tty1"), "{reason}");
    assert!(reason.contains("signal 11"), "{reason}");
}

#[test]
fn a_greeter_that_cannot_start_still_gives_up() {
    let mut g = greeter("/nonexistent/greeter");
    assert_eq!(
        restart_delay(&g.note_spawn_failure("no such file")),
        Some(SECOND)
    );
    assert_eq!(
        restart_delay(&g.note_spawn_failure("no such file")),
        Some(2 * SECOND)
    );
    let Disposition::GaveUp { reason } = g.note_spawn_failure("no such file") else {
        panic!("expected give-up");
    };
    assert!(reason.contains("could not be started"), "{reason}");
    assert!(reason.contains("tty1"), "{reason}");
}

#[test]
fn an_unwaitable_greeter_is_not_reported_as_a_clean_exit() {
    let mut g = greeter("/bin/true");
    let unwaitable = || Waited::Failed("No child processes (os error 10)".to_owned());

    g.spawned(42, NOW - RAPID_FAILURE - SECOND);
    let disposed = g.dispose(unwaitable(), NOW);
    assert_eq!(disposed.sweep, Some(42));
    assert_eq!(disposed.reap, Some(42));
    let first = disposed.disposition.expect("an error is not still running");
    assert_eq!(restart_delay(&first), Some(SECOND));
    assert!(reason_of(&first).contains("could not be waited for"), "{first:?}");
    assert!(!reason_of(&first).contains("exited cleanly"), "{first:?}");
    assert!(g.started.is_none(), "started must be cleared");
    assert_eq!(g.rapid_failures, 1, "must count as a rapid failure");

    let _ = g.dispose(unwaitable(), NOW);
    let Some(Disposition::GaveUp { reason }) = g.dispose(unwaitable(), NOW).disposition else {
        panic!("expected give-up");
    };
    assert!(reason.contains("could not be waited for"), "{reason}");
    assert!(!reason.contains("exited cleanly"), "{reason}");
    assert!(reason.contains("tty1"), "{reason}");
}

#[test]
fn describes_exits() {
    assert_eq!(describe_exit(Exit::Code(0)), "exited cleanly");
    assert_eq!(describe_exit(Exit::Code(1)), "exited with status 1");
    assert_eq!(describe_exit(Exit::Signal(9)), "killed by signal 9");
    assert_eq!(
        describe_exit(Exit::Code(GREETER_GAVE_UP_EXIT)),
        "stopped responding and gave up"
    );
}

#[test]
fn a_greeter_that_gave_up_counts_against_the_budget_however_long_it_ran() {
    let mut g = greeter("/bin/true");
    for _ in 0..MAX_RAPID_FAILURES {
        g.started = Some(NOW - RAPID_FAILURE * 3);
        if let Disposition::GaveUp { reason } = g.note_exit(Exit::Code(GREETER_GAVE_UP_EXIT), NOW) {
            assert!(reason.contains("tty1"), "{reason}");
            assert!(reason.contains("gave up"), "{reason}");
            assert!(!reason.contains("status 69"), "{reason}");
            return;
        }
    }
    panic!("a greeter that gave up never reached the give-up screen");
}

#[test]
fn a_long_running_greeter_that_merely_crashed_still_gets_a_fresh_budget() {
    let mut g = greeter("/bin/true");
    for _ in 0..MAX_RAPID_FAILURES * 2 {
        g.started = Some(NOW - RAPID_FAILURE * 3);
        assert!(
            !matches!(g.note_exit(Exit::Code(1), NOW), Disposition::GaveUp { .. }),
            "an occasional crash was treated as a failure to start"
        );
    }
}

#[test]
fn spawns_and_reaps_a_real_process() {
    let mut g = greeter("/bin/true");
    assert!(g.may_spawn().is_ok());
    g.spawned(42, NOW);
    assert!(g.is_running());
    assert!(matches!(g.may_spawn(), Err(GreeterError::AlreadyRunning)));

    assert!(g.dispose(Waited::StillRunning, NOW).disposition.is_none());
    assert!(g.is_running());

    let disposed = g.dispose(Waited::Exited(Exit::Code(0)), NOW + SECOND);
    assert!(matches!(
        disposed.disposition,
        Some(Disposition::Restart { .. })
    ));
    assert_eq!(disposed.sweep, Some(42));
    assert!(!g.is_running());
}

#[test]
fn unprivileged_greeter_has_no_credentials_to_drop() {
    assert!(greeter("/bin/true").credentials.is_none());
}

#[test]
fn a_privileged_greeter_drops_to_its_account() {
    let g = Greeter::new("/bin/true", "wdm", "wayland-0", true, &Some(wdm_account())).unwrap();
    let credentials = g.credentials.as_ref().expect("credentials");
    assert_eq!((credentials.uid, credentials.gid), (950, 951));
    assert_eq!(credentials.groups, [951]);

    let env = g.environment("WAYLAND_SOCKET_NAME", None, Some("/run/user/0"), Some("/root"));
    let value = |key: &str| env.iter().find(|(k, _)| k == key).map(|(_, v)| v.as_slice());
    assert_eq!(value("WAYLAND_SOCKET_NAME"), Some(&b"wayland-0"[..]));
    assert_eq!(value("XDG_RUNTIME_DIR"), Some(&b"/run/wdm"[..]));
    assert_eq!(value("XDG_CACHE_HOME"), Some(&b"/var/cache/wdm"[..]));
    assert_eq!(value("HOME"), Some(&b"/var/lib/wdm"[..]));
    assert_eq!(value("LANG"), Some(&b"C.UTF-8"[..]));
}

#[test]
fn a_greeter_home_that_is_not_text_is_kept() {
    let mut account = wdm_account();
    account.home = b"/var/\xff".to_vec();
    let g = Greeter::new("/bin/true", "wdm", "wayland-0", true, &Some(account)).unwrap();
    assert_eq!(g.credentials.as_ref().unwrap().home, b"/var/\xff");
    let env = g.environment("S", None, None, None);
    assert!(env.contains(&("HOME".to_owned(), b"/var/\xff".to_vec())));
}

#[test]
fn the_greeter_drops_its_privileges() {
    let g = Greeter::new("/bin/true", "wdm", "wayland-0", true, &Some(wdm_account())).unwrap();
    assert_eq!(
        g.child_steps(),
        [
            ChildStep::UnblockSignals,
            ChildStep::NewSession,
            ChildStep::SetGroups,
            ChildStep::SetGid,
            ChildStep::SetUid,
            ChildStep::CheckUid,
            ChildStep::CheckGid,
        ]
    );
    assert_eq!(
        greeter("/bin/true").child_steps(),
        [ChildStep::UnblockSignals, ChildStep::NewSession]
    );
}

#[test]
fn an_unprivileged_greeter_keeps_the_callers_directories() {
    let env = greeter("/bin/true").environment("S", Some("de"), Some("/run/user/7"), None);
    let value = |key: &str| env.iter().find(|(k, _)| k == key).map(|(_, v)| v.as_slice());
    assert_eq!(value("XDG_RUNTIME_DIR"), Some(&b"/run/user/7"[..]));
    assert_eq!(value("HOME"), None);
    assert_eq!(value("LANG"), Some(&b"de"[..]));
}

#[test]
fn every_error_says_what_was_wrong() {
    let missing = Greeter::new("/bin/true", "wdm", "s", true, &None).unwrap_err();
    assert_eq!(missing.message(), "greeter user wdm does not exist");
    assert_eq!(GreeterError::EmptyCommand.message(), "greeter.command is empty");
    let dir = |f: fn(String, String) -> GreeterError| f("/run/wdm".to_owned(), "no".to_owned());
    assert_eq!(dir(GreeterError::RuntimeDir).message(), "preparing /run/wdm: no");
    assert_eq!(dir(GreeterError::CacheDir).message(), "preparing /run/wdm: no");

    let mut g = greeter("/bin/true");
    for _ in 0..MAX_RAPID_FAILURES {
        g.note_spawn_failure("no");
    }
    assert!(matches!(g.may_spawn(), Err(GreeterError::GaveUp)));
}

#[test]
fn only_an_interrupted_wait_is_tried_again() {
    assert!(Greeter::should_retry(&Waited::Interrupted("x".to_owned())));
    assert!(!Greeter::should_retry(&Waited::Failed("x".to_owned())));
    assert!(!Greeter::should_retry(&Waited::StillRunning));
}

#[test]
fn kill_terminates_a_running_process() {
    let mut g = greeter("/bin/sleep 60");
    assert!(g.begin_kill(NOW).is_none());
    g.spawned(42, NOW);
    let mut shutdown = g.begin_kill(NOW).expect("something to stop");
    assert_eq!(shutdown.pgid, 42);
    assert!(!g.is_running());
    assert_eq!(shutdown.step(KillSeen::LeaderGone, NOW), KillAction::ProbeGroup);
    assert_eq!(shutdown.step(KillSeen::GroupEmpty, NOW), KillAction::Done);
}

#[test]
fn kill_takes_the_whole_process_group_with_it() {
    let mut g = greeter("/bin/sh -c helpers");
    g.spawned(42, NOW);
    let mut shutdown = g.begin_kill(NOW).unwrap();

    // The leader is gone, but something of its group ignores the signal.
    assert_eq!(shutdown.step(KillSeen::LeaderGone, NOW), KillAction::ProbeGroup);
    assert!(matches!(
        shutdown.step(KillSeen::GroupAlive, NOW + SECOND),
        KillAction::Sleep(_)
    ));
    assert_eq!(
        shutdown.step(KillSeen::Slept, NOW + SECOND),
        KillAction::ProbeGroup
    );
    assert!(matches!(
        shutdown.step(KillSeen::GroupAlive, NOW + GRACE),
        KillAction::Sleep(_)
    ));
    assert_eq!(
        shutdown.step(KillSeen::Slept, NOW + GRACE),
        KillAction::KillGroup
    );
    assert_eq!(
        shutdown.step(KillSeen::Signalled, NOW + GRACE),
        KillAction::ProbeGroup
    );
    assert_eq!(
        shutdown.step(KillSeen::GroupEmpty, NOW + GRACE),
        KillAction::Done
    );
}

#[test]
fn a_group_that_survives_is_given_up_on() {
    let mut g = greeter("/bin/true");
    g.spawned(42, NOW);
    let mut shutdown = g.begin_kill(NOW).unwrap();
    let late = NOW + GRACE;
    assert_eq!(shutdown.step(KillSeen::LeaderRuns, late), KillAction::KillGroup);
    assert_eq!(shutdown.step(KillSeen::Signalled, late), KillAction::ProbeGroup);
    assert!(matches!(
        shutdown.step(KillSeen::GroupAlive, late),
        KillAction::Sleep(_)
    ));
    assert_eq!(
        shutdown.step(KillSeen::Slept, late + LAST_WAIT),
        KillAction::Survived
    );
}

#[test]
fn the_runtime_directory_is_pulled_back_from_an_earlier_run() {
    assert_eq!(
        create_runtime_dir(true, 0),
        vec![
            DirStep::Create,
            DirStep::Restrict,
            DirStep::Give { uid: 0, gid: None },
        ]
    );
    assert_eq!(create_runtime_dir(false, 1000), vec![]);
    assert_eq!(
        hand_over_runtime_dir(Some((970, 971))),
        vec![DirStep::Give {
            uid: 970,
            gid: Some(971)
        }]
    );
    assert_eq!(hand_over_runtime_dir(None), vec![]);
}

#[test]
fn the_cache_directory_is_opened_before_it_is_given_away() {
    assert_eq!(
        create_cache_dir(Some((970, 971))),
        vec![
            DirStep::CreateParents,
            DirStep::Create,
            DirStep::Open,
            DirStep::Restrict,
            DirStep::Give {
                uid: 970,
                gid: Some(971)
            },
        ]
    );
    assert_eq!(create_cache_dir(None), vec![]);
}
