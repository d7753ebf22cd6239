use wdm::backend::{
    admits, expected_uid, explain, socket_steps, Handled, Handoff, HandoffStep, Request, Shell,
    SocketStep, Step,
};
use wdm::comp::{Connected, Cursor};
use wdm::config::Config;
use wdm::login::{Action, Effect, Login, Phase, SessionOutcome};
use wdm::supervise::{Disposition, Exit, Greeter, GreeterError, Waited};

const SECOND: u64 = 1_000_000_000;
const NOW: u64 = 1_000 * SECOND;

fn shell() -> Shell {
    Shell::new(
        Login::new(Vec::new(), Vec::new(), None, 7),
        Greeter::new("/bin/true", "nobody", "wayland-test", false, &None).unwrap(),
    )
}

#[test]
fn a_new_shell_runs_and_has_nothing_to_do() {
    let mut shell = shell();
    assert!(shell.running);
    assert!(!shell.respawn);
    assert_eq!(shell.give_up_reason, None);
    assert!(shell.requests.is_empty());
    assert!(shell.screen.outputs.is_empty());
    assert!(shell.handle_action().is_none());
}

#[test]
fn actions_are_handled_in_order_and_none_is_lost() {
    let mut shell = shell();
    shell.queue_action(Action::Nothing);
    shell.queue_action(Action::RestartGreeter {
        error: Some("one".to_owned()),
    });
    shell.queue_action(Action::Launch {
        username: "ada".to_owned(),
    });
    assert_eq!(shell.pending.len(), 2);

    let (handled, steps) = shell.handle_action().expect("an action");
    assert!(matches!(handled, Handled::Continue));
    assert!(matches!(
        &steps[..],
        [Step::KillGreeter, Step::RefreshUsers, Step::SpawnGreeter]
    ));
    assert_eq!(shell.login.last_error.as_deref(), Some("one"));

    let (handled, steps) = shell.handle_action().expect("another action");
    assert!(matches!(handled, Handled::HandOff { username } if username == "ada"));
    assert!(steps.is_empty());
    assert!(shell.handle_action().is_none());
}

#[test]
fn a_handoff_drops_what_was_queued_for_the_greeter() {
    let mut shell = shell();
    shell.request(Request::RescanConnectors);
    shell.arm_respawn(SECOND);
    shell.queue_action(Action::Launch {
        username: "ada".to_owned(),
    });
    shell.queue_action(Action::RestartGreeter { error: None });
    let (_, steps) = shell.handle_action().unwrap();
    assert!(matches!(&steps[..], [Step::DisarmRespawn]));
    assert!(shell.pending.is_empty());
    assert!(shell.requests.is_empty());
    assert!(!shell.respawn);
}

#[test]
fn a_restart_forgets_the_greeter_and_keeps_the_rate_limit() {
    let mut shell = shell();
    shell.login.bind(1, 2).unwrap();
    shell.login.failures = 3;
    shell.login.phase = Phase::Authenticated;
    shell.login.auth = Some("ada".to_owned());
    assert!(shell.screen.new_layer_surface(10, None));
    shell.screen.cursor_image(Cursor::Surface(11));

    let steps = shell.restart_greeter(None, 2 * SECOND);
    assert!(matches!(
        &steps[..],
        [
            Step::KillGreeter,
            Step::Login(Effect::DropHelper),
            Step::RefreshUsers,
            Step::ArmRespawn(delay)
        ] if *delay == 2 * SECOND
    ));
    assert_eq!(shell.login.phase, Phase::Idle);
    assert_eq!(shell.login.failures, 3);
    assert!(shell.login.bound.is_empty());
    assert!(shell.screen.layers.is_empty());
    assert_eq!(shell.screen.cursor, Cursor::Arrow);
}

#[test]
fn a_greeter_that_keeps_dying_ends_on_the_error_screen() {
    let mut shell = shell();
    for _ in 0..2 {
        let d = shell.greeter.dispose(Waited::Exited(Exit::Code(1)), NOW);
        let steps = shell.greeter_exited(d.disposition.unwrap());
        assert!(matches!(steps.last(), Some(Step::ArmRespawn(_))));
        assert!(shell.give_up_reason.is_none());
    }
    let d = shell.greeter.dispose(Waited::Exited(Exit::Code(1)), NOW);
    shell.greeter_exited(d.disposition.unwrap());
    assert!(shell.give_up_reason.is_some());
    assert!(shell.spawn_greeter().iter().all(|s| !matches!(s, Step::StartGreeter)));
}

#[test]
fn a_greeter_that_cannot_be_started_is_tried_again_and_then_given_up() {
    let mut shell = shell();
    assert!(matches!(&shell.spawn_greeter()[..], [Step::StartGreeter]));
    let error = GreeterError::Spawn("no such file".to_owned());
    assert!(matches!(
        shell.greeter_not_started(&error).last(),
        Some(Step::ArmRespawn(_))
    ));
    shell.greeter_not_started(&error);
    shell.greeter_not_started(&error);
    let reason = shell.give_up_reason.expect("the reason is shown");
    assert!(reason.contains("no such file"), "{reason}");
}

#[test]
fn a_second_greeter_is_not_started_beside_the_first() {
    let mut shell = shell();
    shell.greeter.spawned(42, NOW);
    assert!(shell.spawn_greeter().is_empty());
}

#[test]
fn a_restart_that_cannot_be_scheduled_goes_on_the_display() {
    let mut shell = shell();
    shell.respawn_not_armed("no timers");
    assert_eq!(
        shell.give_up_reason.as_deref(),
        Some("cannot schedule a greeter restart: no timers")
    );
}

#[test]
fn a_session_that_dies_at_once_is_explained() {
    let ended = |ran_for_ms| SessionOutcome::Ended {
        status: "exit status: 1".to_owned(),
        ran_for_ms,
    };
    assert_eq!(
        explain(&ended(1_500)).as_deref(),
        Some("session exited immediately (exit status: 1) after 1.5s")
    );
    assert_eq!(explain(&ended(2_000)), None);
    assert_eq!(
        explain(&SessionOutcome::Failed("pam".to_owned())).as_deref(),
        Some("could not start session: pam")
    );
}

#[test]
fn a_session_that_is_over_leaves_nothing_behind() {
    let mut shell = shell();
    shell.login.handed_off = true;
    shell.login.auth = Some("ada".to_owned());
    shell.queue_action(Action::RestartGreeter { error: None });
    assert!(shell.session_over().is_none());
    assert_eq!(shell.pending.len(), 1);

    shell.login.session_outcome = Some(SessionOutcome::Failed("pam".to_owned()));
    let outcome = shell.session_over().expect("the session is over");
    assert!(shell.pending.is_empty());

    let steps = shell.conclude(&outcome);
    assert!(matches!(&steps[..], [Step::Login(Effect::DropHelper)]));
    assert_eq!(
        shell.login.last_error.as_deref(),
        Some("could not start session: pam")
    );
    assert!(!shell.login.handed_off);
    assert!(shell.running);
}

#[test]
fn a_loop_that_fails_ends_the_wait() {
    let mut shell = shell();
    let outcome = shell.loop_failed("bad descriptor");
    assert_eq!(
        outcome.describe(),
        "never started: wdm's event loop failed: bad descriptor"
    );
}

#[test]
fn nothing_is_launched_while_the_display_is_held() {
    let mut handoff = Handoff::Begun;
    let mut steps = Vec::new();
    while handoff != Handoff::Over {
        steps.push(handoff.step());
        handoff.advance();
    }
    assert_eq!(
        steps,
        [
            HandoffStep::KillGreeter,
            HandoffStep::ReleaseDisplay,
            HandoffStep::TellHelper,
            HandoffStep::AwaitSession
        ]
    );
    assert_eq!(handoff.step(), HandoffStep::TakeBack);
}

#[test]
fn a_secured_socket_belongs_to_the_greeter() {
    let steps = socket_steps(true);
    let at = |s| steps.iter().position(|m| *m == s).unwrap();
    assert!(at(SocketStep::Restrict) < at(SocketStep::GiveDirectory));
    assert!(at(SocketStep::GiveSocket) < at(SocketStep::GiveDirectory));
    assert_eq!(steps.last(), Some(&SocketStep::Listen));
}

#[test]
fn unprivileged_leaves_ownership_alone() {
    let steps = socket_steps(false);
    assert!(!steps.contains(&SocketStep::GiveSocket));
    assert!(!steps.contains(&SocketStep::GiveDirectory));
}

#[test]
fn only_the_greeters_account_may_connect() {
    assert_eq!(expected_uid(Some((950, 951)), 0), 950);
    assert_eq!(expected_uid(None, 1000), 1000);
    assert!(admits(Some(950), 950));
    assert!(!admits(Some(0), 950));
    assert!(!admits(None, 950));
}

#[test]
fn a_disposition_that_restarts_carries_its_reason() {
    let mut shell = shell();
    shell.greeter_exited(Disposition::Restart {
        delay: 0,
        reason: "greeter exited cleanly".to_owned(),
    });
    assert_eq!(
        shell.login.last_error.as_deref(),
        Some("greeter exited cleanly")
    );
}

#[test]
fn the_login_has_the_ranks_of_the_screen() {
    let mut shell = shell();
    let connected = |id: u64, name: &str| Connected {
        id,
        name: name.to_owned(),
    };
    let config = Config::default();
    let ranked = shell.set_outputs(&vec![connected(5, "DP-1"), connected(3, "DP-2")], &config);
    assert_eq!(ranked, ["DP-1", "DP-2"]);
    assert_eq!(shell.screen.primary_output(), Some(5));
    assert_eq!(shell.login.rank_of(5), Some(0));
    assert_eq!(shell.login.rank_of(3), Some(1));

    // The first of two outputs of one name has its rank.
    shell.set_outputs(&vec![connected(6, "DP-1"), connected(7, "DP-1")], &config);
    assert_eq!(shell.login.rank_of(6), Some(0));
    assert_eq!(shell.login.rank_of(7), None);
    assert_eq!(shell.login.rank_of(5), None);
}
