use wdm::auth::{
    launch_message, name_of, notice_to_greeter, pam_session_env, parting, start_message, to_greeter,
    unstartable, AuthEvent, Outcome, Phase, PromptIds, PromptStyle, Received, Relay,
    SessionDescription, AUTH_FAILED, NOTICE, PROMPT_ID_BLOCK,
};
use wdm::pamwire::Msg;
use wdm::sessions::{Session, SessionType};

const MEASURED: [&str; 5] = [
    "User not known to the underlying authentication module",
    "Authentication failure",
    "Permission denied",
    "Have exhausted maximum number of retries for service",
    "Authentication service cannot retrieve authentication info",
];

#[test]
fn every_authentication_failure_reads_the_same_to_the_greeter() {
    for cause in MEASURED {
        assert_eq!(
            to_greeter(Phase::Authenticate, "someone", cause),
            AUTH_FAILED,
            "{cause:?} reached the greeter as its own text"
        );
    }
    assert_eq!(
        to_greeter(
            Phase::Authenticate,
            "alice",
            "User not known to the underlying authentication module"
        ),
        to_greeter(Phase::Authenticate, "root", "Authentication failure"),
        "the reply varied by account or by cause"
    );
    assert_eq!(AUTH_FAILED, "Authentication failure");
}

#[test]
fn only_authentication_is_flattened() {
    for phase in [
        Phase::Start,
        Phase::AcctMgmt,
        Phase::Chauthtok,
        Phase::OpenSession,
    ] {
        for cause in MEASURED {
            assert_eq!(
                to_greeter(phase, "someone", cause),
                cause,
                "{phase:?} flattened PAM's own words"
            );
        }
    }
}

#[test]
fn a_pre_authentication_notice_is_replaced_rather_than_forwarded() {
    assert_eq!(
        notice_to_greeter("alice", "Account locked due to 3 failed logins"),
        notice_to_greeter("root", "Server message: user not found"),
        "the notice varied by account or by module text"
    );
    assert_eq!(notice_to_greeter("alice", "anything"), NOTICE);
}

#[test]
fn pam_session_env_pairs_both_variables() {
    assert_eq!(
        pam_session_env("x11", "i3"),
        vec!["XDG_SESSION_TYPE=x11", "XDG_SESSION_DESKTOP=i3"]
    );
}

#[test]
fn pam_session_env_omits_an_empty_desktop() {
    assert_eq!(
        pam_session_env("wayland", ""),
        vec!["XDG_SESSION_TYPE=wayland"]
    );
}

#[test]
fn pam_session_env_omits_an_empty_type() {
    assert_eq!(
        pam_session_env("", "sway"),
        vec!["XDG_SESSION_DESKTOP=sway"]
    );
    assert!(pam_session_env("", "").is_empty());
}

#[test]
fn only_prompts_expect_responses() {
    assert!(PromptStyle::Secret.expects_response());
    assert!(PromptStyle::Visible.expects_response());
    assert!(!PromptStyle::Info.expects_response());
    assert!(!PromptStyle::Error.expects_response());
}

#[test]
fn prompt_ids_are_never_reused() {
    let mut ids = PromptIds::new();
    let a = ids.reserve_prompt_ids();
    let b = ids.reserve_prompt_ids();
    assert_ne!(a, b);
    assert!(
        b >= a + PROMPT_ID_BLOCK,
        "two attempts were handed overlapping id blocks: {a} then {b}"
    );

    let spilled = b + PROMPT_ID_BLOCK + 7;
    ids.observe_prompt_id(spilled);
    assert!(
        ids.reserve_prompt_ids() > spilled,
        "a block was reissued over ids that had already been sent"
    );
}

#[test]
fn a_second_helper_cannot_be_handed_the_first_helpers_prompt_ids() {
    let mut ids = PromptIds::new();
    let base = ids.reserve_prompt_ids();
    let mut relay = Relay::new();
    let prompt = Msg::Prompt {
        id: base,
        text: "Password: ".to_owned(),
        style: PromptStyle::Secret,
    }
    .encode();
    let relayed = relay.forward(Received::Datagram(&prompt), &mut ids);
    let Some(AuthEvent::Prompt { id: first, .. }) = relayed.event else {
        panic!("expected a prompt");
    };
    assert_eq!(first, base, "the helper's id did not survive the forward");

    let second = ids.reserve_prompt_ids();
    assert!(
        second > first,
        "the next attempt was handed id {second}, after {first}"
    );
}

#[test]
fn auth_a_message_name_never_contains_a_secret() {
    assert_eq!(
        name_of(&Msg::Response {
            id: 1,
            secret: "hunter2".to_owned(),
        }),
        "response"
    );
}

fn a_session() -> Session {
    Session {
        id: "sway.desktop".to_owned(),
        name: "Sway".to_owned(),
        command: "sway".to_owned(),
        session_type: SessionType::Wayland,
        path: "/usr/share/wayland-sessions/sway.desktop".to_owned(),
    }
}

/// Forward one message as the reader of a helper would.
fn forward(relay: &mut Relay, ids: &mut PromptIds, msg: Msg) -> (Option<AuthEvent>, Option<Outcome>) {
    let bytes = msg.encode();
    let relayed = relay.forward(Received::Datagram(&bytes), ids);
    (relayed.event, relayed.outcome)
}

#[test]
fn a_fake_helper_drives_the_conversation_end_to_end() {
    let mut relay = Relay::new();
    let mut ids = PromptIds::new();

    assert_eq!(
        forward(
            &mut relay,
            &mut ids,
            Msg::Prompt {
                id: 7,
                text: "Password: ".to_owned(),
                style: PromptStyle::Secret,
            }
        ),
        (
            Some(AuthEvent::Prompt {
                id: 7,
                text: "Password: ".to_owned(),
                style: PromptStyle::Secret,
            }),
            None
        )
    );
    assert_eq!(
        forward(&mut relay, &mut ids, Msg::Accepted),
        (Some(AuthEvent::Accepted), None)
    );

    let launch = launch_message(
        &a_session(),
        vec![("LANG".to_owned(), "de_DE.UTF-8".to_owned())],
        7,
    );
    let Msg::Launch {
        session_type,
        desktop,
        session_id,
        session_name,
        session_exec,
        extra_env,
        vt,
    } = &launch
    else {
        panic!("expected a launch, got {}", name_of(&launch));
    };
    assert_eq!(session_type, "wayland");
    assert_eq!(desktop, "sway");
    assert_eq!(session_id, "sway.desktop");
    assert_eq!(session_name, "Sway");
    assert_eq!(session_exec, "sway");
    assert_eq!(
        extra_env,
        &vec![("LANG".to_owned(), "de_DE.UTF-8".to_owned())]
    );
    assert_eq!(*vt, 7);

    assert_eq!(
        forward(&mut relay, &mut ids, Msg::SessionStarted { pid: 4321 }),
        (Some(AuthEvent::SessionStarted { pid: 4321 }), None)
    );
    let (event, outcome) = forward(
        &mut relay,
        &mut ids,
        Msg::SessionEnded {
            status: "exit status: 0".to_owned(),
            ran_for_ms: 90_000,
        },
    );
    assert_eq!(
        event,
        Some(AuthEvent::SessionEnded {
            status: "exit status: 0".to_owned(),
            ran_for_ms: 90_000,
        })
    );
    assert_eq!(outcome, Some(Outcome::Reported));

    // A dismissed helper is silent.
    assert_eq!(parting(Outcome::AfterVerdict, true), None);
}

#[test]
fn a_session_that_ended_normally_is_not_also_reported_as_a_failure() {
    let mut relay = Relay::new();
    let mut ids = PromptIds::new();
    forward(&mut relay, &mut ids, Msg::Accepted);
    let (event, outcome) = forward(
        &mut relay,
        &mut ids,
        Msg::SessionEnded {
            status: "exit status: 0".to_owned(),
            ran_for_ms: 1_000,
        },
    );
    assert!(matches!(event, Some(AuthEvent::SessionEnded { .. })));
    let outcome = outcome.expect("the conversation is over");
    assert_eq!(
        parting(outcome, false),
        None,
        "a session that ended normally was also reported as failed"
    );
}

#[test]
fn a_helper_that_dies_before_a_verdict_fails_the_attempt() {
    let mut relay = Relay::new();
    let mut ids = PromptIds::new();
    let relayed = relay.forward(Received::Datagram(&[]), &mut ids);
    assert_eq!(relayed.event, None);
    let outcome = relayed.outcome.expect("the socket closed");
    let Some(AuthEvent::Failed(reason)) = parting(outcome, false) else {
        panic!("a helper that vanished must fail the attempt");
    };
    assert!(reason.contains("helper"), "{reason}");
}

#[test]
fn a_helper_that_dies_after_authenticating_fails_the_session() {
    let mut relay = Relay::new();
    let mut ids = PromptIds::new();
    assert_eq!(
        forward(&mut relay, &mut ids, Msg::Accepted),
        (Some(AuthEvent::Accepted), None)
    );
    let relayed = relay.forward(Received::Failed, &mut ids);
    let outcome = relayed.outcome.expect("the read failed");
    let Some(AuthEvent::SessionFailed(reason)) = parting(outcome, false) else {
        panic!("a helper that vanished after auth_ok must fail the session");
    };
    assert!(reason.contains("helper"), "{reason}");
}

#[test]
fn a_read_that_is_interrupted_ends_nothing() {
    let mut relay = Relay::new();
    let mut ids = PromptIds::new();
    let relayed = relay.forward(Received::Interrupted, &mut ids);
    assert_eq!(relayed.event, None);
    assert_eq!(relayed.outcome, None);
}

#[test]
fn a_message_of_wdms_own_direction_is_ignored() {
    let mut relay = Relay::new();
    let mut ids = PromptIds::new();
    let msg = Msg::Response {
        id: 1,
        secret: "hunter2".to_owned(),
    };
    assert_eq!(forward(&mut relay, &mut ids, msg), (None, None));
}

#[test]
fn a_reader_that_cannot_start_is_a_failed_attempt() {
    assert_eq!(
        unstartable(),
        AuthEvent::Failed("the authentication helper could not be started".to_owned())
    );
}

#[test]
fn a_description_starts_the_attempt_it_describes() {
    let session = SessionDescription {
        seat: "seat0".to_owned(),
        vtnr: 7,
        session_type: "wayland".to_owned(),
        desktop: "sway".to_owned(),
    };
    assert_eq!(
        start_message("alice", "/dev/tty7", &session, 4096),
        Msg::Start {
            username: "alice".to_owned(),
            tty: "/dev/tty7".to_owned(),
            seat: "seat0".to_owned(),
            vtnr: 7,
            session_type: "wayland".to_owned(),
            desktop: "sway".to_owned(),
            id_base: 4096,
        }
    );
}

#[test]
fn a_login_begins_before_a_session_is_chosen() {
    let session = SessionDescription::for_login(7);
    assert_eq!(session.seat, "seat0");
    assert_eq!(session.vtnr, 7);
    assert_eq!(session.session_type, "wayland");
    assert_eq!(session.desktop, "");
}

#[test]
fn the_last_block_may_end_with_the_largest_id() {
    let mut ids = PromptIds::new();
    let seen = u32::MAX - PROMPT_ID_BLOCK;
    ids.observe_prompt_id(seen);
    let first = ids.reserve_prompt_ids();
    assert_eq!(first, seen + 1);
    assert_eq!(first + (PROMPT_ID_BLOCK - 1), u32::MAX);
}
