use wdm::auth::{AuthEvent, PromptStyle};
use wdm::login::{
    failure_delay, last_session_for, wire_prompt_style, wire_session_type, Action, Announcement,
    Effect, ErrorCode, GreeterEvent, Login, Phase, Reply, Request, SessionOutcome, FAILURE_FLOOR,
    MIN_ATTEMPT_INTERVAL, SECOND,
};
use wdm::sessions::{Session, SessionType};
use wdm::users::{Account, LastSessions, UidRange, User};

const NOW: u64 = 1_000 * SECOND;
const MILLISECOND: u64 = 1_000_000;

#[test]
fn session_types_map_to_the_wire() {
    assert_eq!(wire_session_type(SessionType::Wayland), 0);
    assert_eq!(wire_session_type(SessionType::X11), 1);
}

#[test]
fn prompt_styles_map_to_the_wire() {
    assert_eq!(wire_prompt_style(PromptStyle::Secret), 0);
    assert_eq!(wire_prompt_style(PromptStyle::Visible), 1);
    assert_eq!(wire_prompt_style(PromptStyle::Info), 2);
    assert_eq!(wire_prompt_style(PromptStyle::Error), 3);
}

#[test]
fn version_2_reports_history_only() {
    assert_eq!(
        last_session_for(2, "sway.desktop", Some("river.desktop")),
        "sway.desktop"
    );
    assert_eq!(last_session_for(2, "", Some("river.desktop")), "");
}

#[test]
fn version_1_still_carries_the_configured_default() {
    assert_eq!(
        last_session_for(1, "", Some("river.desktop")),
        "river.desktop"
    );
    assert_eq!(
        last_session_for(1, "sway.desktop", Some("river.desktop")),
        "sway.desktop"
    );
    assert_eq!(last_session_for(1, "", None), "");
}

fn login() -> Login {
    Login::new(Vec::new(), Vec::new(), None, 7)
}

#[test]
fn a_fresh_login_is_not_rate_limited() {
    assert!(login().rate_limited(NOW).is_none());
}

#[test]
fn the_rate_limit_survives_reset() {
    let mut login = login();
    login.cooldown_until = Some(NOW + 30 * SECOND);
    login.failures = 3;

    login.reset();

    assert!(
        login.rate_limited(NOW).is_some(),
        "destroying the object escaped the rate limit"
    );
    assert_eq!(login.failures, 3, "reset refilled the failure budget");
}

#[test]
fn an_elapsed_cooldown_stops_limiting() {
    let mut login = login();
    login.cooldown_until = Some(NOW - SECOND);
    assert!(login.rate_limited(NOW).is_none());
}

#[test]
fn reset_invalidates_a_timer_armed_for_the_previous_attempt() {
    let mut login = login();
    let armed = login.generation;

    login.reset();
    assert_ne!(login.generation, armed);

    login.begin_attempt(NOW);
    assert_ne!(login.generation, armed);
}

#[test]
fn starting_an_attempt_clears_the_previous_launch_error() {
    let mut login = login();
    login.set_last_error("session died".to_owned());
    login.begin_attempt(NOW);
    assert!(login.last_error.is_none());
}

#[test]
fn a_recorded_error_survives_a_restart_that_has_nothing_to_add() {
    let mut login = login();
    login.set_last_error("session exited immediately".to_owned());

    login.reset();
    login.clear_bindings();

    assert_eq!(
        login.last_error.as_deref(),
        Some("session exited immediately"),
        "the reason the session died was discarded before anyone saw it"
    );

    login.begin_attempt(NOW);
    assert!(
        login.last_error.is_none(),
        "begin_attempt is the one place that clears it"
    );
}

#[test]
fn backoff_grows_and_is_capped() {
    let mut login = login();
    let anchor = NOW;

    let delivered: Vec<u64> = (0..6)
        .map(|_| {
            let delay = failure_delay(Some(anchor), login.next_backoff(), anchor);
            login.failures += 1;
            delay / SECOND
        })
        .collect();
    assert_eq!(
        delivered,
        vec![2, 2, 2, 4, 8, 10],
        "the delay a greeter waits is not what the table plus the floor say"
    );

    login.failures += 20;
    assert_eq!(
        failure_delay(Some(anchor), login.next_backoff(), anchor) / SECOND,
        *delivered.last().unwrap(),
        "the backoff ran off the end of the table"
    );
    for pair in delivered.windows(2) {
        assert!(pair[1] >= pair[0], "backoff shrank: {delivered:?}");
    }
}

#[test]
fn a_cancelled_attempt_is_free_of_cooldown_but_not_free() {
    let mut login = login();

    login.begin_attempt(NOW);
    login.reset();

    assert_eq!(login.failures, 0, "a cancellation was charged as a failure");
    assert!(
        login.rate_limited(NOW).is_none(),
        "a cancellation armed the failure cooldown"
    );

    let remaining = login
        .too_soon(NOW + 1)
        .expect("a cancel-and-retry loop costs nothing");
    assert!(remaining <= MIN_ATTEMPT_INTERVAL);

    login.reset();
    assert!(
        login.too_soon(NOW + 1).is_some(),
        "destroying the greeter object escaped the minimum interval"
    );

    login.last_attempt = Some(NOW - MIN_ATTEMPT_INTERVAL * 2);
    assert!(login.too_soon(NOW).is_none());
}

fn test_user(last_session: &str) -> User {
    User {
        name: "testuser".to_owned(),
        display_name: "Test User".to_owned(),
        avatar_path: String::new(),
        last_session: last_session.to_owned(),
    }
}

fn says_failed(effects: &[Effect]) -> bool {
    effects
        .iter()
        .any(|e| matches!(e, Effect::Broadcast(GreeterEvent::AuthFailed { .. })))
}

fn arms_timer(effects: &[Effect]) -> Option<u64> {
    effects.iter().find_map(|e| match e {
        Effect::ArmTimer { delay, .. } => Some(*delay),
        _ => None,
    })
}

fn error_code(reply: &Reply) -> Option<ErrorCode> {
    reply.effects.iter().find_map(|e| match e {
        Effect::PostError { code, .. } => Some(*code),
        _ => None,
    })
}

#[test]
fn an_interrupted_respond_is_reported_like_every_other_failure() {
    let mut login = Login::new(vec![test_user("")], Vec::new(), None, 7);
    login.bind(1, 2).unwrap();
    login.begin_attempt(NOW);
    login.phase = Phase::Authenticating;
    login.pending_prompt = Some(7);
    // No helper is in flight, so this is the interrupted path.
    let reply = login.respond(7, "hunter2".to_owned(), NOW + MILLISECOND);

    assert_eq!(
        login.phase,
        Phase::Cooldown,
        "the failure was reported without entering the deferred path"
    );
    assert!(
        login.failure_timer.is_some(),
        "nothing was armed to tell the greeter the attempt ended"
    );
    assert!(
        !says_failed(&reply.effects),
        "auth_failed was answered inline, skipping the failure floor"
    );
    assert_eq!(arms_timer(&reply.effects), Some(FAILURE_FLOOR));
}

#[test]
fn a_failure_is_never_reported_before_the_floor() {
    let anchor = NOW;
    let floor = FAILURE_FLOOR;
    let fast = failure_delay(Some(anchor), 0, anchor + 5 * MILLISECOND);
    let slow = failure_delay(Some(anchor), 0, anchor + 400 * MILLISECOND);

    assert_eq!(
        anchor + 5 * MILLISECOND + fast,
        anchor + floor,
        "a fast refusal was reported before the floor"
    );
    assert_eq!(
        anchor + 400 * MILLISECOND + slow,
        anchor + floor,
        "a slow refusal was reported at a different instant from a fast one"
    );
    assert!(
        fast > slow,
        "the delay did not absorb the difference in PAM's own time"
    );
}

#[test]
fn an_answer_after_the_floor_is_not_delayed_further() {
    let anchor = NOW;
    let late = anchor + FAILURE_FLOOR + SECOND;
    assert_eq!(
        failure_delay(Some(anchor), 0, late),
        0,
        "an answer that arrived after its deadline was delayed again"
    );
}

#[test]
fn the_backoff_wins_once_it_exceeds_the_floor() {
    let anchor = NOW;
    let backoff = 8 * SECOND;
    assert!(
        backoff > FAILURE_FLOOR,
        "this test proves nothing otherwise"
    );
    assert_eq!(
        failure_delay(Some(anchor), backoff, anchor),
        backoff,
        "the floor swallowed a backoff longer than itself"
    );
}

#[test]
fn a_missing_anchor_pays_the_full_floor() {
    assert_eq!(failure_delay(None, 0, NOW), FAILURE_FLOOR);
}

#[test]
fn an_attempt_starts_the_clock_it_will_be_judged_against() {
    let mut login = login();
    assert!(login.attempt_started.is_none());
    login.begin_attempt(NOW);
    assert!(
        login.attempt_started.is_some(),
        "a failure would be reported against no deadline at all"
    );
}

#[test]
fn responding_re_anchors_the_failure_clock() {
    let mut login = Login::new(vec![test_user("")], Vec::new(), None, 7);
    login.bind(1, 2).unwrap();
    login.begin_attempt(NOW);
    let at_create_session = login.attempt_started.expect("no anchor");
    login.attempt_started = Some(at_create_session - FAILURE_FLOOR * 2);
    let stale = login.attempt_started.unwrap();

    login.phase = Phase::Authenticating;
    login.pending_prompt = Some(7);
    login.respond(7, "hunter2".to_owned(), NOW);

    let anchor = login.attempt_started.expect("the anchor was lost");
    assert!(anchor > stale, "the anchor was left where typing began");
    assert_eq!(
        failure_delay(Some(anchor), 0, anchor),
        FAILURE_FLOOR,
        "a failure right after the response would skip the floor"
    );
}

#[test]
fn a_long_backoff_hides_how_long_the_check_took() {
    // The backoff is past the floor, and so is the slower of the two failures.
    let backoff = FAILURE_FLOOR * 3;
    let (fast, slow) = (NOW + 1, NOW + FAILURE_FLOOR * 2);
    let answered = |at: u64| at + failure_delay(Some(NOW), backoff, at);
    assert_eq!(answered(fast), NOW + backoff);
    assert_eq!(answered(slow), NOW + backoff);
}

fn user_last_session(announcements: &[Announcement]) -> String {
    announcements
        .iter()
        .find_map(|a| match a {
            Announcement::User { last_session, .. } => Some(last_session.clone()),
            _ => None,
        })
        .expect("no user event")
}

#[test]
fn a_version_2_greeter_is_told_the_default_separately() {
    let mut login = Login::new(
        vec![test_user("")],
        Vec::new(),
        Some("river.desktop".to_owned()),
        7,
    );
    let events = login.bind(1, 2).unwrap();
    assert_eq!(
        user_last_session(&events),
        "",
        "history was conflated with the configured default"
    );
    let default = events
        .iter()
        .position(|a| matches!(a, Announcement::DefaultSession(id) if id == "river.desktop"))
        .expect("no default_session event");
    let done = events
        .iter()
        .position(|a| matches!(a, Announcement::Done))
        .expect("no done event");
    assert!(default < done, "default_session arrived after done");
}

#[test]
fn a_version_1_greeter_gets_the_default_in_last_session_instead() {
    let mut login = Login::new(
        vec![test_user("")],
        Vec::new(),
        Some("river.desktop".to_owned()),
        7,
    );
    let events = login.bind(1, 1).unwrap();
    assert_eq!(user_last_session(&events), "river.desktop");
    assert!(
        !events
            .iter()
            .any(|a| matches!(a, Announcement::DefaultSession(_))),
        "default_session was sent to a version 1 resource"
    );
    assert!(
        events.iter().any(|a| matches!(a, Announcement::Done)),
        "the enumerate phase never ended"
    );
}

#[test]
fn a_cancelled_attempt_is_neither_reported_nor_charged() {
    let mut login = Login::new(vec![test_user("")], Vec::new(), None, 7);
    login.bind(1, 2).unwrap();
    login.phase = Phase::Authenticating;
    let before = login.failures;

    login.reset();
    let reply = login.handle_auth_event(
        AuthEvent::Failed("Authentication failure".to_owned()),
        NOW,
    );

    assert_eq!(
        login.failures, before,
        "a cancelled attempt was charged as a failure"
    );
    assert!(
        login.cooldown_until.is_none(),
        "a cancelled attempt armed the rate limit"
    );
    assert_eq!(
        login.phase,
        Phase::Idle,
        "a cancelled attempt entered Cooldown, which arms auth_failed"
    );
    assert!(
        login.failure_timer.is_none(),
        "a cancelled attempt armed a deferred auth_failed"
    );
    assert!(
        !says_failed(&reply.effects),
        "auth_failed reached a greeter that had cancelled"
    );
}

#[test]
fn a_session_failure_after_the_handoff_becomes_an_outcome_not_a_restart() {
    let mut login = login();
    let failed = || AuthEvent::SessionFailed("pam said no".to_owned());

    let action = login.handle_auth_event(failed(), NOW).action;
    assert!(
        matches!(action, Action::RestartGreeter { error: Some(ref e) } if e == "pam said no"),
        "a pre-handoff failure must reach the greeter that is still on screen: {action:?}"
    );
    assert!(login.take_session_outcome().is_none());

    login.handed_off = true;
    let action = login.handle_auth_event(failed(), NOW).action;
    assert!(
        matches!(action, Action::Nothing),
        "a post-handoff failure queued an action nobody drains: {action:?}"
    );
    let outcome = login
        .take_session_outcome()
        .expect("the backend was left waiting for a session that never started");
    assert!(
        matches!(outcome, SessionOutcome::Failed(ref e) if e == "pam said no"),
        "{outcome:?}"
    );
    assert_eq!(outcome.describe(), "never started: pam said no");
}

#[test]
fn a_session_that_ends_produces_an_outcome_once() {
    let mut login = login();
    login.handed_off = true;

    assert!(login.take_session_outcome().is_none());
    let reply = login.handle_auth_event(
        AuthEvent::SessionEnded {
            status: "exit status: 0".to_owned(),
            ran_for_ms: 90_000,
        },
        NOW,
    );
    assert!(matches!(reply.action, Action::Nothing));

    let outcome = login.take_session_outcome().expect("no outcome recorded");
    assert_eq!(outcome.describe(), "exit status: 0 after 90s");
    let SessionOutcome::Ended { status, ran_for_ms } = outcome else {
        panic!("expected a session that ended, got {outcome:?}");
    };
    assert_eq!(status, "exit status: 0");
    assert_eq!(ran_for_ms, 90_000);

    assert!(login.take_session_outcome().is_none());
}

#[test]
fn a_greeter_request_after_the_handoff_cannot_strand_the_backend() {
    let mut login = Login::new(vec![test_user("")], Vec::new(), None, 7);
    login.bind(1, 2).unwrap();
    login.phase = Phase::Launching;
    login.handed_off = true;
    login.session_outcome = Some(SessionOutcome::Ended {
        status: "exit status: 0".to_owned(),
        ran_for_ms: 90_000,
    });

    let reply = login.request(Request::Destroy, NOW);

    assert!(
        login.take_session_outcome().is_some(),
        "a greeter request after the handoff discarded the session outcome"
    );
    assert!(
        matches!(reply.action, Action::Nothing) && reply.effects.is_empty(),
        "a greeter request after the handoff queued work for nobody"
    );
}

#[test]
fn reset_forgets_the_previous_generations_handoff() {
    let mut login = login();
    login.handed_off = true;
    login.session_outcome = Some(SessionOutcome::Failed("stale".to_owned()));

    login.reset();

    assert!(
        !login.handed_off,
        "the handoff flag outlived its generation"
    );
    assert!(
        login.take_session_outcome().is_none(),
        "a stale outcome would end the next generation's wait immediately"
    );
}

#[test]
fn launching_with_nothing_chosen_ends_the_wait_rather_than_hanging() {
    let mut login = login();
    assert!(login.launch().is_none(), "launch claimed to have started something");
    assert!(
        login.take_session_outcome().is_some(),
        "a refused launch left the backend waiting forever"
    );
}

#[test]
fn reset_tears_down_the_backoff_timer() {
    let mut login = login();
    login.report_failure_after("nope".to_owned(), 10 * SECOND);
    assert!(login.failure_timer.is_some(), "nothing was armed to test");

    let effects = login.reset();
    assert!(
        login.failure_timer.is_none(),
        "a backoff timer outlived the attempt that armed it"
    );
    assert!(effects.iter().any(|e| matches!(e, Effect::DisarmTimer)));
}

#[test]
fn a_second_bind_is_refused_and_gets_no_initial_state() {
    let mut login = Login::new(vec![test_user("sway.desktop")], Vec::new(), None, 7);
    assert!(!login.bind(1, 2).unwrap().is_empty());

    let refusal = login.bind(2, 2).unwrap_err();
    assert!(
        matches!(
            refusal,
            Effect::PostError {
                code: ErrorCode::AlreadyBound,
                ..
            }
        ),
        "refused with the wrong error code"
    );
    assert_eq!(login.bound, [1]);
}

fn sway() -> Session {
    Session {
        id: "sway.desktop".to_owned(),
        name: "Sway".to_owned(),
        command: "sway".to_owned(),
        session_type: SessionType::Wayland,
        path: "/usr/share/wayland-sessions/sway.desktop".to_owned(),
    }
}

fn ada() -> Account {
    Account {
        name: "ada".to_owned(),
        uid: 1000,
        gid: 1000,
        gecos: "Ada,,,".to_owned(),
        home: b"/home/ada".to_vec(),
        shell: b"/bin/sh".to_vec(),
        avatar_path: String::new(),
    }
}

/// A login in which ada has given the right password.
fn authenticated() -> Login {
    let mut login = Login::new(vec![test_user("")], vec![sway()], None, 7);
    login.bind(1, 2).unwrap();
    let reply = login.create_session("ada".to_owned(), NOW);
    assert!(matches!(
        &reply.effects[..],
        [Effect::StartHelper { username, tty, vt: 7 }] if username == "ada" && tty == "/dev/tty7"
    ));
    login.helper_answered("ada".to_owned(), true, NOW);
    assert_eq!(login.phase, Phase::Authenticating);

    let reply = login.handle_auth_event(
        AuthEvent::Prompt {
            id: 4096,
            text: "Password: ".to_owned(),
            style: PromptStyle::Secret,
        },
        NOW,
    );
    assert!(matches!(
        &reply.effects[..],
        [Effect::Broadcast(GreeterEvent::Prompt { id: 4096, .. })]
    ));
    let reply = login.respond(4096, "secret".to_owned(), NOW + SECOND);
    assert!(matches!(
        &reply.effects[..],
        [Effect::Respond { id: 4096, response }] if response == "secret"
    ));
    let reply = login.handle_auth_event(AuthEvent::Accepted, NOW + SECOND);
    assert!(matches!(
        &reply.effects[..],
        [Effect::Broadcast(GreeterEvent::AuthOk)]
    ));
    assert_eq!(login.phase, Phase::Authenticated);
    login
}

#[test]
fn a_login_goes_from_the_name_to_the_launch() {
    let mut login = authenticated();
    let env = vec![("LANG".to_owned(), "de_DE.UTF-8".to_owned())];
    let reply = login.start_session(
        "sway.desktop",
        Ok(env.clone()),
        &Some(ada()),
        UidRange::default(),
    );
    assert!(matches!(reply.action, Action::Launch { ref username } if username == "ada"));
    assert!(reply.effects.iter().any(|e| matches!(
        e,
        Effect::Remember { username, session_id } if username == "ada" && session_id == "sway.desktop"
    )));
    assert_eq!(login.phase, Phase::Launching);

    let Some(Effect::SendLaunch { session, extra_env, vt }) = login.launch() else {
        panic!("nothing was launched");
    };
    assert_eq!(session, sway());
    assert_eq!(extra_env, env);
    assert_eq!(vt, 7);
    assert!(login.handed_off);

    let effects = login.end_session();
    assert!(matches!(&effects[..], [Effect::DropHelper]));
    assert!(login.auth.is_none());
}

#[test]
fn refusals_are_reported_with_their_code() {
    let mut login = authenticated();
    let none = || Ok(Vec::new());
    let range = UidRange::default();
    let reply = login.start_session("gone.desktop", none(), &Some(ada()), range);
    assert_eq!(error_code(&reply), Some(ErrorCode::InvalidSession));

    let mut login = authenticated();
    let reply = login.start_session("sway.desktop", Err("odd".to_owned()), &Some(ada()), range);
    assert_eq!(error_code(&reply), Some(ErrorCode::InvalidEnv));

    let mut login = Login::new(Vec::new(), vec![sway()], None, 7);
    let reply = login.start_session("sway.desktop", none(), &Some(ada()), range);
    assert_eq!(error_code(&reply), Some(ErrorCode::NoAuth));
    let reply = login.respond(1, "x".to_owned(), NOW);
    assert_eq!(error_code(&reply), Some(ErrorCode::NoAuth));

    login.create_session("ada".to_owned(), NOW);
    login.helper_answered("ada".to_owned(), true, NOW);
    let reply = login.respond(1, "x".to_owned(), NOW);
    assert_eq!(error_code(&reply), Some(ErrorCode::StalePrompt));
    let reply = login.create_session("bob".to_owned(), NOW);
    assert_eq!(error_code(&reply), Some(ErrorCode::AuthInProgress));
}

#[test]
fn root_is_not_launched_even_when_authenticated() {
    let mut login = authenticated();
    let mut root = ada();
    root.uid = 0;
    let reply = login.start_session(
        "sway.desktop",
        Ok(Vec::new()),
        &Some(root),
        UidRange::default(),
    );
    assert!(matches!(reply.action, Action::RestartGreeter { error: Some(_) }));
    assert!(login.launch().is_none());
}

#[test]
fn a_wrong_password_costs_the_floor_and_is_counted() {
    let mut login = Login::new(Vec::new(), Vec::new(), None, 7);
    login.create_session("ada".to_owned(), NOW);
    login.helper_answered("ada".to_owned(), true, NOW);
    let reply = login.handle_auth_event(
        AuthEvent::Failed("Authentication failure".to_owned()),
        NOW + 500 * MILLISECOND,
    );
    assert_eq!(login.failures, 1);
    assert_eq!(login.phase, Phase::Cooldown);
    assert_eq!(arms_timer(&reply.effects), Some(1_500 * MILLISECOND));

    let generation = login.failure_timer.expect("armed");
    let stale = login.timer_fired(generation.wrapping_add(1), "x".to_owned());
    assert!(stale.effects.is_empty());
    assert_eq!(login.phase, Phase::Cooldown);

    let reply = login.timer_fired(generation, "Authentication failure".to_owned());
    assert!(says_failed(&reply.effects));
    assert_eq!(login.phase, Phase::Idle);
}

#[test]
fn success_clears_the_failures() {
    let mut login = login();
    login.failures = 4;
    login.create_session("ada".to_owned(), NOW);
    login.helper_answered("ada".to_owned(), true, NOW);
    login.handle_auth_event(AuthEvent::Accepted, NOW);
    assert_eq!(login.failures, 0);
}

#[test]
fn attempts_are_spaced() {
    let mut login = login();
    login.create_session("ada".to_owned(), NOW);
    login.helper_answered("ada".to_owned(), true, NOW);
    login.cancel();
    let reply = login.create_session("ada".to_owned(), NOW + MILLISECOND);
    assert!(
        !reply
            .effects
            .iter()
            .any(|e| matches!(e, Effect::StartHelper { .. })),
        "a second helper was started at once"
    );
    let mut login = self::login();
    login.create_session("ada".to_owned(), NOW);
    login.helper_answered("ada".to_owned(), true, NOW);
    login.cancel();
    let reply = login.create_session("ada".to_owned(), NOW + 2 * MIN_ATTEMPT_INTERVAL);
    assert!(reply
        .effects
        .iter()
        .any(|e| matches!(e, Effect::StartHelper { .. })));
}

#[test]
fn cancelling_a_launch_restarts_the_greeter() {
    let mut login = authenticated();
    login.start_session("sway.desktop", Ok(Vec::new()), &Some(ada()), UidRange::default());
    let reply = login.cancel();
    assert!(matches!(reply.action, Action::RestartGreeter { error: Some(_) }));
    assert!(reply.effects.iter().any(|e| matches!(e, Effect::DropHelper)));
}

#[test]
fn a_timer_that_cannot_be_armed_is_answered_at_once() {
    let mut login = login();
    login.report_failure_after("nope".to_owned(), SECOND);
    let reply = login.timer_not_armed();
    assert!(says_failed(&reply.effects));
    assert_eq!(login.phase, Phase::Idle);
}

#[test]
fn ranks_are_announced_and_found() {
    let mut login = login();
    login.set_output_ranks(vec![31, 12]);
    assert_eq!(login.rank_of(31), Some(0));
    assert_eq!(login.rank_of(12), Some(1));
    assert_eq!(login.rank_of(13), None);
    let ranks = login.output_ranks();
    assert!(matches!(
        &ranks[..],
        [
            Announcement::Rank { output: 31, rank: 0 },
            Announcement::Rank { output: 12, rank: 1 }
        ]
    ));
    login.bind(5, 2).unwrap();
    login.destroyed(5);
    assert!(login.bound.is_empty());
}

#[test]
fn the_list_of_users_is_refreshed() {
    let mut login = login();
    let mut history = LastSessions::default();
    history.set("ada", "sway.desktop");
    login.refresh_users(&vec![ada()], UidRange::default(), &history);
    assert_eq!(login.users.len(), 1);
    assert_eq!(login.users[0].last_session, "sway.desktop");
}
