use wdm::auth::{PromptStyle, SessionDescription};
use wdm::pamhelper::{
    first_message, may_read, name_of, Asked, Conversation, First, Helper, HelperAction,
    HelperEvent, LaunchArgs, PamCall, PamNext, PamResult, ReadResult, Recv, Stage, Start, TaskShape,
};
use wdm::pamwire::Msg;

const SECOND: u64 = 1_000_000_000;
const NOW: u64 = 1_000 * SECOND;

fn start() -> Start {
    Start {
        username: "testuser".to_owned(),
        tty: "/dev/tty7".to_owned(),
        session: SessionDescription {
            seat: "seat0".to_owned(),
            vtnr: 7,
            session_type: "wayland".to_owned(),
            desktop: String::new(),
        },
        id_base: 4096,
    }
}

fn conversation(timeout: u64, authenticated: bool) -> Conversation {
    let mut conversation = Conversation::new(&start(), timeout);
    conversation.authenticated = authenticated;
    conversation
}

fn launch() -> Msg {
    Msg::Launch {
        session_type: "wayland".to_owned(),
        desktop: "sway".to_owned(),
        session_id: "sway.desktop".to_owned(),
        session_name: "Sway".to_owned(),
        session_exec: "sway".to_owned(),
        extra_env: Vec::new(),
        vt: 7,
    }
}

#[test]
fn an_authentication_failure_reaches_wdm_as_one_fixed_string() {
    let refused = PamCall::Authenticate.after(
        &PamResult::Failed("User not known to the underlying authentication module".to_owned()),
        "bob",
    );
    let PamNext::Refused(reason) = refused else {
        panic!("a failure was not refused");
    };
    let mut helper = Helper::new();
    assert!(matches!(helper.first(), HelperAction::Authenticate));
    let (message, action) = helper.step(HelperEvent::Refused(reason));
    assert!(matches!(action, HelperAction::Stop));
    let verdict = message.expect("the verdict");
    let Msg::Failed(reason) = &verdict else {
        panic!("expected a Failed");
    };
    assert_eq!(reason, "Authentication failure");
}

#[test]
fn an_expired_password_is_changed() {
    let expired = PamResult::NewTokenRequired("expired".to_owned());
    assert!(matches!(
        PamCall::Authenticate.after(&PamResult::Done, "bob"),
        PamNext::Call(PamCall::AcctMgmt)
    ));
    assert!(matches!(
        PamCall::AcctMgmt.after(&expired, "bob"),
        PamNext::Call(PamCall::Chauthtok)
    ));
    assert!(matches!(
        PamCall::Chauthtok.after(&PamResult::Done, "bob"),
        PamNext::Accepted
    ));
    let short = PamResult::Failed("password too short".to_owned());
    let PamNext::Refused(reason) = PamCall::Chauthtok.after(&short, "bob") else {
        panic!("a failed change was accepted");
    };
    assert_eq!(reason, "password too short");
}

#[test]
fn the_helper_runs_the_session_between_opening_and_closing_it() {
    let mut helper = Helper::new();
    let (message, action) = helper.step(HelperEvent::Authenticated);
    assert_eq!(message, Some(Msg::Accepted));
    assert!(matches!(action, HelperAction::Receive));

    let (message, action) = helper.step(HelperEvent::Received(Recv::Message(launch())));
    assert_eq!(message, None);
    let HelperAction::Open(args) = action else {
        panic!("the session was not opened");
    };
    assert_eq!((args.session_type.as_str(), args.desktop.as_str()), ("wayland", "sway"));

    let env = vec![("XDG_RUNTIME_DIR".to_owned(), "/run/user/1000".to_owned())];
    let (message, action) = helper.step(HelperEvent::Opened(env.clone()));
    assert_eq!(message, None);
    assert!(matches!(action, HelperAction::Spawn(given) if given == env));

    let (message, action) = helper.step(HelperEvent::Spawned { pid: 4321 });
    assert_eq!(message, Some(Msg::SessionStarted { pid: 4321 }));
    assert!(matches!(action, HelperAction::AwaitSession));

    let (message, action) = helper.step(HelperEvent::Ended {
        status: "exit status: 0".to_owned(),
        ran_for_ms: 90_000,
    });
    assert_eq!(
        message,
        Some(Msg::SessionEnded {
            status: "exit status: 0".to_owned(),
            ran_for_ms: 90_000,
        })
    );
    assert!(matches!(action, HelperAction::Close));
    assert_eq!(helper.stage, Stage::Finished);
}

#[test]
fn a_launch_that_fails_is_reported_and_still_closes_the_pam_session() {
    let mut helper = Helper::new();
    helper.step(HelperEvent::Authenticated);
    helper.step(HelperEvent::Received(Recv::Message(launch())));
    helper.step(HelperEvent::Opened(Vec::new()));
    let (message, action) =
        helper.step(HelperEvent::NotSpawned("no such user: nobody-at-all".to_owned()));
    let failed = message.expect("the failure");
    let Msg::SessionFailed(reason) = &failed else {
        panic!("expected SessionFailed, got {}", name_of(&failed));
    };
    assert!(reason.contains("no such user"), "{reason}");
    assert!(
        matches!(action, HelperAction::Close),
        "a failed launch left the PAM session open"
    );
}

#[test]
fn a_session_that_cannot_be_opened_is_not_closed() {
    let mut helper = Helper::new();
    helper.step(HelperEvent::Authenticated);
    helper.step(HelperEvent::Received(Recv::Message(launch())));
    let (message, action) = helper.step(HelperEvent::NotOpened("denied".to_owned()));
    assert_eq!(message, Some(Msg::SessionFailed("denied".to_owned())));
    assert!(matches!(action, HelperAction::Stop));
}

#[test]
fn a_closed_socket_cancels_before_the_verdict() {
    let mut conversation = conversation(5 * SECOND, false);
    let (_, question) = conversation.ask(b"Password:", PromptStyle::Secret, NOW);
    assert!(matches!(
        conversation.reply(question, &Recv::Closed),
        Asked::Fail(None)
    ));

    let mut helper = Helper::new();
    helper.step(HelperEvent::Authenticated);
    let (message, action) = helper.step(HelperEvent::Received(Recv::Closed));
    assert_eq!(message, None);
    assert!(
        matches!(action, HelperAction::Stop),
        "a cancelled attempt must never open a PAM session"
    );
}

#[test]
fn a_launch_rebuilds_the_session_it_was_told_about() {
    let msg = Msg::Launch {
        session_type: "x11".to_owned(),
        desktop: "i3".to_owned(),
        session_id: "i3.desktop".to_owned(),
        session_name: "i3".to_owned(),
        session_exec: "i3 --shmlog-size 0".to_owned(),
        extra_env: vec![("LANG".to_owned(), "de_DE.UTF-8".to_owned())],
        vt: 7,
    };
    let args = LaunchArgs::from_msg(&msg).expect("a Launch must parse");

    assert_eq!(args.vt, 7);
    assert_eq!(args.session.command, "i3 --shmlog-size 0");
    assert_eq!(args.session.id, "i3.desktop");
    assert_eq!(args.session.name, "i3");
    assert_eq!(args.extra_env.len(), 1);
    assert_eq!(args.session.xdg_session_type(), args.session_type);
    assert_eq!(args.session.xdg_session_desktop(), args.desktop);

    assert!(LaunchArgs::from_msg(&Msg::Accepted).is_none());
}

#[test]
fn a_task_shape_is_read_out_of_proc_status() {
    let sample = "Name:\twdm\n\
                  Umask:\t0022\n\
                  State:\tS (sleeping)\n\
                  Tgid:\t1740183\n\
                  Ngid:\t0\n\
                  Pid:\t1740190\n\
                  PPid:\t1\n\
                  NSpid:\t1740190\n\
                  Threads:\t4\n";

    let shape = TaskShape::parse(sample).expect("a status must parse");
    assert_eq!(
        shape,
        TaskShape {
            threads: 4,
            pid: 1_740_190,
            tgid: 1_740_183,
        }
    );
    let why = shape.single_threaded_leader().unwrap_err();
    assert!(why.contains("1740190"), "{why}");
    assert!(why.contains("1740183"), "{why}");

    assert!(TaskShape {
        threads: 1,
        pid: 42,
        tgid: 42
    }
    .single_threaded_leader()
    .is_ok());
    assert!(TaskShape {
        threads: 2,
        pid: 42,
        tgid: 42
    }
    .single_threaded_leader()
    .is_err());

    assert!(TaskShape::parse("Name:\twdm\nThreads:\t1\n").is_none());
}

#[test]
fn a_timeout_explains_itself_before_failing() {
    let mut conversation = conversation(50_000_000, false);
    let (prompt, question) = conversation.ask(b"Password:", PromptStyle::Secret, NOW);
    assert_eq!(
        prompt,
        Msg::Prompt {
            id: 4096,
            text: "Password:".to_owned(),
            style: PromptStyle::Secret
        }
    );
    let Asked::Fail(Some(notice)) = conversation.reply(question, &Recv::Timeout) else {
        panic!("expected a second prompt");
    };
    let Msg::Prompt { id, text, style } = &notice else {
        panic!("expected a prompt");
    };
    assert_eq!(*style, PromptStyle::Error);
    assert_eq!(*id, 4097);
    assert!(
        text.contains("timed out"),
        "the timeout notice should say what happened, got {text:?}"
    );
}

#[test]
fn stale_responses_cannot_extend_the_deadline() {
    let mut conversation = conversation(50_000_000, false);
    let (_, question) = conversation.ask(b"Password:", PromptStyle::Secret, NOW);
    let mut now = NOW;
    while may_read(Some(question.remaining(now))) {
        let stale = Recv::Message(Msg::Response {
            id: question.id.wrapping_add(1000),
            secret: "stale".to_owned(),
        });
        assert!(matches!(conversation.reply(question, &stale), Asked::Wait));
        now += 10_000_000;
        assert!(now <= NOW + 50_000_000, "stale responses extended the deadline");
    }
    assert_eq!(question.remaining(now), 0);
}

#[test]
fn a_signal_does_not_end_a_read() {
    // Asking: an interrupted read and a stale answer, then the answer, all before
    // the deadline.
    let mut conversation = conversation(5 * SECOND, false);
    let (_, question) = conversation.ask(b"Password:", PromptStyle::Secret, NOW);
    let deadline = question.deadline;
    let interrupted = Recv::from_read(ReadResult::Interrupted, &mut Vec::new());
    assert!(matches!(conversation.reply(question, &interrupted), Asked::Wait));
    let stale = Recv::Message(Msg::Response {
        id: question.id.wrapping_sub(1),
        secret: "stale".to_owned(),
    });
    assert!(matches!(conversation.reply(question, &stale), Asked::Wait));
    assert!(matches!(conversation.reply(question, &interrupted), Asked::Wait));
    assert_eq!(question.deadline, deadline);
    assert!(may_read(Some(question.remaining(deadline - 1))));
    let answer = Recv::Message(Msg::Response {
        id: question.id,
        secret: "hunter2".to_owned(),
    });
    assert!(matches!(
        conversation.reply(question, &answer),
        Asked::Answer(text) if text == "hunter2"
    ));

    // Waiting to be told to launch.
    let mut helper = Helper::new();
    helper.step(HelperEvent::Authenticated);
    let (message, action) = helper.step(HelperEvent::Received(Recv::Interrupted));
    assert_eq!(message, None);
    assert!(matches!(action, HelperAction::Receive));
    let (_, action) = helper.step(HelperEvent::Received(Recv::Message(launch())));
    assert!(matches!(action, HelperAction::Open(_)));

    // Waiting for the first message.
    assert!(matches!(first_message(&Recv::Interrupted), First::ReadAgain));
}

#[test]
fn answers_reach_the_conversation_and_ids_advance() {
    let mut conversation = conversation(5 * SECOND, false);
    let (_, first) = conversation.ask(b"Username:", PromptStyle::Visible, NOW);
    let answer = Recv::Message(Msg::Response {
        id: first.id,
        secret: "testuser".to_owned(),
    });
    assert!(matches!(
        conversation.reply(first, &answer),
        Asked::Answer(text) if text == "testuser"
    ));
    let (_, second) = conversation.ask(b"Password:", PromptStyle::Secret, NOW);
    assert_ne!(first.id, second.id, "ids must not repeat within a conversation");
    let answer = Recv::Message(Msg::Response {
        id: second.id,
        secret: "hunter2".to_owned(),
    });
    assert!(matches!(
        conversation.reply(second, &answer),
        Asked::Answer(text) if text == "hunter2"
    ));
}

#[test]
fn a_response_containing_nul_is_refused() {
    let mut conversation = conversation(5 * SECOND, false);
    let (_, question) = conversation.ask(b"Password:", PromptStyle::Secret, NOW);
    let answer = Recv::Message(Msg::Response {
        id: question.id,
        secret: "bad\0password".to_owned(),
    });
    assert!(matches!(
        conversation.reply(question, &answer),
        Asked::Fail(None)
    ));
}

#[test]
fn informational_messages_need_no_response() {
    let mut conversation = conversation(5 * SECOND, true);
    let first = conversation.tell(b"Welcome", PromptStyle::Info);
    let second = conversation.tell(b"Nope", PromptStyle::Error);
    let Msg::Prompt { id: info, style, text } = &first else {
        panic!("expected a prompt");
    };
    assert_eq!(*style, PromptStyle::Info);
    assert_eq!(text, "Welcome");
    let Msg::Prompt { id: error, style, .. } = &second else {
        panic!("expected a prompt");
    };
    assert_eq!(*style, PromptStyle::Error);
    assert!(error > info, "ids must advance");
}

#[test]
fn module_text_before_authentication_succeeds_does_not_reach_the_greeter() {
    let text_of = |msg: &Msg| match msg {
        Msg::Prompt { text, .. } => text.clone(),
        _ => panic!("expected a prompt"),
    };
    let mut before = conversation(5 * SECOND, false);
    let locked = text_of(&before.tell(
        b"Account locked due to 3 failed logins",
        PromptStyle::Error,
    ));
    let unknown = text_of(&before.tell(b"Server message: user not found", PromptStyle::Info));
    assert_eq!(locked, unknown);
    assert!(!locked.contains("locked"));

    let mut after = conversation(5 * SECOND, true);
    let complaint = text_of(&after.tell(b"BAD PASSWORD: it is too short", PromptStyle::Error));
    assert_eq!(complaint, "BAD PASSWORD: it is too short");
}

#[test]
fn module_text_that_is_not_utf8_is_shown_as_far_as_it_goes() {
    let mut after = conversation(5 * SECOND, true);
    let msg = after.tell(b"caf\xe9", PromptStyle::Info);
    let Msg::Prompt { text, .. } = &msg else {
        panic!("expected a prompt");
    };
    assert_eq!(text, "caf\u{fffd}");
}

#[test]
fn start_is_the_only_message_that_starts_an_attempt() {
    let start = Msg::Start {
        username: "testuser".to_owned(),
        tty: "/dev/tty7".to_owned(),
        seat: "seat0".to_owned(),
        vtnr: 7,
        session_type: "wayland".to_owned(),
        desktop: String::new(),
        id_base: 4096,
    };
    let parsed = Start::from_msg(&start).expect("a Start must parse");
    assert_eq!(parsed.username, "testuser");
    assert_eq!(parsed.tty, "/dev/tty7");
    assert_eq!(parsed.session.seat, "seat0");
    assert_eq!(parsed.session.vtnr, 7);
    assert_eq!(parsed.id_base, 4096);

    assert!(Start::from_msg(&Msg::Accepted).is_none());
    assert!(Start::from_msg(&launch()).is_none());
    assert!(matches!(
        first_message(&Recv::Message(start)),
        First::Begin(start) if start.username == "testuser"
    ));
    assert!(matches!(first_message(&Recv::Message(launch())), First::Refuse));
    assert!(matches!(first_message(&Recv::Timeout), First::Refuse));
    assert!(matches!(first_message(&Recv::Closed), First::Refuse));
}

#[test]
fn pamhelper_a_message_name_never_contains_a_secret() {
    let msg = Msg::Response {
        id: 1,
        secret: "hunter2".to_owned(),
    };
    assert_eq!(name_of(&msg), "response");
}

#[test]
fn a_read_is_turned_into_a_message_and_its_buffer_scrubbed() {
    let mut buffer = Msg::Response {
        id: 1,
        secret: "hunter2".to_owned(),
    }
    .encode();
    let n = buffer.len();
    buffer.resize(64, 0);
    let Recv::Message(msg) = Recv::from_read(ReadResult::Bytes(n), &mut buffer) else {
        panic!("a whole message was not received");
    };
    assert_eq!(name_of(&msg), "response");
    assert!(buffer.is_empty(), "the secret stayed in the buffer");

    let mut buffer = vec![1, 2, 3];
    assert!(matches!(
        Recv::from_read(ReadResult::Bytes(3), &mut buffer),
        Recv::Closed
    ));
    assert!(matches!(
        Recv::from_read(ReadResult::Bytes(0), &mut buffer),
        Recv::Closed
    ));
    assert!(matches!(
        Recv::from_read(ReadResult::NothingYet, &mut buffer),
        Recv::Timeout
    ));
    assert!(matches!(
        Recv::from_read(ReadResult::Interrupted, &mut buffer),
        Recv::Interrupted
    ));
    assert!(matches!(
        Recv::from_read(ReadResult::Error, &mut buffer),
        Recv::Closed
    ));
}

#[test]
fn modules_are_quoted_once_the_credential_is_accepted() {
    let told = |conversation: &mut Conversation| match &conversation.tell(b"hi", PromptStyle::Info) {
        Msg::Prompt { text, .. } => text.clone(),
        _ => panic!("expected a prompt"),
    };
    let fixed = "The login attempt could not be completed.";
    let mut conversation = Conversation::new(&start(), 5 * SECOND);
    assert_eq!(told(&mut conversation), fixed);
    conversation.note(PamCall::Authenticate, &PamResult::Failed("no".to_owned()));
    conversation.note(PamCall::AcctMgmt, &PamResult::Done);
    conversation.note(PamCall::Chauthtok, &PamResult::Done);
    assert_eq!(told(&mut conversation), fixed);
    conversation.note(PamCall::Authenticate, &PamResult::Done);
    assert_eq!(told(&mut conversation), "hi");
    conversation.note(PamCall::AcctMgmt, &PamResult::Failed("expired".to_owned()));
    assert_eq!(told(&mut conversation), "hi");
}
