use wdm::auth::PromptStyle;
use wdm::pamwire::{Msg, MAX_MESSAGE};

const TAG_LAUNCH: u8 = 2;
const TAG_PROMPT: u8 = 3;
const TAG_FAILED: u8 = 5;
const STYLE_VISIBLE: u8 = 1;

fn put_u32(out: &mut Vec<u8>, value: u32) {
    out.extend_from_slice(&value.to_le_bytes());
}

fn put_str(out: &mut Vec<u8>, value: &str) {
    put_u32(out, value.len() as u32);
    out.extend_from_slice(value.as_bytes());
}

fn round_trip(msg: Msg) {
    let bytes = msg.encode();
    assert!(bytes.len() <= MAX_MESSAGE);
    let back = Msg::decode(&bytes).expect("well-formed message failed to decode");
    assert_eq!(back, msg);
}

fn a_start() -> Msg {
    Msg::Start {
        username: "alice".to_owned(),
        tty: "/dev/tty7".to_owned(),
        seat: "seat0".to_owned(),
        vtnr: 7,
        session_type: "wayland".to_owned(),
        desktop: "sway".to_owned(),
        id_base: 4096,
    }
}

#[test]
fn every_message_round_trips() {
    round_trip(a_start());
    round_trip(Msg::Response {
        id: 7,
        secret: "hunter2".to_owned(),
    });
    round_trip(Msg::Launch {
        session_type: "wayland".to_owned(),
        desktop: "hyprland".to_owned(),
        session_id: "hyprland.desktop".to_owned(),
        session_name: "Hyprland".to_owned(),
        session_exec: "Hyprland".to_owned(),
        extra_env: vec![
            ("LANG".to_owned(), "en_GB.UTF-8".to_owned()),
            ("XKB_DEFAULT_LAYOUT".to_owned(), "gb".to_owned()),
        ],
        vt: 7,
    });
    round_trip(Msg::Prompt {
        id: 0,
        text: "Password: ".to_owned(),
        style: PromptStyle::Secret,
    });
    round_trip(Msg::Accepted);
    round_trip(Msg::Failed("Authentication failure".to_owned()));
    round_trip(Msg::SessionStarted { pid: 4321 });
    round_trip(Msg::SessionFailed("no such session".to_owned()));
    round_trip(Msg::SessionEnded {
        status: "exit status: 0".to_owned(),
        ran_for_ms: 12_345,
    });
}

#[test]
fn every_prompt_style_survives_the_wire() {
    for style in [
        PromptStyle::Secret,
        PromptStyle::Visible,
        PromptStyle::Info,
        PromptStyle::Error,
    ] {
        round_trip(Msg::Prompt {
            id: 1,
            text: String::new(),
            style,
        });
    }
}

#[test]
fn non_utf8_prompt_text_survives_lossily_rather_than_failing() {
    let mut bytes = vec![TAG_PROMPT];
    put_u32(&mut bytes, 3);
    put_u32(&mut bytes, 2);
    bytes.extend_from_slice(&[0xff, 0xfe]);
    bytes.push(STYLE_VISIBLE);

    let decoded = Msg::decode(&bytes);
    let Some(Msg::Prompt { id, text, style }) = &decoded else {
        panic!("a message with non-UTF-8 text must still decode");
    };
    assert_eq!(*id, 3);
    assert_eq!(*style, PromptStyle::Visible);
    assert!(!text.is_empty(), "the replacement character should survive");
    assert_eq!(text, "\u{fffd}\u{fffd}");
}

#[test]
fn a_truncated_message_is_refused_rather_than_guessed() {
    let full = Msg::Prompt {
        id: 9,
        text: "Password: ".to_owned(),
        style: PromptStyle::Secret,
    }
    .encode();

    for cut in 1..full.len() {
        assert!(
            Msg::decode(&full[..cut]).is_none(),
            "a message truncated to {cut} bytes decoded anyway"
        );
    }
}

#[test]
fn trailing_bytes_are_refused() {
    let mut bytes = Msg::Accepted.encode();
    bytes.push(0);
    assert!(Msg::decode(&bytes).is_none());
}

#[test]
fn an_unknown_tag_is_refused() {
    assert!(Msg::decode(&[254]).is_none());
    assert!(Msg::decode(&[]).is_none());
}

#[test]
fn a_corrupt_length_cannot_run_past_the_message() {
    let mut bytes = vec![TAG_FAILED];
    put_u32(&mut bytes, u32::MAX);
    bytes.extend_from_slice(b"short");
    assert!(Msg::decode(&bytes).is_none());
}

#[test]
fn a_corrupt_pair_count_cannot_allocate_unboundedly() {
    let mut bytes = vec![TAG_LAUNCH];
    for _ in 0..5 {
        put_str(&mut bytes, "");
    }
    put_u32(&mut bytes, u32::MAX);
    assert!(Msg::decode(&bytes).is_none());
}

#[test]
fn a_dropped_response_scrubs_its_secret() {
    // Dropping a message scrubs it as this does, before anything is freed.
    let mut msg = Msg::Response {
        id: 1,
        secret: "correct horse".to_owned(),
    };
    msg.scrub();
    let Msg::Response { id, secret } = &msg else {
        panic!("scrubbing changed the message");
    };
    assert_eq!(*id, 1);
    assert_ne!(secret, "correct horse", "the secret survived the drop");
    assert_eq!(secret, "");
    drop(msg);
    drop(Msg::Response {
        id: 2,
        secret: "correct horse".to_owned(),
    });
}

#[test]
fn scrubbing_leaves_other_messages_alone() {
    let mut msg = a_start();
    msg.scrub();
    assert_eq!(msg, a_start());
}

#[test]
fn the_bytes_of_a_response_are_pinned() {
    let bytes = Msg::Response {
        id: 0x01020304,
        secret: "é".to_owned(),
    }
    .encode();
    assert_eq!(bytes, vec![1, 4, 3, 2, 1, 2, 0, 0, 0, 0xc3, 0xa9]);
}

#[test]
fn the_bytes_of_an_ended_session_are_pinned() {
    let bytes = Msg::SessionEnded {
        status: "ok".to_owned(),
        ran_for_ms: 258,
    }
    .encode();
    assert_eq!(
        bytes,
        vec![8, 2, 0, 0, 0, b'o', b'k', 2, 1, 0, 0, 0, 0, 0, 0]
    );
}

#[test]
fn an_unknown_prompt_style_is_refused() {
    let mut bytes = vec![TAG_PROMPT];
    put_u32(&mut bytes, 3);
    put_str(&mut bytes, "?");
    bytes.push(4);
    assert!(Msg::decode(&bytes).is_none());
}

#[test]
fn different_messages_have_different_bytes() {
    let one = Msg::Failed("x".to_owned()).encode();
    let other = Msg::SessionFailed("x".to_owned()).encode();
    assert_ne!(one, other);
}

#[test]
fn a_decoded_datagram_is_the_encoding_of_its_message() {
    for msg in [
        a_start(),
        Msg::Response {
            id: 9,
            secret: "h\u{e4}kan".to_owned(),
        },
        Msg::Launch {
            session_type: "x11".to_owned(),
            desktop: String::new(),
            session_id: "i3.desktop".to_owned(),
            session_name: "i3".to_owned(),
            session_exec: "i3".to_owned(),
            extra_env: vec![("LANG".to_owned(), "de".to_owned())],
            vt: 2,
        },
    ] {
        let bytes = msg.encode();
        let back = Msg::decode(&bytes).expect("decodes");
        assert_eq!(back.encode(), bytes);
    }

    // Bytes that are not text are read as some text, which has another encoding.
    let mut datagram = vec![TAG_FAILED];
    put_u32(&mut datagram, 1);
    datagram.push(0xff);
    let msg = Msg::decode(&datagram).expect("decodes");
    assert_ne!(msg.encode(), datagram);
}

#[test]
fn a_damaged_string_shows() {
    // The second of two pairs has a value that is not text.
    let mut bytes = vec![TAG_LAUNCH];
    for text in ["wayland", "sway", "sway.desktop", "Sway", "sway"] {
        put_str(&mut bytes, text);
    }
    put_u32(&mut bytes, 2);
    for text in ["LANG", "de", "TZ"] {
        put_str(&mut bytes, text);
    }
    put_u32(&mut bytes, 3);
    bytes.extend_from_slice(b"a\xffb");
    put_u32(&mut bytes, 7);
    let Some(Msg::Launch { extra_env, .. }) = &Msg::decode(&bytes) else {
        panic!("a message with text that is not UTF-8 must still decode");
    };
    assert_eq!(extra_env[0], ("LANG".to_owned(), "de".to_owned()));
    assert_eq!(extra_env[1], ("TZ".to_owned(), "a\u{fffd}b".to_owned()));
}
