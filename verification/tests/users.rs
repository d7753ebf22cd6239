use wdm::users::{
    avatar_candidates, avatar_for, discover, display_name_from_gecos, file_name, is_login_shell,
    join_path, Account, LastSessions, UidRange, FALLBACK_UID_MIN,
};

#[test]
fn parses_login_defs() {
    let range =
        UidRange::parse_login_defs("# comment\nUID_MIN\t\t 500\nUID_MAX 60000\nGID_MIN 1000\n");
    assert_eq!(range, UidRange { min: 500, max: 60_000 });
}

#[test]
fn login_defs_defaults_when_absent() {
    assert_eq!(UidRange::parse_login_defs(""), UidRange::default());
    assert_eq!(
        UidRange::parse_login_defs("GID_MIN 1000\n"),
        UidRange::default()
    );
}

#[test]
fn login_defs_ignores_trailing_comments() {
    let range = UidRange::parse_login_defs("UID_MIN 2000 # start here\n");
    assert_eq!(range.min, 2000);
}

#[test]
fn root_is_never_inside_the_range() {
    assert!(!UidRange::parse_login_defs("UID_MIN 0\n").contains(0));
    assert!(!UidRange::default().contains(0));
}

#[test]
fn login_defs_falls_back_on_nonsense() {
    assert_eq!(
        UidRange::parse_login_defs("UID_MIN abc\n").min,
        FALLBACK_UID_MIN
    );
    assert_eq!(
        UidRange::parse_login_defs("UID_MIN 5000\nUID_MAX 100\n"),
        UidRange::default()
    );
}

#[test]
fn uid_range_is_inclusive() {
    let range = UidRange { min: 1000, max: 2000 };
    assert!(!range.contains(999));
    assert!(range.contains(1000));
    assert!(range.contains(2000));
    assert!(!range.contains(2001));
    assert!(!UidRange::default().contains(65534));
    assert!(!UidRange::default().contains(0));
}

#[test]
fn recognises_nologin_shells() {
    assert!(is_login_shell(b"/bin/bash"));
    assert!(is_login_shell(b"/usr/bin/zsh"));
    assert!(is_login_shell(b"/bin/fish"));
    assert!(!is_login_shell(b"/usr/sbin/nologin"));
    assert!(!is_login_shell(b"/sbin/nologin"));
    assert!(!is_login_shell(b"/bin/false"));
    assert!(is_login_shell(b""));
}

#[test]
fn only_the_name_of_a_shell_must_be_text() {
    assert!(is_login_shell(b"/opt/\xff/bin/zsh"));
    assert!(!is_login_shell(b"/opt/\xff/nologin"));
    assert!(!is_login_shell(b"/bin/\xffsh"));
    assert!(!is_login_shell(b"/bin/\xff"));
    assert!(is_login_shell("/bin/\u{fffd}".as_bytes()));
    assert!(is_login_shell(b"/bin/bash/./"));
    assert!(!is_login_shell(b"/bin/nologin//."));
    assert!(!is_login_shell(b"/"));
    assert!(!is_login_shell(b"/bin/.."));
    assert!(!is_login_shell(b"."));
}

#[test]
fn takes_first_gecos_field() {
    assert_eq!(display_name_from_gecos("Joseph Quinn,,,"), "Joseph Quinn");
    assert_eq!(display_name_from_gecos(""), "");
    assert_eq!(display_name_from_gecos("  Spaced  ,x"), "Spaced");
}

#[test]
fn no_avatar_yields_empty_string() {
    let present = vec![false; avatar_candidates("nobody-here", b"/tmp/x").len()];
    assert_eq!(avatar_for("nobody-here", b"/tmp/x", &present), "");
}

#[test]
fn finds_dotface_avatar() {
    let places = avatar_candidates("someone", b"/home/someone");
    let present: Vec<bool> = places.iter().map(|p| p == b"/home/someone/.face").collect();
    assert!(present.contains(&true));
    assert_eq!(
        avatar_for("someone", b"/home/someone", &present),
        "/home/someone/.face"
    );
}

#[test]
fn the_system_avatar_is_looked_for_first() {
    let present = vec![true; avatar_candidates("someone", b"/home/someone").len()];
    assert_eq!(
        avatar_for("someone", b"/home/someone", &present),
        "/var/lib/AccountsService/icons/someone"
    );
}

#[test]
fn an_avatar_is_looked_for_below_the_home_as_it_is() {
    let places = avatar_candidates("ada", b"/home/\xe9/");
    assert_eq!(places[1], b"/home/\xe9/.face");
    assert_eq!(places[2], b"/home/\xe9/.face.icon");
    // The protocol tells paths as text.
    assert_eq!(avatar_for("ada", b"/home/\xe9/", &vec![false, true, true]), "");
    assert_eq!(avatar_for("ada", b"", &vec![false, false, true]), ".face.icon");
}

#[test]
fn last_sessions_round_trip() {
    let mut store = LastSessions::default();
    store.set("joseph", "hyprland.desktop");
    store.set("ada", "sway.desktop");

    let reloaded = LastSessions::parse(&store.to_text());
    assert_eq!(reloaded.get("joseph"), Some("hyprland.desktop"));
    assert_eq!(reloaded.get("ada"), Some("sway.desktop"));
    assert_eq!(reloaded.get("nobody"), None);
}

#[test]
fn last_sessions_skips_malformed_lines() {
    let store = LastSessions::parse("joseph\thyprland.desktop\ngarbage\n\tno-user\nada\t\n");
    assert_eq!(store.get("joseph"), Some("hyprland.desktop"));
    assert_eq!(store.get("ada"), None);
}

#[test]
fn last_sessions_output_is_sorted() {
    let mut store = LastSessions::default();
    store.set("zoe", "a.desktop");
    store.set("ada", "b.desktop");
    assert_eq!(store.to_text(), "ada\tb.desktop\nzoe\ta.desktop\n");
}

#[test]
fn missing_store_is_empty_not_an_error() {
    let store = LastSessions::parse("");
    assert_eq!(store.get("anyone"), None);
}

#[test]
fn a_later_record_replaces_an_earlier_one() {
    let mut store = LastSessions::parse("ada\ta.desktop\nada\tb.desktop\r\n");
    assert_eq!(store.get("ada"), Some("b.desktop"));
    store.set("ada", "c.desktop");
    assert_eq!(store.to_text(), "ada\tc.desktop\n");
}

fn account(name: &str, uid: u32, shell: &[u8]) -> Account {
    Account {
        name: name.to_owned(),
        uid,
        gid: uid,
        gecos: format!("{name} the first,,,"),
        home: format!("/home/{name}").into_bytes(),
        shell: shell.to_vec(),
        avatar_path: String::new(),
    }
}

#[test]
fn discover_excludes_system_accounts() {
    let accounts = vec![
        account("zoe", 1001, b"/bin/bash"),
        account("root", 0, b"/bin/bash"),
        account("nobody", 65534, b"/usr/sbin/nologin"),
        account("daemon", 1002, b"/usr/sbin/nologin"),
        account("odd", 1003, b"/bin/\xff"),
        account("ada", 1000, b""),
    ];
    let mut history = LastSessions::default();
    history.set("zoe", "sway.desktop");

    let users = discover(&accounts, UidRange::default(), &history);
    for user in &users {
        assert_ne!(user.name, "root");
        assert_ne!(user.name, "nobody");
        assert!(!user.name.is_empty());
    }
    let names: Vec<&str> = users.iter().map(|u| u.name.as_str()).collect();
    assert_eq!(names, ["ada", "zoe"]);
    assert_eq!(users[0].display_name, "ada the first");
    assert_eq!(users[0].last_session, "");
    assert_eq!(users[1].last_session, "sway.desktop");
}

#[test]
fn paths_are_taken_apart_and_joined() {
    assert_eq!(file_name("/bin/bash").as_deref(), Some("bash"));
    assert_eq!(file_name("/bin/"), Some("bin".to_owned()));
    assert_eq!(file_name("/"), None);
    assert_eq!(file_name(".."), None);
    assert_eq!(join_path(b"/a", b"b"), b"/a/b");
    assert_eq!(join_path(b"/a/", b"b"), b"/a/b");
    assert_eq!(join_path(b"/a", b"/b"), b"/b");
}

#[test]
fn the_text_does_not_depend_on_the_history() {
    let mut one = LastSessions::default();
    one.set("zoe", "old.desktop");
    one.set("ada", "sway.desktop");
    one.set("zoe", "i3.desktop");
    let mut other = LastSessions::default();
    other.set("zoe", "i3.desktop");
    other.set("ada", "sway.desktop");
    assert_eq!(one.to_text(), "ada\tsway.desktop\nzoe\ti3.desktop\n");
    assert_eq!(other.to_text(), one.to_text());

    let copy = one.clone();
    one.set("ada", "river.desktop");
    assert_eq!(copy.get("ada"), Some("sway.desktop"));
    assert_eq!(copy.to_text(), other.to_text());
}
