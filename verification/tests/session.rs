use wdm::session::{
    after_group_lookup, build_env, greeter_may_set, group_room, ChildStep, GroupStep, Launch,
    LaunchError, Progress, FIRST_GROUPS, FIRST_STEP,
};
use wdm::sessions::{Session, SessionType};
use wdm::users::{Account, UidRange};

fn session(session_type: SessionType) -> Session {
    Session {
        id: "sway.desktop".to_owned(),
        name: "Sway".to_owned(),
        command: "sway".to_owned(),
        session_type,
        path: "/usr/share/wayland-sessions/sway.desktop".to_owned(),
    }
}

fn pair(key: &str, value: &str) -> (String, String) {
    (key.to_owned(), value.to_owned())
}

fn env_of(env: &[(String, String)], key: &str) -> Option<String> {
    env.iter().find(|(k, _)| k == key).map(|(_, v)| v.clone())
}

fn env(
    session_type: SessionType,
    shell: &str,
    pam: Vec<(String, String)>,
    extra: Vec<(String, String)>,
) -> Vec<(String, String)> {
    build_env(
        &session(session_type),
        "testuser",
        b"/home/testuser",
        shell.as_bytes(),
        7,
        &pam,
        &extra,
    )
}

#[test]
fn sets_the_session_variables() {
    let env = env(SessionType::Wayland, "/bin/zsh", Vec::new(), Vec::new());

    assert_eq!(env_of(&env, "USER").as_deref(), Some("testuser"));
    assert_eq!(env_of(&env, "LOGNAME").as_deref(), Some("testuser"));
    assert_eq!(env_of(&env, "HOME").as_deref(), Some("/home/testuser"));
    assert_eq!(env_of(&env, "SHELL").as_deref(), Some("/bin/zsh"));
    assert_eq!(env_of(&env, "XDG_VTNR").as_deref(), Some("7"));
    assert_eq!(env_of(&env, "XDG_SEAT").as_deref(), Some("seat0"));
    assert_eq!(env_of(&env, "XDG_SESSION_TYPE").as_deref(), Some("wayland"));
    assert_eq!(env_of(&env, "XDG_SESSION_CLASS").as_deref(), Some("user"));
    assert_eq!(env_of(&env, "XDG_SESSION_DESKTOP").as_deref(), Some("sway"));
    assert!(env_of(&env, "PATH").is_some_and(|p| !p.is_empty()));
}

#[test]
fn x11_sessions_are_labelled_x11() {
    let env = env(SessionType::X11, "/bin/sh", Vec::new(), Vec::new());
    assert_eq!(env_of(&env, "XDG_SESSION_TYPE").as_deref(), Some("x11"));
}

#[test]
fn pam_environment_supplies_runtime_dir() {
    let env = env(
        SessionType::Wayland,
        "/bin/sh",
        vec![pair("XDG_RUNTIME_DIR", "/run/user/1000")],
        Vec::new(),
    );
    assert_eq!(
        env_of(&env, "XDG_RUNTIME_DIR").as_deref(),
        Some("/run/user/1000")
    );
}

#[test]
fn wdm_facts_override_pam() {
    let env = env(
        SessionType::Wayland,
        "/bin/sh",
        vec![pair("XDG_VTNR", "1")],
        Vec::new(),
    );
    assert_eq!(env_of(&env, "XDG_VTNR").as_deref(), Some("7"));
}

#[test]
fn greeter_may_localise_the_session() {
    let env = env(
        SessionType::Wayland,
        "/bin/sh",
        Vec::new(),
        vec![
            pair("LANG", "de_DE.UTF-8"),
            pair("LC_TIME", "en_GB.UTF-8"),
            pair("XKB_DEFAULT_LAYOUT", "de"),
        ],
    );
    assert_eq!(env_of(&env, "LANG").as_deref(), Some("de_DE.UTF-8"));
    assert_eq!(env_of(&env, "LC_TIME").as_deref(), Some("en_GB.UTF-8"));
    assert_eq!(env_of(&env, "XKB_DEFAULT_LAYOUT").as_deref(), Some("de"));
}

#[test]
fn greeter_cannot_inject_code_into_the_session() {
    let dangerous = [
        "LD_PRELOAD",
        "LD_LIBRARY_PATH",
        "LD_AUDIT",
        "PATH",
        "SHELL",
        "HOME",
        "IFS",
        "BASH_ENV",
        "ENV",
        "XDG_RUNTIME_DIR",
        "XDG_VTNR",
        "XDG_SEAT",
        "PYTHONPATH",
        "PERL5LIB",
        "GIO_MODULE_DIR",
    ];

    for key in dangerous {
        assert!(
            !greeter_may_set(key, "x"),
            "{key} must not be greeter-settable"
        );
    }

    let env = env(
        SessionType::Wayland,
        "/bin/sh",
        Vec::new(),
        dangerous.iter().map(|k| pair(k, "/tmp/evil")).collect(),
    );

    assert!(env_of(&env, "LD_PRELOAD").is_none());
    assert!(env_of(&env, "LD_LIBRARY_PATH").is_none());
    assert_eq!(env_of(&env, "HOME").as_deref(), Some("/home/testuser"));
    assert_eq!(env_of(&env, "SHELL").as_deref(), Some("/bin/sh"));
    assert_eq!(env_of(&env, "XDG_VTNR").as_deref(), Some("7"));
    assert_ne!(env_of(&env, "PATH").as_deref(), Some("/tmp/evil"));
}

#[test]
fn allowlisted_keys_still_reject_path_values() {
    assert!(greeter_may_set("LANG", "de_DE.UTF-8"));
    assert!(greeter_may_set("LC_ALL", "en_GB.UTF-8"));
    assert!(greeter_may_set("XKB_DEFAULT_LAYOUT", "de"));

    assert!(!greeter_may_set("LC_ALL", "/tmp/evil/locale"));
    assert!(!greeter_may_set("LANG", "../../tmp/evil"));
    assert!(!greeter_may_set("XKB_CONFIG_ROOT", "/tmp/evil"));
    assert!(!greeter_may_set("LANG", &"a".repeat(4096)));
}

#[test]
fn wdm_facts_win_over_the_greeter() {
    let env = env(
        SessionType::Wayland,
        "/bin/sh",
        Vec::new(),
        vec![pair("XDG_SESSION_TYPE", "x11")],
    );
    assert_eq!(env_of(&env, "XDG_SESSION_TYPE").as_deref(), Some("wayland"));
}

#[test]
fn keys_are_never_duplicated() {
    let env = env(
        SessionType::Wayland,
        "/bin/sh",
        vec![pair("PATH", "/pam")],
        vec![pair("LANG", "de_DE.UTF-8")],
    );

    for key in ["PATH", "LANG", "HOME"] {
        let hits = env.iter().filter(|(k, _)| k == key).count();
        assert!(hits <= 1, "duplicate {key} makes the winner undefined");
    }
    assert_eq!(env_of(&env, "PATH").as_deref(), Some("/pam"));
}

#[test]
fn wdm_socket_never_leaks_into_the_session() {
    let env = env(SessionType::Wayland, "/bin/sh", Vec::new(), Vec::new());
    assert!(env_of(&env, "WAYLAND_DISPLAY").is_none());
}

fn account(name: &str, uid: u32, shell: &str) -> Option<Account> {
    Some(Account {
        name: name.to_owned(),
        uid,
        gid: 100,
        gecos: String::new(),
        home: format!("/home/{name}").into_bytes(),
        shell: shell.as_bytes().to_vec(),
        avatar_path: String::new(),
    })
}

fn prepare(
    session: &Session,
    username: &str,
    account: &Option<Account>,
    groups: Result<Vec<u32>, String>,
) -> Result<Launch, LaunchError> {
    Launch::prepare(
        session,
        username,
        7,
        account,
        UidRange::default(),
        groups,
        &vec![pair("XDG_RUNTIME_DIR", "/run/user/1000")],
        &Vec::new(),
    )
}

#[test]
fn rejects_a_user_outside_the_login_range() {
    let err = prepare(
        &session(SessionType::Wayland),
        "root",
        &account("root", 0, "/bin/bash"),
        Ok(vec![0]),
    )
    .unwrap_err();
    assert!(
        matches!(err, LaunchError::NotLoginable(_) | LaunchError::NoShell(_)),
        "root was not rejected: {err:?}"
    );
    assert_eq!(err.message(), "user root is outside the loginable uid range");
}

#[test]
fn rejects_unknown_user() {
    let err = prepare(
        &session(SessionType::Wayland),
        "definitely-not-a-user-on-this-box",
        &None,
        Ok(Vec::new()),
    )
    .unwrap_err();
    assert!(matches!(err, LaunchError::NoSuchUser(_)), "{err:?}");
    assert_eq!(
        err.message(),
        "no such user: definitely-not-a-user-on-this-box"
    );
}

#[test]
fn session_rejects_empty_command() {
    let mut s = session(SessionType::Wayland);
    s.command = "   ".to_owned();
    let err = prepare(&s, "ada", &account("ada", 1000, "/bin/sh"), Ok(vec![100])).unwrap_err();
    assert!(matches!(err, LaunchError::EmptyCommand(_)), "{err:?}");
    assert_eq!(err.message(), "session command for sway.desktop is empty");
}

#[test]
fn rejects_a_user_without_a_login_shell() {
    let err = prepare(
        &session(SessionType::Wayland),
        "ada",
        &account("ada", 1000, "/usr/sbin/nologin"),
        Ok(vec![100]),
    )
    .unwrap_err();
    assert_eq!(err.message(), "user ada has no valid login shell");
}

#[test]
fn unresolved_groups_refuse_the_launch() {
    let err = prepare(
        &session(SessionType::Wayland),
        "ada",
        &account("ada", 1000, "/bin/sh"),
        Err("no memory".to_owned()),
    )
    .unwrap_err();
    assert_eq!(err.message(), "resolving groups for ada: no memory");
}

#[test]
fn a_home_with_a_nul_refuses_the_launch() {
    let mut home = account("ada", 1000, "/bin/sh");
    home.as_mut().unwrap().home = b"/home/a\0da".to_vec();
    let launch = prepare(
        &session(SessionType::Wayland),
        "ada",
        &home,
        Ok(vec![100]),
    )
    .unwrap();
    assert_eq!(
        launch.check_home().unwrap_err().message(),
        "a path for ada is not representable as a C string"
    );
}

#[test]
fn paths_that_are_not_text_reach_the_child_as_they_are() {
    let mut ada = account("ada", 1000, "");
    let entry = ada.as_mut().unwrap();
    entry.home = b"/home/\xe9".to_vec();
    entry.shell = b"/opt/\xff/bin/zsh".to_vec();
    let launch = prepare(&session(SessionType::Wayland), "ada", &ada, Ok(vec![100])).unwrap();
    assert_eq!(launch.home, b"/home/\xe9");
    assert_eq!(launch.shell, b"/opt/\xff/bin/zsh");
    assert!(launch.check_home().is_ok());
    assert_eq!(env_of(&launch.env, "HOME").as_deref(), Some("/home/\u{fffd}"));
    assert_eq!(env_of(&launch.env, "PWD").as_deref(), Some("/home/\u{fffd}"));
    assert_eq!(
        env_of(&launch.env, "SHELL").as_deref(),
        Some("/opt/\u{fffd}/bin/zsh")
    );
}

#[test]
fn a_launch_holds_what_the_child_needs() {
    let launch = prepare(
        &session(SessionType::Wayland),
        "ada",
        &account("ada", 1000, "/bin/zsh"),
        Ok(vec![100, 27]),
    )
    .unwrap();
    assert_eq!(launch.username(), "ada");
    assert_eq!(launch.uid, 1000);
    assert_eq!(launch.gid, 100);
    assert_eq!(launch.groups, [100, 27]);
    assert_eq!(launch.home, b"/home/ada");
    assert_eq!(launch.shell, b"/bin/zsh");
    assert_eq!(launch.tty(), "/dev/tty7");
    assert_eq!(launch.arguments(), ["-l", "-c", "exec sway"]);
    assert_eq!(env_of(&launch.env, "USER").as_deref(), Some("ada"));
    assert!(launch.check_home().is_ok());
    assert_eq!(
        LaunchError::Spawn("no".to_owned()).message(),
        "spawning session: no"
    );
}

/// The steps that are made until the shell runs or the child gives up.
fn steps(fails_at: Option<ChildStep>) -> (Vec<ChildStep>, Progress) {
    let mut made = vec![FIRST_STEP];
    loop {
        let step = *made.last().unwrap();
        match step.after(Some(step) != fails_at) {
            Progress::Next(next) => made.push(next),
            end => return (made, end),
        }
    }
}

#[test]
fn privileges_are_dropped_before_the_shell_runs() {
    let (made, end) = steps(None);
    assert_eq!(end, Progress::Run);
    assert_eq!(made.len(), 9);
    let at = |s| made.iter().position(|m| *m == s).unwrap();
    assert!(at(ChildStep::SetGroups) < at(ChildStep::SetGid));
    assert!(at(ChildStep::SetGid) < at(ChildStep::SetUid));
    assert!(at(ChildStep::SetUid) < at(ChildStep::CheckUid));
}

#[test]
fn only_the_terminal_may_fail() {
    let (made, _) = steps(None);
    for step in made {
        let (_, end) = steps(Some(step));
        if step == ChildStep::TakeTerminal {
            assert_eq!(end, Progress::Run);
        } else {
            assert_eq!(end, Progress::Abort, "{step:?}");
        }
    }
}

#[test]
fn group_lookups_grow_until_they_fit() {
    assert_eq!(group_room(FIRST_GROUPS), 16);
    assert_eq!(group_room(0), 1);
    assert_eq!(after_group_lookup(-1, 40, 16), GroupStep::Again { count: 40 });
    assert_eq!(after_group_lookup(40, 40, 40), GroupStep::Finished { len: 40 });
    assert_eq!(after_group_lookup(0, 50, 40), GroupStep::Finished { len: 40 });
    assert_eq!(after_group_lookup(-1, 16, 16), GroupStep::Stuck);
}
