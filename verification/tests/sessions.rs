use wdm::sessions::{
    binary_candidates, discover, has_desktop_extension, load, offer, scanned, search_order,
    strip_field_codes, Entry, Session, SessionType, WAYLAND_DIRS, X11_DIRS,
};

#[test]
fn strips_field_codes() {
    assert_eq!(strip_field_codes("Hyprland"), "Hyprland");
    assert_eq!(strip_field_codes("sway %U"), "sway");
    assert_eq!(strip_field_codes("foo %f bar %U baz"), "foo bar baz");
    assert_eq!(strip_field_codes("gnome-session --mode %i"), "gnome-session --mode");
}

#[test]
fn keeps_escaped_percent() {
    assert_eq!(strip_field_codes("cmd 100%%"), "cmd 100%");
    assert_eq!(strip_field_codes("cmd %%f"), "cmd %f");
}

#[test]
fn tolerates_trailing_percent() {
    assert_eq!(strip_field_codes("cmd %"), "cmd");
}

#[test]
fn drops_unknown_codes() {
    assert_eq!(strip_field_codes("cmd %z arg"), "cmd arg");
}

#[test]
fn collapses_whitespace_left_behind() {
    assert_eq!(strip_field_codes("cmd %f arg"), "cmd arg");
    assert!(!strip_field_codes("cmd %f arg").contains("  "));
}

/// What a directory of these files offers, with no binary installed anywhere.
fn scan_dir(
    dir: &str,
    files: &[(&str, &str)],
    session_type: SessionType,
    locales: &[String],
) -> Vec<Session> {
    let mut found = Vec::new();
    for (name, text) in files {
        let path = format!("{dir}/{name}");
        if !has_desktop_extension(&path) {
            continue;
        }
        if let Ok(Some(candidate)) = load(&path, text, session_type, &locales.to_vec()) {
            if let Ok(Some(session)) = candidate.settle(false) {
                found.push(session);
            }
        }
    }
    scanned(&found)
}

#[test]
fn missing_directories_are_not_an_error() {
    assert!(scan_dir("/nonexistent/wdm-test-sessions", &[], SessionType::Wayland, &[]).is_empty());
}

#[test]
fn loads_a_desktop_entry() {
    let found = scan_dir(
        "/tmp/sessions",
        &[
            (
                "sway.desktop",
                "[Desktop Entry]\nName=Sway\nComment=tiling\nExec=sway %U\nType=Application\n",
            ),
            (
                "hidden.desktop",
                "[Desktop Entry]\nName=Hidden\nExec=nope\nHidden=true\n",
            ),
            (
                "nodisplay.desktop",
                "[Desktop Entry]\nName=NoDisplay\nExec=nope\nNoDisplay=true\n",
            ),
            (
                "uninstalled.desktop",
                "[Desktop Entry]\nName=Gone\nExec=gone\nTryExec=/nonexistent/gone\n",
            ),
            ("README", "not an entry"),
        ],
        SessionType::Wayland,
        &[],
    );
    assert_eq!(found.len(), 1, "found: {found:?}");
    assert_eq!(found[0].id, "sway.desktop");
    assert_eq!(found[0].name, "Sway");
    assert_eq!(found[0].command, "sway");
    assert_eq!(found[0].session_type, SessionType::Wayland);
    assert_eq!(found[0].path, "/tmp/sessions/sway.desktop");
}

#[test]
fn entry_without_name_falls_back_to_id() {
    let found = scan_dir(
        "/tmp/sessions",
        &[("nameless.desktop", "[Desktop Entry]\nExec=weston\n")],
        SessionType::Wayland,
        &[],
    );
    assert_eq!(found.len(), 1);
    assert_eq!(found[0].name, "nameless.desktop");
}

#[test]
fn entry_without_exec_is_skipped() {
    let found = scan_dir(
        "/tmp/sessions",
        &[
            ("broken.desktop", "[Desktop Entry]\nName=Broken\n"),
            ("good.desktop", "[Desktop Entry]\nName=Good\nExec=river\n"),
        ],
        SessionType::Wayland,
        &[],
    );
    assert_eq!(found.len(), 1);
    assert_eq!(found[0].name, "Good");
}

#[test]
fn localised_name_is_preferred() {
    let found = scan_dir(
        "/tmp/sessions",
        &[(
            "de.desktop",
            "[Desktop Entry]\nName=Desktop\nName[de]=Arbeitsfläche\nExec=de\n",
        )],
        SessionType::Wayland,
        &["de".to_owned()],
    );
    assert_eq!(found[0].name, "Arbeitsfläche");
}

#[test]
fn a_file_that_is_no_entry_is_an_error() {
    let entry = "Name=Sway\nExec=sway\n";
    assert!(load("/tmp/x.desktop", entry, SessionType::X11, &vec![]).is_err());
    let entry = "[Desktop Entry]\nName=Sway\nExec=sway\n";
    assert!(load("/tmp/x.desktop", entry, SessionType::X11, &vec![]).is_ok());
    assert!(load("/tmp/x.txt", entry, SessionType::X11, &vec![]).is_err());
}

fn entry(command: Option<&str>, name: Option<&str>, try_exec: Option<&str>) -> Entry {
    Entry {
        hidden: false,
        no_display: false,
        try_exec: try_exec.map(|s| s.to_owned()),
        command: command.map(|s| s.to_owned()),
        name: name.map(|s| s.to_owned()),
    }
}

#[test]
fn an_installed_binary_makes_a_session() {
    let candidate = offer(
        "/usr/share/xsessions/i3.desktop",
        entry(Some("i3 %f"), Some("i3"), Some("i3")),
        SessionType::X11,
    )
    .expect("the entry is shown");
    assert_eq!(candidate.try_exec.as_deref(), Some("i3"));
    let session = candidate.settle(true).unwrap().expect("i3 is installed");
    assert_eq!(session.command, "i3");
    assert_eq!(session.xdg_session_type(), "x11");
    assert_eq!(session.xdg_session_desktop(), "i3");
}

#[test]
fn an_entry_without_a_command_is_an_error_unless_it_is_not_installed() {
    let candidate = offer("/x/a.desktop", entry(None, None, None), SessionType::Wayland).unwrap();
    assert!(candidate.settle(true).is_err());
    let candidate =
        offer("/x/a.desktop", entry(None, None, Some("gone")), SessionType::Wayland).unwrap();
    assert_eq!(candidate.settle(false), Ok(None));
}

#[test]
fn binaries_are_looked_for_on_the_path() {
    assert_eq!(binary_candidates("/opt/x", Some(b"/a:/b")), [b"/opt/x"]);
    assert_eq!(binary_candidates("x", Some(b"/a:/b")), [b"/a/x", b"/b/x"]);
    assert!(binary_candidates("x", None).is_empty());
    // An empty piece is the current directory.
    assert_eq!(binary_candidates("x", Some(b":/b/")), [&b"x"[..], b"/b/x"]);
    // One directory that is not text does not hide the others.
    assert_eq!(binary_candidates("x", Some(b"/\xff:/b")), [b"/\xff/x", b"/b/x"]);
}

fn session(id: &str, name: &str, path: &str) -> Session {
    Session {
        id: id.to_owned(),
        name: name.to_owned(),
        command: "x".to_owned(),
        session_type: SessionType::Wayland,
        path: path.to_owned(),
    }
}

#[test]
fn earlier_directories_win_and_the_list_is_by_name() {
    let dirs = vec![
        vec![session("b.desktop", "Zeta", "/local/b.desktop")],
        vec![
            session("a.desktop", "Alpha", "/usr/a.desktop"),
            session("b.desktop", "Beta", "/usr/b.desktop"),
        ],
    ];
    let found = discover(&dirs);
    let names: Vec<&str> = found.iter().map(|s| s.name.as_str()).collect();
    assert_eq!(names, ["Alpha", "Zeta"]);
    assert_eq!(found[1].path, "/local/b.desktop");
}

#[test]
fn a_directory_is_listed_by_id() {
    let found = scanned(&vec![
        session("b.desktop", "A", "/b"),
        session("a.desktop", "B", "/a"),
    ]);
    assert_eq!(found[0].id, "a.desktop");
    assert_eq!(found[1].id, "b.desktop");
}

#[test]
fn local_directories_come_first() {
    assert_eq!(WAYLAND_DIRS[0], "/usr/local/share/wayland-sessions");
    assert_eq!(X11_DIRS[0], "/usr/local/share/xsessions");
    assert_eq!(
        search_order(),
        [
            ("/usr/local/share/wayland-sessions", SessionType::Wayland),
            ("/usr/share/wayland-sessions", SessionType::Wayland),
            ("/usr/local/share/xsessions", SessionType::X11),
            ("/usr/share/xsessions", SessionType::X11),
        ]
    );
}

#[test]
fn session_types_survive_their_names() {
    for t in [SessionType::Wayland, SessionType::X11] {
        let mut s = session("a.desktop", "A", "/a");
        s.session_type = t;
        assert_eq!(SessionType::from_xdg(s.xdg_session_type()), t);
    }
}

#[test]
fn an_escaped_line_comes_back() {
    for line in ["sway", "cmd 100% %f a%%b", "", "%"] {
        assert_eq!(strip_field_codes(&line.replace('%', "%%")), line);
    }
    let stripped = strip_field_codes("  cmd\t50%% %U  x ");
    assert_eq!(stripped, "cmd 50% x");
    assert_eq!(strip_field_codes(&stripped.replace('%', "%%")), stripped);
}
