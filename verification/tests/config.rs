use wdm::config::{
    Config, ConfigError, Greeter, Keyboard, Mode, ModeError, Output, Transform, DEFAULT_VT,
};

/// What a rate reads as in millihertz, if it is a positive number.
fn reading(text: &str) -> Option<u32> {
    let hz: f64 = text.parse().ok()?;
    if !hz.is_finite() || hz <= 0.0 {
        return None;
    }
    Some((hz * 1000.0).round() as u32)
}

fn mode(s: &str) -> Result<Mode, ModeError> {
    let rate = Mode::refresh_text(s);
    Mode::parse(s, rate.and_then(|text| reading(&text)))
}

#[test]
fn parses_modes() {
    assert_eq!(
        mode("2560x1440@144").unwrap(),
        Mode {
            width: 2560,
            height: 1440,
            refresh_mhz: Some(144_000)
        }
    );
    assert_eq!(
        mode("1920x1080").unwrap(),
        Mode {
            width: 1920,
            height: 1080,
            refresh_mhz: None
        }
    );
    assert_eq!(mode("1920x1080@59.94").unwrap().refresh_mhz, Some(59_940));
    assert_eq!(mode("800x600@60Hz").unwrap().refresh_mhz, Some(60_000));
}

#[test]
fn rejects_bad_modes() {
    assert!(mode("1920").is_err());
    assert!(mode("0x1080").is_err());
    assert!(mode("1920x1080@0").is_err());
    assert!(mode("1920x1080@abc").is_err());
    assert!(mode("99999x1080").is_err());
}

#[test]
fn mode_round_trips_through_display() {
    for s in ["2560x1440@144", "1920x1080", "1920x1080@59.94"] {
        let m = mode(s).unwrap();
        assert_eq!(mode(&m.display()).unwrap(), m);
    }
    let shown = mode("1920x1080@59.94").unwrap().display();
    assert_eq!(shown, "1920x1080@59.94");
}

#[test]
fn a_bad_mode_says_what_was_wrong() {
    assert_eq!(
        mode("1920").unwrap_err().message(),
        "expected WIDTHxHEIGHT or WIDTHxHEIGHT@REFRESH, got \"1920\""
    );
    assert_eq!(mode("0x1080").unwrap_err(), ModeError::Zero);
    assert_eq!(
        mode("1920x10\t80").unwrap_err().message(),
        "\"10\\t80\" is not a valid dimension"
    );
    assert_eq!(
        mode("1920x1080@abc").unwrap_err().message(),
        "\"abc\" is not a valid refresh rate"
    );
}

#[test]
fn rates_lose_their_unit() {
    assert_eq!(Mode::refresh_text("1x1@ 60 Hz ").as_deref(), Some("60"));
    assert_eq!(Mode::refresh_text("1x1@60hz").as_deref(), Some("60"));
    assert_eq!(Mode::refresh_text("1x1"), None);
}

fn text(table: &toml::Table, key: &str) -> Option<String> {
    table.get(key).map(|v| v.as_str().unwrap().to_owned())
}

fn output(table: &toml::Table) -> Output {
    Output {
        connector: text(table, "connector").unwrap(),
        mode: text(table, "mode").map(|s| mode(&s).unwrap()),
        scale: table.get("scale").map(|v| v.as_float().unwrap().to_bits()),
        transform: Transform::default(),
        enable: table.get("enable").map_or(true, |v| v.as_bool().unwrap()),
    }
}

/// The configuration that a file of this text holds.
fn config(source: &str) -> Config {
    let table: toml::Table = toml::from_str(source).unwrap();
    let mut c = Config::default();
    if let Some(vt) = table.get("vt") {
        c.vt = vt.as_integer().unwrap() as u32;
    }
    c.default_session = text(&table, "default_session");
    if let Some(greeter) = table.get("greeter").and_then(|v| v.as_table()) {
        c.greeter = Greeter {
            command: text(greeter, "command").unwrap(),
            user: text(greeter, "user").unwrap(),
        };
    }
    if let Some(keyboard) = table.get("keyboard").and_then(|v| v.as_table()) {
        c.keyboard = Keyboard {
            layout: text(keyboard, "layout").unwrap_or_default(),
            ..Keyboard::default()
        };
    }
    if let Some(outputs) = table.get("output").and_then(|v| v.as_array()) {
        c.output = outputs.iter().map(|v| output(v.as_table().unwrap())).collect();
    }
    c
}

fn config_with_outputs(source: &str) -> Config {
    let c = config(source);
    c.validate().unwrap();
    c
}

fn rank(c: &Config, names: &[&str]) -> Vec<String> {
    c.rank_outputs(&names.iter().map(|s| s.to_string()).collect())
}

#[test]
fn array_order_is_rank_order() {
    let c = config_with_outputs(
        r#"
        [[output]]
        connector = "DP-1"
        [[output]]
        connector = "DP-2"
        "#,
    );
    assert_eq!(rank(&c, &["DP-2", "DP-1"]), ["DP-1", "DP-2"]);
}

#[test]
fn unconfigured_outputs_rank_last_by_name() {
    let c = config_with_outputs(
        r#"
        [[output]]
        connector = "DP-2"
        "#,
    );
    assert_eq!(
        rank(&c, &["HDMI-A-1", "eDP-1", "DP-2"]),
        ["DP-2", "HDMI-A-1", "eDP-1"]
    );
}

#[test]
fn disabled_outputs_get_no_rank() {
    let c = config_with_outputs(
        r#"
        [[output]]
        connector = "DP-1"
        [[output]]
        connector = "HDMI-A-1"
        enable = false
        "#,
    );
    assert_eq!(rank(&c, &["DP-1", "HDMI-A-1"]), ["DP-1"]);
}

#[test]
fn unplugging_primary_promotes_the_next() {
    let c = config_with_outputs(
        r#"
        [[output]]
        connector = "DP-1"
        [[output]]
        connector = "DP-2"
        "#,
    );
    assert_eq!(rank(&c, &["DP-2"]), ["DP-2"]);
}

#[test]
fn ranks_are_empty_when_nothing_is_connected() {
    let c = Config::default();
    assert!(rank(&c, &[]).is_empty());
}

#[test]
fn full_example_parses() {
    let c = config_with_outputs(
        r#"
        vt = 7
        default_session = "hyprland.desktop"

        [greeter]
        command = "/usr/lib/wdm/wdm-greeter"
        user = "wdm"

        [keyboard]
        layout = "us"

        [[output]]
        connector = "DP-1"
        mode = "2560x1440@144"
        scale = 1.5

        [[output]]
        connector = "HDMI-A-1"
        enable = false
        "#,
    );
    assert_eq!(c.vt, 7);
    assert_eq!(c.default_session.as_deref(), Some("hyprland.desktop"));
    assert_eq!(c.output_for("DP-1").unwrap().scale.map(f64::from_bits), Some(1.5));
    assert!(!c.output_for("HDMI-A-1").unwrap().enable);
}

#[test]
fn defaults_are_usable() {
    let c = Config::default();
    c.validate().unwrap();
    assert_eq!(c.vt, DEFAULT_VT);
}

#[test]
fn rejects_root_greeter() {
    let c = config(
        r#"
        [greeter]
        command = "/bin/true"
        user = "root"
        "#,
    );
    assert!(c.validate().is_err());
}

#[test]
fn rejects_duplicate_connector() {
    let c = config(
        r#"
        [[output]]
        connector = "DP-1"
        [[output]]
        connector = "DP-1"
        "#,
    );
    assert_eq!(
        c.validate(),
        Err("output DP-1 is configured more than once".to_owned())
    );
}

#[test]
fn every_fault_is_found() {
    let mut c = Config::default();
    c.vt = 0;
    assert_eq!(c.validate(), Err("vt must be at least 1".to_owned()));

    let mut c = Config::default();
    c.greeter.command = " ".to_owned();
    assert_eq!(c.validate(), Err("greeter.command must not be empty".to_owned()));

    let mut c = Config::default();
    c.greeter.user = "root".to_owned();
    assert_eq!(c.validate(), Err("greeter.user must not be root".to_owned()));

    let mut c = Config::default();
    c.greeter.user = "\t".to_owned();
    assert_eq!(c.validate(), Err("greeter.user must not be empty".to_owned()));

    let c = config("[[output]]\nconnector = \"\"\n");
    assert_eq!(c.validate(), Err("output.connector must not be empty".to_owned()));

    for scale in ["0.0", "-1.0", "nan", "inf", "-0.0"] {
        let c = config(&format!("[[output]]\nconnector = \"A\"\nscale = {scale}\n"));
        assert_eq!(
            c.validate(),
            Err("output A: scale must be a positive number".to_owned()),
            "{scale}"
        );
    }
}

#[test]
fn a_missing_file_means_the_defaults() {
    let missing = || {
        Err(ConfigError::Read {
            path: "/x".to_owned(),
            cause: "No such file".to_owned(),
            missing: true,
        })
    };
    let c = Config::load_or_default("/x", missing()).unwrap();
    assert_eq!(c.vt, DEFAULT_VT);
    let e = Config::load("/x", missing()).unwrap_err();
    assert_eq!(e.message(), "reading /x: No such file");
}

#[test]
fn any_other_trouble_is_an_error() {
    let e = Config::load_or_default(
        "/x",
        Err(ConfigError::Read {
            path: "/x".to_owned(),
            cause: "denied".to_owned(),
            missing: false,
        }),
    )
    .unwrap_err();
    assert_eq!(e.message(), "reading /x: denied");

    let e = Config::load_or_default(
        "/x",
        Err(ConfigError::Parse {
            path: "/x".to_owned(),
            cause: "bad".to_owned(),
        }),
    )
    .unwrap_err();
    assert_eq!(e.message(), "parsing /x: bad");

    let mut c = Config::default();
    c.vt = 0;
    let e = Config::load("/x", Ok(c)).unwrap_err();
    assert_eq!(e.message(), "/x: vt must be at least 1");
}

#[test]
fn ranks_do_not_follow_the_order_of_the_probe() {
    let c = config("[[output]]\nconnector = \"B\"\n");
    assert_eq!(rank(&c, &["C", "A", "B"]), rank(&c, &["B", "A", "C"]));
}

#[test]
fn leaving_a_connector_out_only_deletes_it() {
    let mut config = Config::default();
    for connector in ["DP-3", "DP-1"] {
        config.output.push(Output {
            connector: connector.to_owned(),
            mode: None,
            scale: None,
            transform: Transform::Normal,
            enable: true,
        });
    }
    let all = rank(&config, &["eDP-1", "DP-1", "DP-2", "DP-3"]);
    assert_eq!(all, ["DP-3", "DP-1", "DP-2", "eDP-1"]);
    for left_out in &all {
        let rest: Vec<&str> = all.iter().filter(|c| *c != left_out).map(String::as_str).collect();
        assert_eq!(rank(&config, &rest), rest);
    }
    // A copy ranks alike.
    assert_eq!(rank(&config.clone(), &["DP-2", "DP-3"]), ["DP-3", "DP-2"]);
}
