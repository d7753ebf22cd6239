use wdm::args::{parse_args_from, Args, Backend, Parsed, USAGE};
use wdm::config::DEFAULT_PATH;

fn strings(args: &[&str]) -> Vec<String> {
    args.iter().map(|s| s.to_string()).collect()
}

fn parse(args: &[&str], is_root: bool) -> Result<Args, String> {
    match parse_args_from(&strings(args), is_root)? {
        Parsed::Run(args) => Ok(args),
        other => panic!("expected a run, got {other:?}"),
    }
}

fn parse_raw(args: &[&str]) -> Result<Parsed, String> {
    parse_args_from(&strings(args), false)
}

#[test]
fn help_and_version_are_returned_not_executed() {
    assert_eq!(parse_raw(&["-h"]).unwrap(), Parsed::Help);
    assert_eq!(parse_raw(&["--help"]).unwrap(), Parsed::Help);
    assert_eq!(parse_raw(&["-V"]).unwrap(), Parsed::Version);
    assert_eq!(parse_raw(&["--version"]).unwrap(), Parsed::Version);
}

#[test]
fn usage_mentions_everything_the_parser_accepts() {
    for token in [
        "--config",
        "--backend",
        "udev",
        "drm",
        "winit",
        "nested",
        "-h",
        "--help",
        "-V",
        "--version",
    ] {
        assert!(USAGE.contains(token), "USAGE does not mention {token}");
    }
}

#[test]
fn backend_names_and_aliases_parse() {
    for (name, expected) in [
        ("udev", Backend::Udev),
        ("drm", Backend::Udev),
        ("winit", Backend::Winit),
        ("nested", Backend::Winit),
    ] {
        let args = parse(&["--backend", name], false).unwrap();
        assert_eq!(args.backend, expected, "--backend {name}");
    }
}

#[test]
fn unknown_backend_is_an_error() {
    assert!(parse(&["--backend", "x11"], false).is_err());
}

#[test]
fn config_without_a_path_is_an_error() {
    assert!(parse_raw(&["--config"]).is_err());
}

#[test]
fn backend_without_a_name_is_an_error() {
    assert!(parse_raw(&["--backend"]).is_err());
}

#[test]
fn config_path_is_taken_verbatim() {
    let args = parse(&["--config", "/tmp/wdm.toml"], false).unwrap();
    assert_eq!(args.config, "/tmp/wdm.toml");
}

#[test]
fn config_defaults_when_not_given() {
    let args = parse(&[], false).unwrap();
    assert_eq!(args.config, DEFAULT_PATH);
}

#[test]
fn positional_arguments_are_an_error() {
    assert!(parse(&["frobnicate"], false).is_err());
}

#[test]
fn backend_defaults_on_privilege() {
    assert_eq!(parse(&[], true).unwrap().backend, Backend::Udev);
    assert_eq!(parse(&[], false).unwrap().backend, Backend::Winit);
    assert_eq!(
        parse(&["--backend", "winit"], true).unwrap().backend,
        Backend::Winit
    );
    assert_eq!(
        parse(&["--backend", "udev"], false).unwrap().backend,
        Backend::Udev
    );
}

#[test]
fn refusals_say_what_was_wrong() {
    assert_eq!(parse_raw(&["--config"]), Err("--config needs a path".to_owned()));
    assert_eq!(parse_raw(&["--backend"]), Err("--backend needs a name".to_owned()));
    assert_eq!(
        parse_raw(&["--backend", "x\n1"]),
        Err("unknown backend \"x\\n1\"".to_owned())
    );
    assert_eq!(
        parse_raw(&["frob\"nicate"]),
        Err("unexpected argument \"frob\\\"nicate\"".to_owned())
    );
}

#[test]
fn the_last_of_two_choices_counts() {
    let args = parse(
        &["--backend", "udev", "--config", "a", "--backend", "winit", "--config", "b"],
        true,
    )
    .unwrap();
    assert_eq!(args.backend, Backend::Winit);
    assert_eq!(args.config, "b");
}

#[test]
fn what_follows_help_is_not_looked_at() {
    assert_eq!(parse_raw(&["--config", "a", "-h", "frobnicate"]), Ok(Parsed::Help));
}
