//! The command line.
use vstd::prelude::*;

use crate::config::{quoted, show_quoted, DEFAULT_PATH};
use crate::text::{maybe, push_str, same, strings};

verus! {

/// Which backend to run.
#[derive(Debug, Clone, Copy, PartialEq, Eq, Structural)]
pub enum Backend {
    /// Real hardware: DRM/KMS, libinput, libseat.
    Udev,
    /// Nested inside an existing Wayland session, as a window.
    Winit,
}

/// What to run with.
#[derive(Debug, PartialEq, Eq)]
pub struct Args {
    /// The path of the configuration file.
    pub config: String,
    pub backend: Backend,
}

/// The text that says how to call the program.
pub const USAGE: &'static str = "\
wdm — Wayland-native display manager

USAGE:
    wdm [OPTIONS]

OPTIONS:
    --config <PATH>     Configuration file [default: /etc/wdm/wdm.toml]
    --backend <NAME>    udev (real hardware) or winit (nested, for development);
                        drm and nested are accepted as aliases
                        [default: udev when running as root, otherwise winit]
    -h, --help          Print this help
    -V, --version       Print version
";

/// What the command line asks for.
///
/// Help and version are returned rather than printed, so that what the parser does
/// can be stated and tested.
#[derive(Debug, PartialEq, Eq)]
pub enum Parsed {
    Run(Args),
    Help,
    Version,
}

/// What a [`Parsed`] says, with the path as a character sequence.
#[verifier::ext_equal]
pub enum ParsedView {
    Run { config: Seq<char>, backend: Backend },
    Help,
    Version,
}

impl View for Parsed {
    type V = ParsedView;

    open spec fn view(&self) -> ParsedView {
        match self {
            Parsed::Run(args) => ParsedView::Run { config: args.config@, backend: args.backend },
            Parsed::Help => ParsedView::Help,
            Parsed::Version => ParsedView::Version,
        }
    }
}

/// The backend of a name.
pub open spec fn named(name: Seq<char>) -> Option<Backend> {
    if name == "udev"@ || name == "drm"@ {
        Some(Backend::Udev)
    } else if name == "winit"@ || name == "nested"@ {
        Some(Backend::Winit)
    } else {
        None
    }
}

/// The backend that is run where none is named.
///
/// Privilege decides, not the environment: root inside a session should still drive
/// real hardware, and nobody else can.
pub open spec fn usual(is_root: bool) -> Backend {
    if is_root {
        Backend::Udev
    } else {
        Backend::Winit
    }
}

/// What the arguments ask for, given what those before them said.
pub open spec fn asked(
    args: Seq<Seq<char>>,
    config: Option<Seq<char>>,
    backend: Option<Backend>,
    is_root: bool,
) -> Result<ParsedView, Seq<char>>
    decreases args.len(),
{
    if args.len() == 0 {
        Ok(
            ParsedView::Run {
                config: match config {
                    Some(path) => path,
                    None => DEFAULT_PATH@,
                },
                backend: match backend {
                    Some(backend) => backend,
                    None => usual(is_root),
                },
            },
        )
    } else if args[0] == "-h"@ || args[0] == "--help"@ {
        Ok(ParsedView::Help)
    } else if args[0] == "-V"@ || args[0] == "--version"@ {
        Ok(ParsedView::Version)
    } else if args[0] == "--config"@ {
        if args.len() == 1 {
            Err("--config needs a path"@)
        } else {
            asked(args.skip(2), Some(args[1]), backend, is_root)
        }
    } else if args[0] == "--backend"@ {
        if args.len() == 1 {
            Err("--backend needs a name"@)
        } else if named(args[1]) is None {
            Err("unknown backend "@ + quoted(args[1]))
        } else {
            asked(args.skip(2), config, named(args[1]), is_root)
        }
    } else {
        Err("unexpected argument "@ + quoted(args[0]))
    }
}

fn backend_of(name: &str) -> (r: Option<Backend>)
    ensures
        r == named(name@),
{
    if same(name, "udev") || same(name, "drm") {
        Some(Backend::Udev)
    } else if same(name, "winit") || same(name, "nested") {
        Some(Backend::Winit)
    } else {
        None
    }
}

/// Parse the arguments, without the program's own name.
pub fn parse_args_from(args: &Vec<String>, is_root: bool) -> (r: Result<Parsed, String>)
    ensures
        match (r, asked(strings(args@), None, None, is_root)) {
            (Ok(parsed), Ok(wanted)) => parsed@ == wanted,
            (Err(e), Err(reason)) => e@ == reason,
            _ => false,
        },
{
    let ghost all = strings(args@);
    let mut config: Option<String> = None;
    let mut backend: Option<Backend> = None;
    let mut i: usize = 0;
    assert(all.skip(0) =~= all);
    while i < args.len()
        invariant
            i <= args@.len(),
            all == strings(args@),
            asked(all, None, None, is_root) == asked(
                all.skip(i as int),
                maybe(config),
                backend,
                is_root,
            ),
        decreases args.len() - i,
    {
        let arg = &args[i];
        let ghost rest = all.skip(i as int);
        proof {
            assert(rest[0] == arg@);
            if i + 1 < args@.len() {
                assert(rest[1] == args@[i + 1]@);
                assert(rest.skip(2) =~= all.skip(i + 2));
            }
        }
        if same(arg, "-h") || same(arg, "--help") {
            return Ok(Parsed::Help);
        } else if same(arg, "-V") || same(arg, "--version") {
            return Ok(Parsed::Version);
        } else if same(arg, "--config") {
            if i + 1 >= args.len() {
                return Err("--config needs a path".to_owned());
            }
            config = Some(args[i + 1].clone());
        } else if same(arg, "--backend") {
            if i + 1 >= args.len() {
                return Err("--backend needs a name".to_owned());
            }
            let found = backend_of(&args[i + 1]);
            if found.is_none() {
                let mut e = "unknown backend ".to_owned();
                push_str(&mut e, &show_quoted(&args[i + 1]));
                return Err(e);
            }
            backend = found;
        } else {
            let mut e = "unexpected argument ".to_owned();
            push_str(&mut e, &show_quoted(arg));
            return Err(e);
        }
        i = i + 2;
    }
    assert(all.skip(i as int).len() == 0);
    let config = match config {
        Some(path) => path,
        None => DEFAULT_PATH.to_owned(),
    };
    let backend = match backend {
        Some(backend) => backend,
        None => if is_root {
            Backend::Udev
        } else {
            Backend::Winit
        },
    };
    Ok(Parsed::Run(Args { config, backend }))
}

/// Privilege decides nothing but the backend that is run where none is named: what
/// is refused, what is printed and where the configuration is are the same for
/// everybody, and a backend that is named wins over the usual one both ways.
pub proof fn law_privilege_only_decides_the_usual_backend(
    args: Seq<Seq<char>>,
    config: Option<Seq<char>>,
    backend: Option<Backend>,
)
    ensures
        match (asked(args, config, backend, true), asked(args, config, backend, false)) {
            (
                Ok(ParsedView::Run { config: a, backend: x }),
                Ok(ParsedView::Run { config: b, backend: y }),
            ) => a == b && (x == y || (x == Backend::Udev && y == Backend::Winit)),
            (a, b) => a == b,
        },
        backend is Some ==> asked(args, config, backend, true) == asked(
            args,
            config,
            backend,
            false,
        ),
    decreases args.len(),
{
    if args.len() >= 2 {
        if args[0] == "--config"@ {
            law_privilege_only_decides_the_usual_backend(args.skip(2), Some(args[1]), backend);
        }
        law_privilege_only_decides_the_usual_backend(args.skip(2), config, named(args[1]));
    }
}

/// Each backend has two names, and nothing else names one.
pub proof fn law_how_backends_are_named(name: Seq<char>)
    ensures
        named(name) == Some(Backend::Udev) <==> name == "udev"@ || name == "drm"@,
        named(name) == Some(Backend::Winit) <==> name == "winit"@ || name == "nested"@,
{
    reveal_strlit("udev");
    reveal_strlit("drm");
    reveal_strlit("winit");
    reveal_strlit("nested");
    assert("udev"@[0] == 'u' && "drm"@[0] == 'd' && "winit"@[0] == 'w' && "nested"@[0] == 'n');
}

/// The options are told apart.
proof fn lemma_options()
    ensures
        "--config"@ != "-h"@,
        "--config"@ != "--help"@,
        "--config"@ != "-V"@,
        "--config"@ != "--version"@,
        "--backend"@ != "-h"@,
        "--backend"@ != "--help"@,
        "--backend"@ != "-V"@,
        "--backend"@ != "--version"@,
        "--config"@ != "--backend"@,
        "-V"@ != "-h"@,
        "-V"@ != "--help"@,
        "--version"@ != "-h"@,
        "--version"@ != "--help"@,
{
    reveal_strlit("--config");
    reveal_strlit("--backend");
    reveal_strlit("-h");
    reveal_strlit("--help");
    reveal_strlit("-V");
    reveal_strlit("--version");
    assert("--config"@.len() == 8 && "--backend"@.len() == 9 && "-h"@.len() == 2 && "--help"@.len()
        == 6 && "-V"@.len() == 2 && "--version"@.len() == 9);
    assert("-h"@[1] == 'h' && "-V"@[1] == 'V');
    assert("--backend"@[2] == 'b' && "--version"@[2] == 'v');
}

/// Without arguments wdm runs on its usual configuration, on hardware for root and in
/// a window for everybody else.
pub proof fn law_the_usual_run(is_root: bool)
    ensures
        asked(seq![], None, None, true) == Ok::<ParsedView, Seq<char>>(
            ParsedView::Run { config: "/etc/wdm/wdm.toml"@, backend: Backend::Udev },
        ),
        asked(seq![], None, None, false) == Ok::<ParsedView, Seq<char>>(
            ParsedView::Run { config: "/etc/wdm/wdm.toml"@, backend: Backend::Winit },
        ),
{
}

/// What is named on the command line is run, in whichever order it is named.
pub proof fn law_what_is_named_is_run(
    path: Seq<char>,
    name: Seq<char>,
    backend: Backend,
    is_root: bool,
)
    requires
        named(name) == Some(backend),
    ensures
        asked(seq!["--config"@, path, "--backend"@, name], None, None, is_root) == Ok::<
            ParsedView,
            Seq<char>,
        >(ParsedView::Run { config: path, backend }),
        asked(seq!["--backend"@, name, "--config"@, path], None, None, is_root) == Ok::<
            ParsedView,
            Seq<char>,
        >(ParsedView::Run { config: path, backend }),
{
    lemma_options();
    let (a, b) = (seq!["--config"@, path], seq!["--backend"@, name]);
    assert(seq!["--config"@, path, "--backend"@, name].skip(2) =~= b);
    assert(seq!["--backend"@, name, "--config"@, path].skip(2) =~= a);
    assert(a.skip(2) =~= seq![]);
    assert(b.skip(2) =~= seq![]);
    assert(asked(b, Some(path), None, is_root) == asked(seq![], Some(path), Some(backend), is_root));
    assert(asked(a, None, Some(backend), is_root) == asked(
        seq![],
        Some(path),
        Some(backend),
        is_root,
    ));
}

/// Of an option that is given twice, the second counts.
pub proof fn law_the_last_option_counts(
    first: Seq<char>,
    second: Seq<char>,
    rest: Seq<Seq<char>>,
    config: Option<Seq<char>>,
    backend: Option<Backend>,
    is_root: bool,
)
    ensures
        asked(seq!["--config"@, first, "--config"@, second] + rest, config, backend, is_root)
            == asked(seq!["--config"@, second] + rest, config, backend, is_root),
        named(first) is Some ==> asked(
            seq!["--backend"@, first, "--backend"@, second] + rest,
            config,
            backend,
            is_root,
        ) == asked(seq!["--backend"@, second] + rest, config, backend, is_root),
{
    lemma_options();
    let c = seq!["--config"@, second] + rest;
    let b = seq!["--backend"@, second] + rest;
    let cc = seq!["--config"@, first, "--config"@, second] + rest;
    let bb = seq!["--backend"@, first, "--backend"@, second] + rest;
    assert(cc.skip(2) =~= c);
    assert(bb.skip(2) =~= b);
    assert(cc[0] == "--config"@ && c[0] == "--config"@ && c[1] == second && cc[1] == first);
    assert(bb[0] == "--backend"@ && b[0] == "--backend"@ && b[1] == second && bb[1] == first);
    assert(c.skip(2) =~= rest && b.skip(2) =~= rest);
    assert(asked(c, Some(first), backend, is_root) == asked(rest, Some(second), backend, is_root));
    assert(asked(c, config, backend, is_root) == asked(rest, Some(second), backend, is_root));
    assert(asked(b, config, named(first), is_root) == asked(b, config, backend, is_root));
}

/// Help and the version are answered whatever follows, and an option that lacks its
/// value, a backend that is none and a word that is no option are refused by name.
pub proof fn law_what_is_answered_and_refused(
    word: Seq<char>,
    rest: Seq<Seq<char>>,
    config: Option<Seq<char>>,
    backend: Option<Backend>,
    is_root: bool,
)
    ensures
        asked(seq!["-h"@] + rest, config, backend, is_root) == Ok::<ParsedView, Seq<char>>(
            ParsedView::Help,
        ),
        asked(seq!["--help"@] + rest, config, backend, is_root) == Ok::<ParsedView, Seq<char>>(
            ParsedView::Help,
        ),
        asked(seq!["-V"@] + rest, config, backend, is_root) == Ok::<ParsedView, Seq<char>>(
            ParsedView::Version,
        ),
        asked(seq!["--version"@] + rest, config, backend, is_root) == Ok::<ParsedView, Seq<char>>(
            ParsedView::Version,
        ),
        asked(seq!["--config"@], config, backend, is_root) == Err::<ParsedView, Seq<char>>(
            "--config needs a path"@,
        ),
        asked(seq!["--backend"@], config, backend, is_root) == Err::<ParsedView, Seq<char>>(
            "--backend needs a name"@,
        ),
        named(word) is None ==> asked(
            seq!["--backend"@, word] + rest,
            config,
            backend,
            is_root,
        ) == Err::<ParsedView, Seq<char>>("unknown backend "@ + quoted(word)),
        word != "-h"@ && word != "--help"@ && word != "-V"@ && word != "--version"@ && word
            != "--config"@ && word != "--backend"@ ==> asked(
            seq![word] + rest,
            config,
            backend,
            is_root,
        ) == Err::<ParsedView, Seq<char>>("unexpected argument "@ + quoted(word)),
{
    lemma_options();
    assert((seq!["-h"@] + rest)[0] == "-h"@);
    assert((seq!["--help"@] + rest)[0] == "--help"@);
    assert((seq!["-V"@] + rest)[0] == "-V"@);
    assert((seq!["--version"@] + rest)[0] == "--version"@);
    assert((seq!["--backend"@, word] + rest)[0] == "--backend"@);
    assert((seq!["--backend"@, word] + rest)[1] == word);
    assert((seq![word] + rest)[0] == word);
}

} // verus!
