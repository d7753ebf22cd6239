//! The configuration: its defaults, its validation, and what it says of outputs.
use vstd::prelude::*;
use vstd::relations::{sorted_by, total_ordering};

use crate::sessions::ends_with;
use crate::text::{
    all_digits, before, decimal, digit, digits_value, find, from_chars, is_before,
    lemma_before_total, lemma_before_transitive, lemma_find, lemma_find_is, lemma_spelled, number,
    parse_unsigned, position, push_str, same, slice, strings, to_chars, trim, trimmed, unsigned,
};

verus! {

/// Where wdm looks for its configuration when none is given.
pub const DEFAULT_PATH: &'static str = "/etc/wdm/wdm.toml";

/// A VT that is free by default, which leaves tty1 a working text console: the way
/// back in when a greeter wedges.
pub const DEFAULT_VT: u32 = 7;

/// Failure to load a configuration file.
#[derive(Debug)]
pub enum ConfigError {
    /// The file could not be read; `missing` where there is none.
    Read { path: String, cause: String, missing: bool },
    Parse { path: String, cause: String },
    Invalid { path: String, message: String },
}

/// What a [`ConfigError`] says, with strings as character sequences.
#[verifier::ext_equal]
pub enum ConfigErrorView {
    Read { path: Seq<char>, cause: Seq<char>, missing: bool },
    Parse { path: Seq<char>, cause: Seq<char> },
    Invalid { path: Seq<char>, message: Seq<char> },
}

impl View for ConfigError {
    type V = ConfigErrorView;

    open spec fn view(&self) -> ConfigErrorView {
        match self {
            ConfigError::Read { path, cause, missing } => ConfigErrorView::Read {
                path: path@,
                cause: cause@,
                missing: *missing,
            },
            ConfigError::Parse { path, cause } => ConfigErrorView::Parse {
                path: path@,
                cause: cause@,
            },
            ConfigError::Invalid { path, message } => ConfigErrorView::Invalid {
                path: path@,
                message: message@,
            },
        }
    }
}

/// The sentence an error is shown as.
pub open spec fn config_complaint(e: ConfigErrorView) -> Seq<char> {
    match e {
        ConfigErrorView::Read { path, cause, missing: _ } => "reading "@ + path + ": "@ + cause,
        ConfigErrorView::Parse { path, cause } => "parsing "@ + path + ": "@ + cause,
        ConfigErrorView::Invalid { path, message } => path + ": "@ + message,
    }
}

impl ConfigError {
    /// The sentence this error is shown as.
    pub fn message(&self) -> (r: String)
        ensures
            r@ == config_complaint(self@),
    {
        match self {
            ConfigError::Read { path, cause, missing: _ } => {
                let mut s = "reading ".to_owned();
                push_str(&mut s, path);
                push_str(&mut s, ": ");
                push_str(&mut s, cause);
                s
            },
            ConfigError::Parse { path, cause } => {
                let mut s = "parsing ".to_owned();
                push_str(&mut s, path);
                push_str(&mut s, ": ");
                push_str(&mut s, cause);
                s
            },
            ConfigError::Invalid { path, message } => {
                let mut s = path.clone();
                push_str(&mut s, ": ");
                push_str(&mut s, message);
                s
            },
        }
    }
}

/// A display mode, written `WIDTHxHEIGHT` or `WIDTHxHEIGHT@REFRESH`.
#[derive(Debug, Clone, Copy, PartialEq, Eq, Structural)]
pub struct Mode {
    pub width: u16,
    pub height: u16,
    /// Refresh rate in millihertz, or `None` to accept any rate at this size.
    ///
    /// Millihertz because real modes are not integral: 59.94 Hz is not 60.
    pub refresh_mhz: Option<u32>,
}

/// Why a mode could not be read.
#[derive(Debug, Clone, PartialEq, Eq)]
pub enum ModeError {
    Shape(String),
    Dimension(String),
    Refresh(String),
    Zero,
}

/// What a [`ModeError`] says, with strings as character sequences.
#[verifier::ext_equal]
pub enum ModeErrorView {
    Shape(Seq<char>),
    Dimension(Seq<char>),
    Refresh(Seq<char>),
    Zero,
}

impl View for ModeError {
    type V = ModeErrorView;

    open spec fn view(&self) -> ModeErrorView {
        match self {
            ModeError::Shape(text) => ModeErrorView::Shape(text@),
            ModeError::Dimension(text) => ModeErrorView::Dimension(text@),
            ModeError::Refresh(text) => ModeErrorView::Refresh(text@),
            ModeError::Zero => ModeErrorView::Zero,
        }
    }
}

/// A text between quotation marks, with what cannot be shown escaped.
pub uninterp spec fn quoted(s: Seq<char>) -> Seq<char>;

/// Wraps the `Debug` rendering of `str`.
///
/// Claims only that the text depends on nothing but the string.
#[verifier::external_body]
pub(crate) fn show_quoted(s: &str) -> (r: String)
    ensures
        r@ == quoted(s@),
{
    format!("{:?}", s)
}

/// The sentence a mode's error is shown as, given how texts are quoted.
pub open spec fn mode_complaint(e: ModeErrorView) -> Seq<char> {
    match e {
        ModeErrorView::Shape(text) => "expected WIDTHxHEIGHT or WIDTHxHEIGHT@REFRESH, got "@
            + quoted(text),
        ModeErrorView::Dimension(text) => quoted(text) + " is not a valid dimension"@,
        ModeErrorView::Refresh(text) => quoted(text) + " is not a valid refresh rate"@,
        ModeErrorView::Zero => "dimensions must be non-zero"@,
    }
}

impl ModeError {
    /// The sentence this error is shown as.
    pub fn message(&self) -> (r: String)
        ensures
            r@ == mode_complaint(self@),
    {
        match self {
            ModeError::Shape(text) => {
                let mut s = "expected WIDTHxHEIGHT or WIDTHxHEIGHT@REFRESH, got ".to_owned();
                push_str(&mut s, &show_quoted(text));
                s
            },
            ModeError::Dimension(text) => {
                let mut s = show_quoted(text);
                push_str(&mut s, " is not a valid dimension");
                s
            },
            ModeError::Refresh(text) => {
                let mut s = show_quoted(text);
                push_str(&mut s, " is not a valid refresh rate");
                s
            },
            ModeError::Zero => "dimensions must be non-zero".to_owned(),
        }
    }
}

/// The part of a mode before the rate.
pub open spec fn size_part(s: Seq<char>) -> Seq<char> {
    s.take(find(s, '@'))
}

/// The part of a mode after the `@`, if there is one.
pub open spec fn rate_part(s: Seq<char>) -> Option<Seq<char>> {
    if find(s, '@') < s.len() {
        Some(s.skip(find(s, '@') + 1))
    } else {
        None
    }
}

/// Where a size is parted: at the first `x` or `X`, if there is one.
pub open spec fn cross(size: Seq<char>) -> int {
    let small = find(size, 'x');
    let big = find(size, 'X');
    if small < big {
        small
    } else {
        big
    }
}

/// `s` without any number of some suffix.
pub open spec fn without_suffixes(s: Seq<char>, suffix: Seq<char>) -> Seq<char>
    decreases s.len(),
{
    if suffix.len() > 0 && ends_with(s, suffix) {
        without_suffixes(s.take(s.len() - suffix.len()), suffix)
    } else {
        s
    }
}

/// The number in the rate of a mode, as text.
pub open spec fn rate_text(rate: Seq<char>) -> Seq<char> {
    trimmed(without_suffixes(without_suffixes(trimmed(rate), "Hz"@), "hz"@))
}

/// The mode a text stands for, given what its rate reads as in millihertz, or that
/// it reads as no positive number.
pub open spec fn mode_in(s: Seq<char>, reading: Option<u32>) -> Result<Mode, ModeErrorView> {
    let size = size_part(s);
    let at = cross(size);
    if at >= size.len() {
        Err(ModeErrorView::Shape(s))
    } else {
        let w = size.take(at);
        let h = size.skip(at + 1);
        match (unsigned(trimmed(w), 65535), unsigned(trimmed(h), 65535)) {
            (None, _) => Err(ModeErrorView::Dimension(w)),
            (_, None) => Err(ModeErrorView::Dimension(h)),
            (Some(width), Some(height)) => if width == 0 || height == 0 {
                Err(ModeErrorView::Zero)
            } else {
                match rate_part(s) {
                    None => Ok(
                        Mode { width: width as u16, height: height as u16, refresh_mhz: None },
                    ),
                    Some(rate) => match reading {
                        Some(mhz) => Ok(
                            Mode {
                                width: width as u16,
                                height: height as u16,
                                refresh_mhz: Some(mhz),
                            },
                        ),
                        None => Err(ModeErrorView::Refresh(rate)),
                    },
                }
            },
        }
    }
}

/// `v` without any number of some suffix.
fn drop_suffixes(v: Vec<char>, suffix: &str) -> (r: Vec<char>)
    requires
        suffix@.len() > 0,
    ensures
        r@ == without_suffixes(v@, suffix@),
{
    let mut v = v;
    let n: usize = to_chars(suffix).len();
    let ghost whole = v@;
    loop
        invariant
            n == suffix@.len(),
            n > 0,
            without_suffixes(whole, suffix@) == without_suffixes(v@, suffix@),
        ensures
            v@ == without_suffixes(whole, suffix@),
        decreases v@.len(),
    {
        if v.len() < n {
            break;
        }
        let tail = slice(&v, v.len() - n, v.len());
        assert(tail@ =~= v@.skip(v@.len() - n));
        if !same(&from_chars(&tail), suffix) {
            break;
        }
        let head = slice(&v, 0, v.len() - n);
        assert(head@ =~= v@.take(v@.len() - n));
        v = head;
    }
    v
}

impl Mode {
    /// The number in a mode's rate, as text, if it has a rate.
    pub fn refresh_text(s: &str) -> (r: Option<String>)
        ensures
            match (r, rate_part(s@)) {
                (Some(text), Some(rate)) => text@ == rate_text(rate),
                (None, None) => true,
                _ => false,
            },
    {
        let chars = to_chars(s);
        let at = position(&chars, '@');
        proof {
            lemma_find(chars@, '@');
            reveal_strlit("Hz");
            reveal_strlit("hz");
        }
        if at >= chars.len() {
            return None;
        }
        let rate = slice(&chars, at + 1, chars.len());
        assert(rate@ =~= s@.skip(at + 1));
        let body = drop_suffixes(drop_suffixes(trim(&rate), "Hz"), "hz");
        Some(from_chars(&trim(&body)))
    }

    /// Read a mode.
    ///
    /// `reading` is what [`Mode::refresh_text`] reads as, in millihertz, where it
    /// reads as a positive finite number; it counts only where there is a rate.
    pub fn parse(s: &str, reading: Option<u32>) -> (r: Result<Mode, ModeError>)
        ensures
            match (r, mode_in(s@, reading)) {
                (Ok(mode), Ok(wanted)) => mode == wanted,
                (Err(e), Err(why)) => e@ == why,
                _ => false,
            },
    {
        let chars = to_chars(s);
        let at = position(&chars, '@');
        proof {
            lemma_find(chars@, '@');
        }
        let size = slice(&chars, 0, at);
        assert(size@ =~= size_part(s@));
        let small = position(&size, 'x');
        let big = position(&size, 'X');
        proof {
            lemma_find(size@, 'x');
            lemma_find(size@, 'X');
        }
        let cut: usize = if small < big {
            small
        } else {
            big
        };
        if cut >= size.len() {
            return Err(ModeError::Shape(s.to_owned()));
        }
        let w = slice(&size, 0, cut);
        let h = slice(&size, cut + 1, size.len());
        assert(w@ =~= size@.take(cut as int));
        assert(h@ =~= size@.skip(cut + 1));
        let width = match parse_unsigned(&trim(&w), 65535) {
            Some(n) => n,
            None => return Err(ModeError::Dimension(from_chars(&w))),
        };
        let height = match parse_unsigned(&trim(&h), 65535) {
            Some(n) => n,
            None => return Err(ModeError::Dimension(from_chars(&h))),
        };
        if width == 0 || height == 0 {
            return Err(ModeError::Zero);
        }
        if at >= chars.len() {
            return Ok(Mode { width: width as u16, height: height as u16, refresh_mhz: None });
        }
        match reading {
            Some(mhz) => Ok(
                Mode { width: width as u16, height: height as u16, refresh_mhz: Some(mhz) },
            ),
            None => {
                let rate = slice(&chars, at + 1, chars.len());
                assert(rate@ =~= s@.skip(at + 1));
                Err(ModeError::Refresh(from_chars(&rate)))
            },
        }
    }
}

/// A rate in hertz, in decimal and without needless zeros.
pub open spec fn rate_shown(mhz: u32) -> Seq<char> {
    let whole = decimal((mhz / 1000) as nat);
    let rest = (mhz % 1000) as int;
    let first = digit(rest / 100);
    let second = digit(rest / 10 % 10);
    let third = digit(rest % 10);
    if rest == 0 {
        whole
    } else if rest % 100 == 0 {
        whole + seq!['.', first]
    } else if rest % 10 == 0 {
        whole + seq!['.', first, second]
    } else {
        whole + seq!['.', first, second, third]
    }
}

/// A mode as it is written.
pub open spec fn mode_shown(m: Mode) -> Seq<char> {
    let size = decimal(m.width as nat).push('x') + decimal(m.height as nat);
    match m.refresh_mhz {
        None => size,
        Some(mhz) => size.push('@') + rate_shown(mhz),
    }
}

/// The character of a digit.
fn digit_char(d: u32) -> (c: char)
    requires
        d < 10,
    ensures
        c == digit(d as int),
{
    (48u8 + d as u8) as char
}

impl Mode {
    /// The mode as it is written.
    pub fn display(&self) -> (r: String)
        ensures
            r@ == mode_shown(*self),
    {
        let mut s = number(self.width as u64);
        s.push('x');
        push_str(&mut s, &number(self.height as u64));
        match self.refresh_mhz {
            None => {},
            Some(mhz) => {
                s.push('@');
                let ghost before = s@;
                push_str(&mut s, &number((mhz / 1000) as u64));
                let rest: u32 = mhz % 1000;
                if rest != 0 {
                    s.push('.');
                    s.push(digit_char(rest / 100));
                    if rest % 100 != 0 {
                        s.push(digit_char(rest / 10 % 10));
                        if rest % 10 != 0 {
                            s.push(digit_char(rest % 10));
                        }
                    }
                }
                assert(s@ =~= before + rate_shown(mhz));
            },
        }
        assert(s@ =~= mode_shown(*self));
        s
    }
}

/// A mode that is written out reads as itself, and its rate is written so that it
/// is found again.
pub proof fn law_modes_round_trip(m: Mode)
    requires
        m.width > 0,
        m.height > 0,
    ensures
        mode_in(mode_shown(m), m.refresh_mhz) == Ok::<Mode, ModeErrorView>(m),
        m.refresh_mhz matches Some(mhz) ==> rate_part(mode_shown(m)) == Some(rate_shown(mhz))
            && rate_text(rate_shown(mhz)) == rate_shown(mhz),
        m.refresh_mhz is None ==> rate_part(mode_shown(m)) is None,
{
    let w = decimal(m.width as nat);
    let h = decimal(m.height as nat);
    let size = w.push('x') + h;
    let s = mode_shown(m);
    lemma_decimal(m.width as nat);
    lemma_decimal(m.height as nat);
    assert forall|i: int| 0 <= i < size.len() implies size[i] != '@' && size[i] != 'X' && (size[i]
        == 'x' <==> i == w.len()) by {
        if i < w.len() {
            assert(size[i] == w[i]);
        } else if i > w.len() {
            assert(size[i] == h[i - w.len() - 1]);
        }
    }
    match m.refresh_mhz {
        None => {
            lemma_find_is(s, '@', s.len() as int);
        },
        Some(mhz) => {
            assert forall|i: int| 0 <= i < size.len() implies s[i] != '@' by {
                assert(s[i] == size[i]);
            }
            lemma_find_is(s, '@', size.len() as int);
            assert(s.skip(size.len() as int + 1) =~= rate_shown(mhz));
            lemma_rate_text(mhz);
        },
    }
    assert(size_part(s) =~= size);
    lemma_find_is(size, 'x', w.len() as int);
    lemma_find_is(size, 'X', size.len() as int);
    assert(size.take(w.len() as int) =~= w);
    assert(size.skip(w.len() as int + 1) =~= h);
    lemma_digits_are_trimmed(w);
    lemma_digits_are_trimmed(h);
}

/// A number in decimal is made of digits that spell it.
proof fn lemma_decimal(n: nat)
    ensures
        decimal(n).len() > 0,
        all_digits(decimal(n)),
        digits_value(decimal(n)) == n,
{
    lemma_spelled(n);
}

proof fn lemma_digits_are_trimmed(s: Seq<char>)
    requires
        s.len() > 0,
        '0' <= s[0] <= '9',
        '0' <= s.last() <= '9',
    ensures
        trimmed(s) == s,
{
}

/// A rate that is written out is its own number.
proof fn lemma_rate_text(mhz: u32)
    ensures
        rate_text(rate_shown(mhz)) == rate_shown(mhz),
{
    let r = rate_shown(mhz);
    let whole = decimal((mhz / 1000) as nat);
    lemma_decimal((mhz / 1000) as nat);
    assert(r[0] == whole[0]);
    assert('0' <= whole[0] <= '9');
    assert('0' <= r.last() <= '9');
    lemma_digits_are_trimmed(r);
    reveal_strlit("Hz");
    reveal_strlit("hz");
    assert(!ends_with(r, "Hz"@)) by {
        if ends_with(r, "Hz"@) {
            assert(r.skip(r.len() - 2)[1] == 'z');
        }
    }
    assert(!ends_with(r, "hz"@)) by {
        if ends_with(r, "hz"@) {
            assert(r.skip(r.len() - 2)[1] == 'z');
        }
    }
}

/// How to launch the greeter, and as whom.
#[derive(Debug, Clone)]
pub struct Greeter {
    /// Command line, split on white space. Not run through a shell.
    pub command: String,
    /// Unprivileged user the greeter runs as. Must not be root.
    pub user: String,
}

impl Default for Greeter {
    fn default() -> (r: Self)
        ensures
            r.command@ == "/usr/lib/wdm/wdm-greeter"@,
            r.user@ == "wdm"@,
    {
        Greeter { command: "/usr/lib/wdm/wdm-greeter".to_owned(), user: "wdm".to_owned() }
    }
}

/// xkb keyboard configuration for the greeter.
///
/// There is no user yet whose preferences could be consulted, and a user who cannot
/// type their password on their own layout cannot log in.
#[derive(Debug, Clone)]
pub struct Keyboard {
    pub rules: String,
    pub model: String,
    pub layout: String,
    pub variant: String,
    pub options: Option<String>,
}

impl Default for Keyboard {
    fn default() -> (r: Self)
        ensures
            r.rules@.len() == 0,
            r.model@.len() == 0,
            r.layout@.len() == 0,
            r.variant@.len() == 0,
            r.options is None,
    {
        Keyboard {
            rules: String::new(),
            model: String::new(),
            layout: String::new(),
            variant: String::new(),
            options: None,
        }
    }
}

/// Output rotation and reflection, named as in `wl_output`.
#[derive(Debug, Clone, Copy, PartialEq, Eq, Structural)]
pub enum Transform {
    Normal,
    Rotate90,
    Rotate180,
    Rotate270,
    Flipped,
    Flipped90,
    Flipped180,
    Flipped270,
}

impl Default for Transform {
    fn default() -> (r: Self)
        ensures
            r == Transform::Normal,
    {
        Transform::Normal
    }
}

/// Per-connector output configuration.
#[derive(Debug, Clone)]
pub struct Output {
    /// Connector name as the kernel reports it.
    pub connector: String,
    /// Mode to set; the connector's preferred one where absent.
    pub mode: Option<Mode>,
    /// The scale, as the bits of a double-precision number. Fractional ones are
    /// permitted.
    pub scale: Option<u64>,
    pub transform: Transform,
    /// When false the output is left blank and receives no rank, so that no login
    /// prompt can appear on it.
    pub enable: bool,
}

/// A parsed configuration.
#[derive(Debug, Clone)]
pub struct Config {
    /// Virtual terminal to run on.
    pub vt: u32,
    /// Session id offered when a user has no recorded last session.
    pub default_session: Option<String>,
    pub greeter: Greeter,
    pub keyboard: Keyboard,
    /// Outputs in priority order; the position is the rank.
    pub output: Vec<Output>,
}

impl Default for Config {
    fn default() -> (r: Self)
        ensures
            r.is_default(),
            r.fault() is None,
    {
        let r = Config {
            vt: DEFAULT_VT,
            default_session: None,
            greeter: Greeter::default(),
            keyboard: Keyboard::default(),
            output: Vec::new(),
        };
        proof {
            reveal_strlit("/usr/lib/wdm/wdm-greeter");
            reveal_strlit("wdm");
            reveal_strlit("root");
            assert("/usr/lib/wdm/wdm-greeter"@[0] == '/');
            assert("/usr/lib/wdm/wdm-greeter"@.last() == 'r');
            assert("wdm"@[0] == 'w');
            assert("wdm"@.last() == 'm');
            assert("wdm"@.len() != "root"@.len());
        }
        r
    }
}

/// Whether the bits of a double are those of a positive finite number.
pub open spec fn positive_finite(bits: u64) -> bool {
    0 < bits < 0x7ff0_0000_0000_0000
}

/// What is wrong with an output by itself, if anything is.
pub open spec fn output_fault(output: Output) -> Option<Seq<char>> {
    if trimmed(output.connector@).len() == 0 {
        Some("output.connector must not be empty"@)
    } else if output.scale is Some && !positive_finite(output.scale->0) {
        Some("output "@ + output.connector@ + ": scale must be a positive number"@)
    } else {
        None
    }
}

/// The first fault of outputs taken by themselves.
pub open spec fn outputs_fault(outputs: Seq<Output>) -> Option<Seq<char>>
    decreases outputs.len(),
{
    if outputs.len() == 0 {
        None
    } else if output_fault(outputs[0]) is Some {
        output_fault(outputs[0])
    } else {
        outputs_fault(outputs.skip(1))
    }
}

/// Whether a connector is configured ahead of a position.
pub open spec fn configured_before(outputs: Seq<Output>, i: int) -> bool {
    exists|j: int| 0 <= j < i && (#[trigger] outputs[j]).connector@ == outputs[i].connector@
}

/// The first output from a position on whose connector was configured before it.
pub open spec fn repeated(outputs: Seq<Output>, from: int) -> Option<Seq<char>>
    decreases outputs.len() - from,
{
    if from >= outputs.len() || from < 0 {
        None
    } else if configured_before(outputs, from) {
        Some("output "@ + outputs[from].connector@ + " is configured more than once"@)
    } else {
        repeated(outputs, from + 1)
    }
}

impl Config {
    /// This is the configuration there is without a file.
    pub open spec fn is_default(&self) -> bool {
        &&& self.vt == DEFAULT_VT
        &&& self.default_session is None
        &&& self.greeter.command@ == "/usr/lib/wdm/wdm-greeter"@
        &&& self.greeter.user@ == "wdm"@
        &&& self.output@.len() == 0
        &&& self.keyboard.rules@.len() == 0
        &&& self.keyboard.model@.len() == 0
        &&& self.keyboard.layout@.len() == 0
        &&& self.keyboard.variant@.len() == 0
        &&& self.keyboard.options is None
    }

    /// The first thing that is wrong with the configuration, if anything is.
    pub open spec fn fault(&self) -> Option<Seq<char>> {
        if self.vt == 0 {
            Some("vt must be at least 1"@)
        } else if trimmed(self.greeter.command@).len() == 0 {
            Some("greeter.command must not be empty"@)
        } else if self.greeter.user@ == "root"@ {
            Some("greeter.user must not be root"@)
        } else if trimmed(self.greeter.user@).len() == 0 {
            Some("greeter.user must not be empty"@)
        } else if outputs_fault(self.output@) is Some {
            outputs_fault(self.output@)
        } else {
            repeated(self.output@, 0)
        }
    }

    /// Check the outputs by themselves.
    fn check_outputs(&self) -> (r: Option<String>)
        ensures
            match (r, outputs_fault(self.output@)) {
                (Some(message), Some(fault)) => message@ == fault,
                (None, None) => true,
                _ => false,
            },
    {
        let ghost all = self.output@;
        assert(all.skip(0) =~= all);
        for i in 0..self.output.len()
            invariant
                all == self.output@,
                outputs_fault(all) == outputs_fault(all.skip(i as int)),
        {
            proof {
                assert(all.skip(i as int).skip(1) =~= all.skip(i as int + 1));
                assert(all.skip(i as int)[0] == all[i as int]);
            }
            let output = &self.output[i];
            if trim(&to_chars(&output.connector)).len() == 0 {
                return Some("output.connector must not be empty".to_owned());
            }
            if let Some(bits) = output.scale {
                if bits == 0 || bits >= 0x7ff0_0000_0000_0000 {
                    let mut message = "output ".to_owned();
                    push_str(&mut message, &output.connector);
                    push_str(&mut message, ": scale must be a positive number");
                    return Some(message);
                }
            }
        }
        None
    }

    /// Look for a connector that is configured twice.
    fn check_repetition(&self) -> (r: Option<String>)
        ensures
            match (r, repeated(self.output@, 0)) {
                (Some(message), Some(fault)) => message@ == fault,
                (None, None) => true,
                _ => false,
            },
    {
        for i in 0..self.output.len()
            invariant
                repeated(self.output@, 0) == repeated(self.output@, i as int),
        {
            for j in 0..i
                invariant
                    i < self.output@.len(),
                    repeated(self.output@, 0) == repeated(self.output@, i as int),
                    forall|k: int|
                        0 <= k < j ==> (#[trigger] self.output@[k]).connector@
                            != self.output@[i as int].connector@,
            {
                if same(&self.output[j].connector, &self.output[i].connector) {
                    proof {
                        assert(configured_before(self.output@, i as int));
                    }
                    let mut message = "output ".to_owned();
                    push_str(&mut message, &self.output[i].connector);
                    push_str(&mut message, " is configured more than once");
                    return Some(message);
                }
            }
            assert(!configured_before(self.output@, i as int));
        }
        None
    }

    /// Check the configuration.
    pub fn validate(&self) -> (r: Result<(), String>)
        ensures
            match (r, self.fault()) {
                (Ok(_), None) => true,
                (Err(message), Some(fault)) => message@ == fault,
                _ => false,
            },
    {
        if self.vt == 0 {
            return Err("vt must be at least 1".to_owned());
        }
        if trim(&to_chars(&self.greeter.command)).len() == 0 {
            return Err("greeter.command must not be empty".to_owned());
        }
        // The greeter is untrusted, and running it as root would defeat the whole
        // separation of privilege.
        if same(&self.greeter.user, "root") {
            return Err("greeter.user must not be root".to_owned());
        }
        if trim(&to_chars(&self.greeter.user)).len() == 0 {
            return Err("greeter.user must not be empty".to_owned());
        }
        if let Some(message) = self.check_outputs() {
            return Err(message);
        }
        if let Some(message) = self.check_repetition() {
            return Err(message);
        }
        Ok(())
    }

    /// A configuration file that was read and parsed, or why it was not, validated.
    pub fn load(path: &str, parsed: Result<Config, ConfigError>) -> (r: Result<
        Config,
        ConfigError,
    >)
        ensures
            match parsed {
                Ok(config) => match config.fault() {
                    None => r == parsed,
                    Some(message) => r matches Err(e) && e@ == (ConfigErrorView::Invalid {
                        path: path@,
                        message,
                    }),
                },
                Err(_) => r == parsed,
            },
    {
        match parsed {
            Ok(config) => match config.validate() {
                Ok(_) => Ok(config),
                Err(message) => Err(ConfigError::Invalid { path: path.to_owned(), message }),
            },
            Err(e) => Err(e),
        }
    }

    /// The same, with the defaults where there is no file.
    ///
    /// A missing file is no error: the defaults work, and refusing to start would
    /// leave the machine without a graphical login. A malformed one is, because
    /// somebody tried to configure something.
    pub fn load_or_default(path: &str, parsed: Result<Config, ConfigError>) -> (r: Result<
        Config,
        ConfigError,
    >)
        ensures
            match parsed {
                Ok(config) => match config.fault() {
                    None => r == parsed,
                    Some(message) => r matches Err(e) && e@ == (ConfigErrorView::Invalid {
                        path: path@,
                        message,
                    }),
                },
                Err(ConfigError::Read { missing: true, .. }) => r matches Ok(config)
                    && config.is_default(),
                Err(_) => r == parsed,
            },
    {
        match Config::load(path, parsed) {
            Err(ConfigError::Read { missing: true, .. }) => Ok(Config::default()),
            other => other,
        }
    }
}

/// Where a connector is configured, or the number of outputs where it is not.
pub open spec fn place(outputs: Seq<Output>, connector: Seq<char>) -> int
    decreases outputs.len(),
{
    if outputs.len() == 0 || outputs[0].connector@ == connector {
        0
    } else {
        1 + place(outputs.skip(1), connector)
    }
}

proof fn lemma_place(outputs: Seq<Output>, connector: Seq<char>)
    ensures
        0 <= place(outputs, connector) <= outputs.len(),
        place(outputs, connector) < outputs.len() ==> outputs[place(
            outputs,
            connector,
        )].connector@ == connector,
        forall|i: int|
            0 <= i < place(outputs, connector) ==> (#[trigger] outputs[i]).connector@ != connector,
    decreases outputs.len(),
{
    if outputs.len() > 0 && outputs[0].connector@ != connector {
        let rest = outputs.skip(1);
        lemma_place(rest, connector);
        assert forall|i: int| 0 <= i < place(outputs, connector) implies (
        #[trigger] outputs[i]).connector@ != connector by {
            if i > 0 {
                assert(rest[i - 1] == outputs[i]);
            }
        }
    }
}

/// Whether a connector may show anything: one that is not configured may.
pub open spec fn enabled(outputs: Seq<Output>, connector: Seq<char>) -> bool {
    let i = place(outputs, connector);
    i < outputs.len() ==> outputs[i].enable
}

/// Whether one connector ranks no later than another: by where they are configured,
/// those that are not last, and by name among equals.
pub open spec fn ranks(outputs: Seq<Output>, a: Seq<char>, b: Seq<char>) -> bool {
    let i = place(outputs, a);
    let j = place(outputs, b);
    i < j || (i == j && !before(b, a))
}

/// The order that [`ranks`] is.
pub open spec fn rank_order(outputs: Seq<Output>) -> spec_fn(Seq<char>, Seq<char>) -> bool {
    |a: Seq<char>, b: Seq<char>| ranks(outputs, a, b)
}

/// The connectors that may show something.
pub open spec fn shown(outputs: Seq<Output>, connected: Seq<Seq<char>>) -> Seq<Seq<char>>
    decreases connected.len(),
{
    if connected.len() == 0 {
        seq![]
    } else if enabled(outputs, connected.last()) {
        shown(outputs, connected.drop_last()).push(connected.last())
    } else {
        shown(outputs, connected.drop_last())
    }
}

/// The connectors that may show something, as often as they are connected and in
/// the order of their rank.
pub open spec fn is_ranking(
    outputs: Seq<Output>,
    connected: Seq<Seq<char>>,
    ranked: Seq<Seq<char>>,
) -> bool {
    &&& ranked.to_multiset() == shown(outputs, connected).to_multiset()
    &&& sorted_by(ranked, rank_order(outputs))
}

impl Config {
    /// Where a connector is configured.
    fn place_of(&self, connector: &str) -> (r: usize)
        ensures
            r == place(self.output@, connector@),
            r <= self.output@.len(),
    {
        let mut i: usize = 0;
        let ghost all = self.output@;
        assert(all.skip(0) =~= all);
        while i < self.output.len()
            invariant
                all == self.output@,
                i <= all.len(),
                place(all, connector@) == i + place(all.skip(i as int), connector@),
            decreases all.len() - i,
        {
            proof {
                assert(all.skip(i as int).skip(1) =~= all.skip(i as int + 1));
                assert(all.skip(i as int)[0] == all[i as int]);
            }
            if same(&self.output[i].connector, connector) {
                return i;
            }
            i += 1;
        }
        i
    }

    /// The configuration of a connector, if it has any.
    pub fn output_for(&self, connector: &str) -> (r: Option<&Output>)
        ensures
            match r {
                Some(output) => place(self.output@, connector@) < self.output@.len() && *output
                    == self.output@[place(self.output@, connector@)],
                None => place(self.output@, connector@) == self.output@.len(),
            },
    {
        proof {
            lemma_place(self.output@, connector@);
        }
        let i = self.place_of(connector);
        if i < self.output.len() {
            Some(&self.output[i])
        } else {
            None
        }
    }

    /// Whether a connector may show anything.
    pub fn shows(&self, connector: &str) -> (r: bool)
        ensures
            r == enabled(self.output@, connector@),
    {
        let i = self.place_of(connector);
        if i < self.output.len() {
            self.output[i].enable
        } else {
            true
        }
    }

    /// Whether one connector ranks no later than another.
    pub fn ranks_ahead(&self, a: &str, b: &str) -> (r: bool)
        ensures
            r == ranks(self.output@, a@, b@),
    {
        let i = self.place_of(a);
        let j = self.place_of(b);
        i < j || (i == j && !is_before(&to_chars(b), &to_chars(a)))
    }

    /// Assign ranks to the connected connectors; the index is the rank.
    ///
    /// Configured connectors come first, in the order of the configuration, then
    /// the others by name, so that the primary output does not move between boots.
    /// Disabled outputs receive no rank.
    pub fn rank_outputs(&self, connected: &Vec<String>) -> (r: Vec<String>)
        ensures
            is_ranking(self.output@, strings(connected@), strings(r@)),
    {
        let ghost outputs = self.output@;
        let ghost names = strings(connected@);
        let mut ranked: Vec<String> = Vec::new();
        proof {
            assert(strings(ranked@) =~= shown(outputs, names.take(0)));
        }
        for n in 0..connected.len()
            invariant
                outputs == self.output@,
                names == strings(connected@),
                is_ranking(outputs, names.take(n as int), strings(ranked@)),
        {
            proof {
                assert(names.take(n as int + 1).drop_last() =~= names.take(n as int));
            }
            if self.shows(&connected[n]) {
                let mut at: usize = 0;
                while at < ranked.len() && self.ranks_ahead(&ranked[at], &connected[n])
                    invariant
                        outputs == self.output@,
                        n < connected@.len(),
                        at <= ranked@.len(),
                        forall|i: int|
                            0 <= i < at ==> ranks(
                                outputs,
                                (#[trigger] ranked@[i])@,
                                connected@[n as int]@,
                            ),
                    decreases ranked@.len() - at,
                {
                    at += 1;
                }
                let ghost old_ranked = strings(ranked@);
                let name: String = connected[n].clone();
                ranked.insert(at, name);
                proof {
                    let new = strings(ranked@);
                    assert(new =~= old_ranked.insert(at as int, name@));
                    lemma_insert_ranked(outputs, old_ranked, at as int, name@);
                    vstd::seq_lib::to_multiset_insert(old_ranked, at as int, name@);
                    let before = shown(outputs, names.take(n as int));
                    vstd::seq_lib::to_multiset_build(before, name@);
                }
            }
        }
        proof {
            assert(names.take(names.len() as int) =~= names);
        }
        ranked
    }
}

/// Ranking is a total order.
pub proof fn lemma_rank_order(outputs: Seq<Output>)
    ensures
        total_ordering(rank_order(outputs)),
{
    let r = rank_order(outputs);
    assert forall|x: Seq<char>| #[trigger] r(x, x) by {
        lemma_before_total(x, x);
    }
    assert forall|x: Seq<char>, y: Seq<char>| #[trigger] r(x, y) && #[trigger] r(y, x) implies x
        == y by {
        lemma_before_total(x, y);
    }
    assert forall|x: Seq<char>, y: Seq<char>, z: Seq<char>| #[trigger]
        r(x, y) && #[trigger] r(y, z) implies r(x, z) by {
        if place(outputs, x) == place(outputs, y) && place(outputs, y) == place(outputs, z) {
            lemma_before_total(x, y);
            lemma_before_total(y, z);
            lemma_before_total(x, z);
            if x != y && y != z {
                lemma_before_transitive(x, y, z);
            }
        }
    }
    assert forall|x: Seq<char>, y: Seq<char>| #[trigger] r(x, y) || #[trigger] r(y, x) by {
        lemma_before_total(x, y);
    }
}

proof fn lemma_insert_ranked(
    outputs: Seq<Output>,
    ranked: Seq<Seq<char>>,
    at: int,
    name: Seq<char>,
)
    requires
        sorted_by(ranked, rank_order(outputs)),
        0 <= at <= ranked.len(),
        forall|i: int| 0 <= i < at ==> ranks(outputs, #[trigger] ranked[i], name),
        at < ranked.len() ==> !ranks(outputs, ranked[at], name),
    ensures
        sorted_by(ranked.insert(at, name), rank_order(outputs)),
{
    let r = rank_order(outputs);
    lemma_rank_order(outputs);
    let new = ranked.insert(at, name);
    assert forall|i: int, j: int| 0 <= i < j < new.len() implies #[trigger] r(new[i], new[j]) by {
        if j < at {
            assert(r(ranked[i], ranked[j]));
        } else if j == at {
            assert(ranks(outputs, ranked[i], name));
        } else if i < at {
            assert(r(ranked[i], ranked[j - 1]));
        } else if i == at {
            assert(r(ranked[at], name) || r(name, ranked[at]));
            assert(r(name, ranked[at]));
            if j - 1 > at {
                assert(r(ranked[at], ranked[j - 1]));
            }
        } else {
            assert(r(ranked[i - 1], ranked[j - 1]));
        }
    }
}

/// The ranking does not depend on the order in which connectors are found: two
/// listings of the same connectors rank alike.
pub proof fn law_ranks_do_not_follow_probe_order(
    outputs: Seq<Output>,
    one: Seq<Seq<char>>,
    other: Seq<Seq<char>>,
    ranked_one: Seq<Seq<char>>,
    ranked_other: Seq<Seq<char>>,
)
    requires
        one.to_multiset() == other.to_multiset(),
        is_ranking(outputs, one, ranked_one),
        is_ranking(outputs, other, ranked_other),
    ensures
        ranked_one == ranked_other,
{
    lemma_shown_multiset(outputs, one);
    lemma_shown_multiset(outputs, other);
    assert(shown(outputs, one).to_multiset() =~= shown(outputs, other).to_multiset());
    lemma_rank_order(outputs);
    vstd::seq_lib::lemma_sorted_unique(ranked_one, ranked_other, rank_order(outputs));
}

/// Connectors without one of them.
pub open spec fn without(connectors: Seq<Seq<char>>, left_out: Seq<char>) -> Seq<Seq<char>> {
    connectors.filter(other_than(left_out))
}

/// Every connector but one.
pub open spec fn other_than(left_out: Seq<char>) -> spec_fn(Seq<char>) -> bool {
    |c: Seq<char>| c != left_out
}

/// Leaving a connector out changes nothing about the others: it is only deleted
/// from the ranking.
pub proof fn law_leaving_a_connector_out_deletes_it(
    outputs: Seq<Output>,
    connected: Seq<Seq<char>>,
    left_out: Seq<char>,
    ranked: Seq<Seq<char>>,
    ranked_without: Seq<Seq<char>>,
)
    requires
        is_ranking(outputs, connected, ranked),
        is_ranking(outputs, without(connected, left_out), ranked_without),
    ensures
        ranked_without == without(ranked, left_out),
{
    lemma_shown_multiset(outputs, connected);
    lemma_shown_multiset(outputs, without(connected, left_out));
    lemma_without_multiset(connected, left_out);
    lemma_without_multiset(ranked, left_out);
    assert(ranked_without.to_multiset() =~= without(ranked, left_out).to_multiset());
    lemma_without_sorted(ranked, left_out, rank_order(outputs));
    lemma_rank_order(outputs);
    vstd::seq_lib::lemma_sorted_unique(
        ranked_without,
        without(ranked, left_out),
        rank_order(outputs),
    );
}

proof fn lemma_without_multiset(connectors: Seq<Seq<char>>, left_out: Seq<char>)
    ensures
        forall|c: Seq<char>| #[trigger]
            without(connectors, left_out).to_multiset().count(c) == if c == left_out {
                0
            } else {
                connectors.to_multiset().count(c)
            },
    decreases connectors.len(),
{
    broadcast use vstd::multiset::group_multiset_axioms;
    broadcast use vstd::seq_lib::group_to_multiset_ensures;

    reveal(Seq::filter);
    if connectors.len() > 0 {
        let init = connectors.drop_last();
        lemma_without_multiset(init, left_out);
        assert(init.push(connectors.last()) =~= connectors);
        vstd::seq_lib::to_multiset_build(init, connectors.last());
        vstd::seq_lib::to_multiset_build(without(init, left_out), connectors.last());
    } else {
        assert(connectors =~= Seq::<Seq<char>>::empty());
    }
}

proof fn lemma_without_sorted(
    connectors: Seq<Seq<char>>,
    left_out: Seq<char>,
    order: spec_fn(Seq<char>, Seq<char>) -> bool,
)
    requires
        sorted_by(connectors, order),
    ensures
        sorted_by(without(connectors, left_out), order),
    decreases connectors.len(),
{
    reveal(Seq::filter);
    if connectors.len() > 0 {
        let init = connectors.drop_last();
        assert forall|i: int, j: int| 0 <= i < j < init.len() implies #[trigger] order(
            init[i],
            init[j],
        ) by {
            assert(order(connectors[i], connectors[j]));
        }
        lemma_without_sorted(init, left_out, order);
        let kept = without(init, left_out);
        assert forall|i: int| 0 <= i < kept.len() implies #[trigger] order(
            kept[i],
            connectors.last(),
        ) by {
            assert(kept.contains(kept[i]));
            init.lemma_filter_contains_rev(other_than(left_out), kept[i]);
            let k = choose|k: int| 0 <= k < init.len() && init[k] == kept[i];
            assert(order(connectors[k], connectors[connectors.len() - 1]));
        }
    }
}

/// How often each connector is shown.
proof fn lemma_shown_multiset(outputs: Seq<Output>, connected: Seq<Seq<char>>)
    ensures
        forall|c: Seq<char>| #[trigger]
            shown(outputs, connected).to_multiset().count(c) == if enabled(outputs, c) {
                connected.to_multiset().count(c)
            } else {
                0
            },
    decreases connected.len(),
{
    broadcast use vstd::multiset::group_multiset_axioms;
    broadcast use vstd::seq_lib::group_to_multiset_ensures;

    if connected.len() > 0 {
        let init = connected.drop_last();
        lemma_shown_multiset(outputs, init);
        assert(init.push(connected.last()) =~= connected);
        vstd::seq_lib::to_multiset_build(init, connected.last());
        vstd::seq_lib::to_multiset_build(shown(outputs, init), connected.last());
    } else {
        assert(connected =~= Seq::<Seq<char>>::empty());
    }
}

/// No disabled output has a rank, every other connected one has, and a configured
/// output never ranks behind one that is not configured.
pub proof fn law_ranks_cover_what_is_enabled(
    outputs: Seq<Output>,
    connected: Seq<Seq<char>>,
    ranked: Seq<Seq<char>>,
    c: Seq<char>,
)
    requires
        is_ranking(outputs, connected, ranked),
    ensures
        ranked.contains(c) <==> connected.contains(c) && enabled(outputs, c),
        forall|i: int, j: int|
            0 <= i < j < ranked.len() ==> place(outputs, #[trigger] ranked[i]) <= place(
                outputs,
                #[trigger] ranked[j],
            ),
{
    broadcast use vstd::seq_lib::group_to_multiset_ensures;

    lemma_shown_multiset(outputs, connected);
    assert(ranked.contains(c) <==> ranked.to_multiset().count(c) > 0);
    assert(connected.contains(c) <==> connected.to_multiset().count(c) > 0);
    assert forall|i: int, j: int| 0 <= i < j < ranked.len() implies place(
        outputs,
        #[trigger] ranked[i],
    ) <= place(outputs, #[trigger] ranked[j]) by {
        assert(rank_order(outputs)(ranked[i], ranked[j]));
    }
}

proof fn lemma_outputs_fault(outputs: Seq<Output>)
    ensures
        outputs_fault(outputs) is None <==> forall|i: int|
            0 <= i < outputs.len() ==> output_fault(#[trigger] outputs[i]) is None,
    decreases outputs.len(),
{
    if outputs.len() > 0 {
        let rest = outputs.skip(1);
        lemma_outputs_fault(rest);
        if outputs_fault(outputs) is None {
            assert forall|i: int| 0 <= i < outputs.len() implies output_fault(
                #[trigger] outputs[i],
            ) is None by {
                if i > 0 {
                    assert(rest[i - 1] == outputs[i]);
                }
            }
        }
        if forall|i: int|
            0 <= i < outputs.len() ==> output_fault(#[trigger] outputs[i]) is None {
            assert forall|i: int| 0 <= i < rest.len() implies output_fault(#[trigger] rest[i])
                is None by {
                assert(rest[i] == outputs[i + 1]);
            }
            assert(output_fault(outputs[0]) is None);
        }
    }
}

proof fn lemma_repeated(outputs: Seq<Output>, from: int)
    requires
        0 <= from <= outputs.len(),
    ensures
        repeated(outputs, from) is None <==> forall|i: int|
            from <= i < outputs.len() ==> !(#[trigger] configured_before(outputs, i)),
    decreases outputs.len() - from,
{
    if from < outputs.len() {
        lemma_repeated(outputs, from + 1);
        if repeated(outputs, from) is None {
            assert forall|i: int| from <= i < outputs.len() implies !(#[trigger] configured_before(
                outputs,
                i,
            )) by {}
        }
    }
}

/// A configuration is sound if and only if it names a terminal, a command and a user
/// for the greeter that is not root, every output has a name and no scale that is
/// not a positive number, and no output is configured twice.
pub proof fn law_what_a_sound_configuration_is(config: Config)
    ensures
        config.fault() is None <==> {
            &&& config.vt >= 1
            &&& exists|i: int|
                0 <= i < config.greeter.command@.len() && !crate::text::is_space(
                    #[trigger] config.greeter.command@[i],
                )
            &&& config.greeter.user@ != "root"@
            &&& exists|i: int|
                0 <= i < config.greeter.user@.len() && !crate::text::is_space(
                    #[trigger] config.greeter.user@[i],
                )
            &&& forall|k: int|
                0 <= k < config.output@.len() ==> trimmed(
                    (#[trigger] config.output@[k]).connector@,
                ).len() > 0 && (config.output@[k].scale matches Some(bits) ==> 0 < bits
                    < 0x7ff0_0000_0000_0000)
            &&& forall|j: int, k: int|
                0 <= j < k < config.output@.len() ==> (#[trigger] config.output@[j]).connector@ != (
                #[trigger] config.output@[k]).connector@
        },
{
    let outputs = config.output@;
    crate::text::lemma_trimmed_is_empty(config.greeter.command@);
    crate::text::lemma_trimmed_is_empty(config.greeter.user@);
    lemma_outputs_fault(outputs);
    lemma_repeated(outputs, 0);
    if repeated(outputs, 0) is None {
        assert forall|j: int, k: int| 0 <= j < k < outputs.len() implies (
        #[trigger] outputs[j]).connector@ != (#[trigger] outputs[k]).connector@ by {
            assert(!configured_before(outputs, k));
        }
    }
    if outputs_fault(outputs) is None {
        assert forall|k: int| 0 <= k < outputs.len() implies trimmed(
            (#[trigger] outputs[k]).connector@,
        ).len() > 0 && (outputs[k].scale matches Some(bits) ==> 0 < bits < 0x7ff0_0000_0000_0000) by {
            assert(output_fault(outputs[k]) is None);
        }
    }
    if forall|k: int|
        0 <= k < outputs.len() ==> trimmed((#[trigger] outputs[k]).connector@).len() > 0 && (
        outputs[k].scale matches Some(bits) ==> 0 < bits < 0x7ff0_0000_0000_0000) {
        assert forall|k: int| 0 <= k < outputs.len() implies output_fault(#[trigger] outputs[k])
            is None by {}
    }
    if forall|j: int, k: int|
        0 <= j < k < outputs.len() ==> (#[trigger] outputs[j]).connector@ != (
        #[trigger] outputs[k]).connector@ {
        assert forall|i: int| 0 <= i < outputs.len() implies !(#[trigger] configured_before(
            outputs,
            i,
        )) by {}
    }
}

/// What is wrong first is what is reported, and it names the output that is at fault.
pub proof fn law_the_first_fault_is_reported(outputs: Seq<Output>, i: int)
    requires
        0 <= i < outputs.len(),
        forall|j: int| 0 <= j < i ==> output_fault(#[trigger] outputs[j]) is None,
        output_fault(outputs[i]) is Some,
    ensures
        outputs_fault(outputs) == output_fault(outputs[i]),
    decreases i,
{
    if i > 0 {
        let rest = outputs.skip(1);
        assert(output_fault(outputs[0]) is None);
        assert forall|j: int| 0 <= j < i - 1 implies output_fault(#[trigger] rest[j]) is None by {
            assert(rest[j] == outputs[j + 1]);
        }
        law_the_first_fault_is_reported(rest, i - 1);
    }
}

/// An output may show something unless its first entry in the configuration says
/// that it may not; one that is not configured may.
pub proof fn law_an_output_shows_unless_it_is_disabled(
    outputs: Seq<Output>,
    connector: Seq<char>,
    p: int,
)
    requires
        0 <= p <= outputs.len(),
        forall|q: int| 0 <= q < p ==> (#[trigger] outputs[q]).connector@ != connector,
        p < outputs.len() ==> outputs[p].connector@ == connector,
    ensures
        place(outputs, connector) == p,
        enabled(outputs, connector) == (p < outputs.len() ==> outputs[p].enable),
{
    lemma_place(outputs, connector);
    let f = place(outputs, connector);
    if f < p {
        assert(outputs[f].connector@ != connector);
    }
    if p < f {
        assert(outputs[p].connector@ != connector);
    }
}

/// The order of the ranks: an output that is configured comes before those that are
/// configured after it and before those that are not configured, and those come by
/// name.
pub proof fn law_outputs_rank_as_they_are_configured(
    outputs: Seq<Output>,
    connected: Seq<Seq<char>>,
    ranked: Seq<Seq<char>>,
    i: int,
    j: int,
)
    requires
        is_ranking(outputs, connected, ranked),
        0 <= i < j < ranked.len(),
    ensures
        forall|p: int|
            0 <= p < outputs.len() && (#[trigger] outputs[p]).connector@ == ranked[j]
                ==> exists|q: int| 0 <= q <= p && (#[trigger] outputs[q]).connector@ == ranked[i],
        (forall|p: int|
            0 <= p < outputs.len() ==> (#[trigger] outputs[p]).connector@ != ranked[i]
                && outputs[p].connector@ != ranked[j]) ==> !before(ranked[j], ranked[i]),
{
    let r = rank_order(outputs);
    assert(r(ranked[i], ranked[j]));
    lemma_place(outputs, ranked[i]);
    lemma_place(outputs, ranked[j]);
    assert forall|p: int|
        0 <= p < outputs.len() && (#[trigger] outputs[p]).connector@ == ranked[j] implies exists|
        q: int,
    | 0 <= q <= p && (#[trigger] outputs[q]).connector@ == ranked[i] by {
        let f = place(outputs, ranked[j]);
        if p < f {
            assert(outputs[p].connector@ != ranked[j]);
        }
        let q = place(outputs, ranked[i]);
        assert(q <= f);
        assert(outputs[q].connector@ == ranked[i]);
    }
}

/// What has a rank is connected and may show something, and whatever is and may has
/// one.
pub proof fn law_what_has_a_rank(
    outputs: Seq<Output>,
    connected: Seq<Seq<char>>,
    ranked: Seq<Seq<char>>,
    connector: Seq<char>,
)
    requires
        is_ranking(outputs, connected, ranked),
    ensures
        ranked.contains(connector) <==> connected.contains(connector) && enabled(
            outputs,
            connector,
        ),
{
    lemma_shown_multiset(outputs, connected);
    vstd::seq_lib::to_multiset_contains(ranked, connector);
    vstd::seq_lib::to_multiset_contains(connected, connector);
    let s = shown(outputs, connected).to_multiset();
    assert(s.count(connector) == ranked.to_multiset().count(connector));
}

/// How a mode is written: two dimensions with an `x` of either case between them,
/// and a rate after an `@` if it matters. White space round a dimension does not
/// count; a dimension of nothing, or a rate that is no number, is refused.
pub proof fn law_how_a_mode_is_written(
    w: Seq<char>,
    x: char,
    h: Seq<char>,
    width: u16,
    height: u16,
    rate: Seq<char>,
    reading: Option<u32>,
)
    requires
        x == 'x' || x == 'X',
        forall|i: int| 0 <= i < w.len() ==> !((#[trigger] w[i]) == 'x' || w[i] == 'X' || w[i] == '@'),
        forall|i: int| 0 <= i < h.len() ==> (#[trigger] h[i]) != '@',
        unsigned(trimmed(w), 65535) == Some(width as nat),
        unsigned(trimmed(h), 65535) == Some(height as nat),
    ensures
        ({
            let size = w.push(x) + h;
            let with_rate = size.push('@') + rate;
            &&& width == 0 || height == 0 ==> mode_in(size, reading) == Err::<Mode, ModeErrorView>(
                ModeErrorView::Zero,
            )
            &&& width > 0 && height > 0 ==> mode_in(size, reading) == Ok::<Mode, ModeErrorView>(
                Mode { width, height, refresh_mhz: None },
            )
            &&& width > 0 && height > 0 && reading is Some ==> mode_in(with_rate, reading) == Ok::<
                Mode,
                ModeErrorView,
            >(Mode { width, height, refresh_mhz: reading })
            &&& width > 0 && height > 0 && reading is None ==> mode_in(with_rate, reading) == Err::<
                Mode,
                ModeErrorView,
            >(ModeErrorView::Refresh(rate))
            &&& rate_part(with_rate) == Some(rate)
            &&& rate_part(size) is None
        }),
{
    let size = w.push(x) + h;
    let s = size.push('@') + rate;
    let n = size.len() as int;
    let c = w.len() as int;
    assert(size[c] == x);
    assert forall|i: int| 0 <= i < n implies size[i] != '@' by {
        if i < c {
            assert(size[i] == w[i]);
        } else if i > c {
            assert(size[i] == h[i - c - 1]);
        }
    }
    lemma_find_is(size, '@', n);
    assert(s[n] == '@');
    assert forall|i: int| 0 <= i < n implies s[i] != '@' by {
        assert(s[i] == size[i]);
    }
    lemma_find_is(s, '@', n);
    assert(s.take(n) =~= size);
    assert(size.take(n) =~= size);
    assert(s.skip(n + 1) =~= rate);
    assert forall|i: int| 0 <= i < c implies size[i] != 'x' && size[i] != 'X' by {
        assert(size[i] == w[i]);
    }
    lemma_find(size, 'x');
    lemma_find(size, 'X');
    assert(cross(size) == c) by {
        let a = find(size, 'x');
        let b = find(size, 'X');
        if a < c {
            assert(size[a] == 'x');
        }
        if b < c {
            assert(size[b] == 'X');
        }
        if x == 'x' {
            lemma_find_is(size, 'x', c);
        } else {
            lemma_find_is(size, 'X', c);
        }
    }
    assert(size.take(c) =~= w);
    assert(size.skip(c + 1) =~= h);
}

/// A text without an `x` is no mode.
pub proof fn law_a_mode_has_a_cross(s: Seq<char>, reading: Option<u32>)
    requires
        !s.contains('x'),
        !s.contains('X'),
    ensures
        mode_in(s, reading) == Err::<Mode, ModeErrorView>(ModeErrorView::Shape(s)),
{
    let size = size_part(s);
    lemma_find(s, '@');
    lemma_find(size, 'x');
    lemma_find(size, 'X');
    if find(size, 'x') < size.len() {
        assert(s[find(size, 'x')] == 'x');
    }
    if find(size, 'X') < size.len() {
        assert(s[find(size, 'X')] == 'X');
    }
}

/// An error of the configuration is told with the file it is about.
pub proof fn law_config_errors_name_their_file(path: Seq<char>, cause: Seq<char>, missing: bool)
    ensures
        config_complaint(ConfigErrorView::Read { path, cause, missing }) == "reading "@ + path
            + ": "@ + cause,
        config_complaint(ConfigErrorView::Parse { path, cause }) == "parsing "@ + path + ": "@
            + cause,
        config_complaint(ConfigErrorView::Invalid { path, message: cause }) == path + ": "@ + cause,
{
}

/// An error of a mode is told with the text that is wrong.
pub proof fn law_mode_errors_quote_their_text(text: Seq<char>)
    ensures
        mode_complaint(ModeErrorView::Shape(text))
            == "expected WIDTHxHEIGHT or WIDTHxHEIGHT@REFRESH, got "@ + quoted(text),
        mode_complaint(ModeErrorView::Dimension(text)) == quoted(text)
            + " is not a valid dimension"@,
        mode_complaint(ModeErrorView::Refresh(text)) == quoted(text)
            + " is not a valid refresh rate"@,
        mode_complaint(ModeErrorView::Zero) == "dimensions must be non-zero"@,
{
}

/// What wdm runs with where there is no file: its own greeter under its own account,
/// on the seventh terminal, and nothing configured beyond that.
pub proof fn law_the_usual_configuration(config: Config)
    requires
        config.is_default(),
    ensures
        config.vt == 7,
        config.default_session is None,
        config.greeter.command@ == "/usr/lib/wdm/wdm-greeter"@,
        config.greeter.user@ == "wdm"@,
        config.output@.len() == 0,
        config.keyboard.rules@.len() == 0,
        config.keyboard.model@.len() == 0,
        config.keyboard.layout@.len() == 0,
        config.keyboard.variant@.len() == 0,
        config.keyboard.options is None,
{
}

/// What is wrong is named, and the greeter is looked at before the outputs are.
pub proof fn law_faults_are_named(config: Config, output: Output)
    ensures
        config.vt == 0 ==> config.fault() == Some("vt must be at least 1"@),
        config.vt > 0 && trimmed(config.greeter.command@).len() == 0 ==> config.fault() == Some(
            "greeter.command must not be empty"@,
        ),
        config.vt > 0 && trimmed(config.greeter.command@).len() > 0 && config.greeter.user@
            == "root"@ ==> config.fault() == Some("greeter.user must not be root"@),
        config.vt > 0 && trimmed(config.greeter.command@).len() > 0 && config.greeter.user@
            != "root"@ && trimmed(config.greeter.user@).len() == 0 ==> config.fault() == Some(
            "greeter.user must not be empty"@,
        ),
        trimmed(output.connector@).len() == 0 ==> output_fault(output) == Some(
            "output.connector must not be empty"@,
        ),
        trimmed(output.connector@).len() > 0 && (output.scale matches Some(bits) && !(0 < bits
            < 0x7ff0_0000_0000_0000)) ==> output_fault(output) == Some(
            "output "@ + output.connector@ + ": scale must be a positive number"@,
        ),
{
}

/// An output that is configured a second time is named.
pub proof fn law_a_repeated_output_is_named(outputs: Seq<Output>, i: int, k: int)
    requires
        0 <= i < k < outputs.len(),
        outputs[i].connector@ == outputs[k].connector@,
        forall|a: int, b: int|
            0 <= a < b < k ==> (#[trigger] outputs[a]).connector@ != (
            #[trigger] outputs[b]).connector@,
    ensures
        repeated(outputs, 0) == Some(
            "output "@ + outputs[k].connector@ + " is configured more than once"@,
        ),
{
    lemma_repeated_at(outputs, 0, i, k);
}

proof fn lemma_repeated_at(outputs: Seq<Output>, from: int, i: int, k: int)
    requires
        0 <= i < k < outputs.len(),
        0 <= from <= k,
        outputs[i].connector@ == outputs[k].connector@,
        forall|a: int, b: int|
            0 <= a < b < k ==> (#[trigger] outputs[a]).connector@ != (
            #[trigger] outputs[b]).connector@,
    ensures
        repeated(outputs, from) == Some(
            "output "@ + outputs[k].connector@ + " is configured more than once"@,
        ),
    decreases k - from,
{
    if from < k {
        assert(!configured_before(outputs, from));
        lemma_repeated_at(outputs, from + 1, i, k);
    } else {
        assert(outputs[i].connector@ == outputs[k].connector@);
        assert(configured_before(outputs, k));
    }
}

proof fn lemma_no_suffix(s: Seq<char>, suffix: Seq<char>)
    requires
        suffix.len() > 0,
        s.len() > 0 ==> s.last() != suffix.last(),
    ensures
        without_suffixes(s, suffix) == s,
{
    if ends_with(s, suffix) {
        let end = s.skip(s.len() - suffix.len());
        assert(end.last() == s.last());
    }
}

/// The unit of a rate may be written or left out, and white space round either is
/// nothing: what is read is the number before it.
pub proof fn law_the_unit_of_a_rate_is_left_out(number: Seq<char>)
    requires
        number.len() > 0,
        !crate::text::is_space(number[0]),
        !crate::text::is_space(number.last()),
        number.last() != 'z',
    ensures
        rate_text(number) == number,
        rate_text(number + "Hz"@) == number,
        rate_text(number + "hz"@) == number,
{
    reveal_strlit("Hz");
    reveal_strlit("hz");
    let none = Seq::<char>::empty();
    let (big, small) = ("Hz"@, "hz"@);
    crate::text::law_only_the_ends_are_trimmed(none, number, none);
    assert(none + number + none =~= number);
    crate::text::law_only_the_ends_are_trimmed(none, number + big, none);
    assert(none + (number + big) + none =~= number + big);
    crate::text::law_only_the_ends_are_trimmed(none, number + small, none);
    assert(none + (number + small) + none =~= number + small);
    lemma_no_suffix(number, big);
    lemma_no_suffix(number, small);
    assert((number + big).skip(number.len() as int) =~= big);
    assert((number + big).take(number.len() as int) =~= number);
    assert((number + small).skip(number.len() as int) =~= small);
    assert((number + small).take(number.len() as int) =~= number);
    assert(without_suffixes(number + big, big) == without_suffixes(number, big));
    assert((number + small).skip(number.len() as int)[0] == 'h');
    assert(without_suffixes(number + small, big) == number + small);
    assert(without_suffixes(number + small, small) == without_suffixes(number, small));
}

/// A rate is shown in hertz, exactly: the digits behind the point, filled up to three,
/// are its millihertz, and the last of them is not zero.
pub proof fn law_rates_are_shown_exactly(mhz: u32)
    ensures
        mhz % 1000 == 0 ==> rate_shown(mhz) == decimal((mhz / 1000) as nat),
        mhz % 1000 != 0 ==> {
            let whole = decimal((mhz / 1000) as nat);
            let n = rate_shown(mhz).len() - whole.len() - 1;
            let part = rate_shown(mhz).skip(whole.len() as int + 1);
            &&& 1 <= n <= 3
            &&& rate_shown(mhz).take(whole.len() as int) == whole
            &&& rate_shown(mhz)[whole.len() as int] == '.'
            &&& part.last() != '0'
            &&& part[0] as int - 48 == mhz % 1000 / 100
            &&& n == 1 ==> mhz % 100 == 0
            &&& n >= 2 ==> part[1] as int - 48 == mhz % 100 / 10
            &&& n == 2 ==> mhz % 10 == 0
            &&& n == 3 ==> part[2] as int - 48 == mhz % 10
        },
{
    let whole = decimal((mhz / 1000) as nat);
    assert(rate_shown(mhz).take(whole.len() as int) =~= whole);
    assert(mhz % 1000 % 100 == mhz % 100);
    assert(mhz % 1000 % 10 == mhz % 10);
}

} // verus!
