//! Discovery of launchable sessions from XDG desktop entries.
//!
//! Wayland sessions come from `wayland-sessions` directories and X11 sessions
//! from `xsessions`. wdm launches an X11 session like any other command;
//! bringing up an X server is the session's own business.
use vstd::prelude::*;
use vstd::slice::slice_to_vec;
use vstd::utf8::encode_utf8;

use freedesktop_desktop_entry::DesktopEntry;

use crate::text::{
    from_chars, is_stable_order, join, joined, lemma_order_is_permutation, lemma_words_of_line,
    lists, maybe, position, same, slice, stable_order, strings, to_chars, trim, trimmed, views,
    words, words_of,
};
use crate::users::{byte_views, file_name, final_component, join_path, path_join};

verus! {

/// How a session expects to be displayed.
#[derive(Debug, Clone, Copy, PartialEq, Eq, Structural)]
pub enum SessionType {
    Wayland,
    X11,
}

/// A session wdm is willing to launch.
#[derive(Debug, PartialEq, Eq)]
pub struct Session {
    /// Stable identifier: the desktop file name, e.g. `hyprland.desktop`.
    pub id: String,
    /// Human readable name, localised where the entry provides translations.
    pub name: String,
    /// Command line with XDG field codes removed, ready to be run.
    pub command: String,
    pub session_type: SessionType,
    /// Where the entry was found, for diagnostics.
    pub path: String,
}

/// What a [`Session`] says, with strings as character sequences.
#[verifier::ext_equal]
pub struct SessionView {
    pub id: Seq<char>,
    pub name: Seq<char>,
    pub command: Seq<char>,
    pub session_type: SessionType,
    pub path: Seq<char>,
}

impl View for Session {
    type V = SessionView;

    open spec fn view(&self) -> SessionView {
        SessionView {
            id: self.id@,
            name: self.name@,
            command: self.command@,
            session_type: self.session_type,
            path: self.path@,
        }
    }
}

impl Clone for Session {
    fn clone(&self) -> (r: Self)
        ensures
            r == *self,
    {
        Session {
            id: self.id.clone(),
            name: self.name.clone(),
            command: self.command.clone(),
            session_type: self.session_type,
            path: self.path.clone(),
        }
    }
}

/// The name logind knows a session type by.
pub open spec fn xdg_type(t: SessionType) -> Seq<char> {
    match t {
        SessionType::Wayland => "wayland"@,
        SessionType::X11 => "x11"@,
    }
}

impl SessionType {
    /// The type that a logind name stands for; every name but `x11` is Wayland's.
    pub fn from_xdg(name: &str) -> (t: SessionType)
        ensures
            t == (if name@ == "x11"@ {
                SessionType::X11
            } else {
                SessionType::Wayland
            }),
    {
        if same(name, "x11") {
            SessionType::X11
        } else {
            SessionType::Wayland
        }
    }
}

/// A logind name read back is the type it was written for.
pub proof fn law_session_type_survives(t: SessionType)
    ensures
        t == (if xdg_type(t) == "x11"@ {
            SessionType::X11
        } else {
            SessionType::Wayland
        }),
{
    reveal_strlit("wayland");
    reveal_strlit("x11");
    assert("wayland"@.len() != "x11"@.len());
}

/// Whether `s` ends in `suffix`.
pub open spec fn ends_with(s: Seq<char>, suffix: Seq<char>) -> bool {
    suffix.len() <= s.len() && s.skip(s.len() - suffix.len()) == suffix
}

/// A desktop file name without its extension.
pub open spec fn desktop_name(id: Seq<char>) -> Seq<char> {
    if ends_with(id, ".desktop"@) {
        id.take(id.len() - 8)
    } else {
        id
    }
}

impl Session {
    /// `XDG_SESSION_TYPE` for this session.
    pub fn xdg_session_type(&self) -> (r: &'static str)
        ensures
            r@ == xdg_type(self.session_type),
    {
        match self.session_type {
            SessionType::Wayland => "wayland",
            SessionType::X11 => "x11",
        }
    }

    /// `XDG_SESSION_DESKTOP` for this session: the id without `.desktop`.
    pub fn xdg_session_desktop(&self) -> (r: String)
        ensures
            r@ == desktop_name(self.id@),
    {
        let id = to_chars(&self.id);
        proof {
            reveal_strlit(".desktop");
        }
        if id.len() >= 8 {
            let tail = slice(&id, id.len() - 8, id.len());
            proof {
                assert(tail@ =~= id@.skip(id@.len() - 8));
            }
            if same(&from_chars(&tail), ".desktop") {
                let head = slice(&id, 0, id.len() - 8);
                proof {
                    assert(head@ =~= id@.take(id@.len() - 8));
                }
                return from_chars(&head);
            }
        }
        self.id.clone()
    }
}

/// Directories searched for Wayland session entries, in order of precedence.
pub const WAYLAND_DIRS: [&'static str; 2] = [
    "/usr/local/share/wayland-sessions",
    "/usr/share/wayland-sessions",
];

/// Directories searched for X11 session entries, in order of precedence.
pub const X11_DIRS: [&'static str; 2] = ["/usr/local/share/xsessions", "/usr/share/xsessions"];

/// The directories to search and the type of what each holds, in order of
/// precedence: a Wayland session comes before an X11 one of the same id.
pub fn search_order() -> (r: Vec<(&'static str, SessionType)>)
    ensures
        r@.len() == 4,
        r@[0].0@ == "/usr/local/share/wayland-sessions"@,
        r@[0].1 == SessionType::Wayland,
        r@[1].0@ == "/usr/share/wayland-sessions"@,
        r@[1].1 == SessionType::Wayland,
        r@[2].0@ == "/usr/local/share/xsessions"@,
        r@[2].1 == SessionType::X11,
        r@[3].0@ == "/usr/share/xsessions"@,
        r@[3].1 == SessionType::X11,
{
    let mut r: Vec<(&'static str, SessionType)> = Vec::new();
    r.push((WAYLAND_DIRS[0], SessionType::Wayland));
    r.push((WAYLAND_DIRS[1], SessionType::Wayland));
    r.push((X11_DIRS[0], SessionType::X11));
    r.push((X11_DIRS[1], SessionType::X11));
    r
}

/// A command line without field codes: a percent sign and the character after it
/// are gone, but for `%%`, which stands for one percent sign.
pub open spec fn without_codes(s: Seq<char>) -> Seq<char>
    decreases s.len(),
{
    if s.len() == 0 {
        seq![]
    } else if s[0] != '%' {
        seq![s[0]] + without_codes(s.skip(1))
    } else if s.len() == 1 {
        seq![]
    } else if s[1] == '%' {
        seq!['%'] + without_codes(s.skip(2))
    } else {
        without_codes(s.skip(2))
    }
}

/// An `Exec` line without its field codes, as one line of words.
pub open spec fn stripped(command: Seq<char>) -> Seq<char> {
    joined(words_of(without_codes(command)), ' ')
}

/// A command line in which every percent sign is escaped.
pub open spec fn escaped(s: Seq<char>) -> Seq<char>
    decreases s.len(),
{
    if s.len() == 0 {
        seq![]
    } else if s[0] == '%' {
        seq!['%', '%'] + escaped(s.skip(1))
    } else {
        seq![s[0]] + escaped(s.skip(1))
    }
}

proof fn lemma_escaped(s: Seq<char>)
    ensures
        without_codes(escaped(s)) == s,
    decreases s.len(),
{
    if s.len() > 0 {
        lemma_escaped(s.skip(1));
        if s[0] == '%' {
            assert(escaped(s).skip(2) =~= escaped(s.skip(1)));
        } else {
            assert(escaped(s).skip(1) =~= escaped(s.skip(1)));
        }
        assert(seq![s[0]] + s.skip(1) =~= s);
    }
}

/// A line of words comes back from an `Exec` line that has its percent signs
/// escaped: nothing that is not a field code is lost.
pub proof fn law_an_escaped_line_comes_back(line: Seq<char>)
    requires
        joined(words_of(line), ' ') == line,
    ensures
        stripped(escaped(line)) == line,
{
    lemma_escaped(line);
}

/// What is left of an `Exec` line is one line of words: stripping its escaped form
/// again changes nothing.
pub proof fn law_a_stripped_line_is_one_line_of_words(command: Seq<char>)
    ensures
        joined(words_of(stripped(command)), ' ') == stripped(command),
        stripped(escaped(stripped(command))) == stripped(command),
{
    lemma_words_of_line(without_codes(command));
    law_an_escaped_line_comes_back(stripped(command));
}

/// Remove XDG field codes from an `Exec` line.
///
/// A session has no file or URL to substitute, so every code, known or not, stands
/// for nothing. What is left is one line of words, because a code that stood
/// between arguments must not leave an empty one behind.
pub fn strip_field_codes(command: &str) -> (r: String)
    ensures
        r@ == stripped(command@),
{
    let chars = to_chars(command);
    let mut out: Vec<char> = Vec::new();
    let mut i: usize = 0;
    proof {
        assert(chars@.skip(0) =~= chars@);
        assert(out@ + without_codes(chars@) =~= without_codes(chars@));
    }
    while i < chars.len()
        invariant
            i <= chars@.len(),
            without_codes(chars@) == out@ + without_codes(chars@.skip(i as int)),
        decreases chars@.len() - i,
    {
        let ghost rest = chars@.skip(i as int);
        let ghost before = out@;
        if chars[i] != '%' {
            out.push(chars[i]);
            i += 1;
            proof {
                assert(rest.skip(1) =~= chars@.skip(i as int));
                assert(before + without_codes(rest) =~= out@ + without_codes(rest.skip(1)));
            }
        } else if i + 1 < chars.len() {
            if chars[i + 1] == '%' {
                out.push('%');
            }
            i += 2;
            proof {
                assert(rest.skip(2) =~= chars@.skip(i as int));
                assert(before + without_codes(rest) =~= out@ + without_codes(rest.skip(2)));
            }
        } else {
            i += 1;
            proof {
                assert(without_codes(rest) =~= seq![]);
                assert(chars@.skip(i as int) =~= seq![]);
            }
        }
    }
    proof {
        assert(chars@.skip(i as int) =~= seq![]);
        assert(without_codes(chars@) =~= out@);
    }
    join(&words(&out), ' ')
}

/// What of a desktop entry decides on a session.
#[derive(Debug)]
pub struct Entry {
    pub hidden: bool,
    pub no_display: bool,
    /// A binary whose absence means that the session is not installed.
    pub try_exec: Option<String>,
    pub command: Option<String>,
    pub name: Option<String>,
}

impl Entry {
    /// The keys of the entry: hidden, not displayed, the binary to try, the command
    /// and the name.
    pub open spec fn keys(&self) -> (
        bool,
        bool,
        Option<Seq<char>>,
        Option<Seq<char>>,
        Option<Seq<char>>,
    ) {
        (
            self.hidden,
            self.no_display,
            maybe(self.try_exec),
            maybe(self.command),
            maybe(self.name),
        )
    }
}

/// What the text of a desktop file at a path says, to a reader of some languages:
/// whether it is hidden, whether it is not to be displayed, the binary to try, the
/// command and the name. Where it is no desktop entry, why it is none. The system's
/// message catalogues have no say in the name, since the parser is built without
/// its `gettext` feature.
pub uninterp spec fn entry_in(
    path: Seq<char>,
    text: Seq<char>,
    locales: Seq<Seq<char>>,
) -> Result<(bool, bool, Option<Seq<char>>, Option<Seq<char>>, Option<Seq<char>>), Seq<char>>;

/// Reads a desktop entry.
///
/// Calls `DesktopEntry::from_str` of freedesktop-desktop-entry and takes from its
/// result what `hidden`, `no_display`, `try_exec`, `exec` and `name` return, or the
/// text of its error. Claims that all of them depend on nothing but the path, the
/// text and the locales. That holds of the crate without its `gettext` feature, as
/// it is built here: with the feature, `name` would also ask the system's message
/// catalogues.
#[verifier::external_body]
fn parse_entry(path: &str, text: &str, locales: &Vec<String>) -> (r: Result<Entry, String>)
    ensures
        match r {
            Ok(entry) => entry_in(path@, text@, strings(locales@)) matches Ok(keys) && keys
                == entry.keys(),
            Err(e) => entry_in(path@, text@, strings(locales@)) matches Err(why) && why == e@,
        },
{
    match DesktopEntry::from_str(path, text, Some(locales.as_slice())) {
        Ok(entry) => Ok(
            Entry {
                hidden: entry.hidden(),
                no_display: entry.no_display(),
                try_exec: entry.try_exec().map(|s| s.to_owned()),
                command: entry.exec().map(|s| s.to_owned()),
                name: entry.name(locales.as_slice()).map(|s| s.into_owned()),
            },
        ),
        Err(e) => Err(e.to_string()),
    }
}

/// A session that is offered if the binary it names is there.
#[derive(Debug)]
pub struct Candidate {
    pub try_exec: Option<String>,
    /// The session, or why the entry makes none.
    pub session: Result<Session, String>,
}

/// The session that an entry makes, or why it makes none.
pub open spec fn session_from(
    path: Seq<char>,
    session_type: SessionType,
    command: Option<Seq<char>>,
    name: Option<Seq<char>>,
) -> Result<SessionView, Seq<char>> {
    match command {
        None => Err("entry has no Exec key"@),
        Some(line) => {
            let stripped = joined(words_of(without_codes(line)), ' ');
            if trimmed(stripped).len() == 0 {
                Err("Exec key is empty"@)
            } else {
                match final_component(path) {
                    None => Err("desktop file name is not valid UTF-8"@),
                    Some(id) => Ok(
                        SessionView {
                            id,
                            name: match name {
                                Some(name) => name,
                                None => id,
                            },
                            command: stripped,
                            session_type,
                            path,
                        },
                    ),
                }
            }
        },
    }
}

/// The view of a session that may not be one.
pub open spec fn outcome(r: Result<Session, String>) -> Result<SessionView, Seq<char>> {
    match r {
        Ok(session) => Ok(session@),
        Err(why) => Err(why@),
    }
}

/// What an entry offers, whatever it says: nothing where it asks not to be shown,
/// else a session that depends on the binary it names.
///
/// A session without a name is still launchable, and is shown by its file name.
pub fn offer(path: &str, entry: Entry, session_type: SessionType) -> (r: Option<Candidate>)
    ensures
        match r {
            None => entry.hidden || entry.no_display,
            Some(c) => {
                &&& !entry.hidden && !entry.no_display
                &&& maybe(c.try_exec) == maybe(entry.try_exec)
                &&& outcome(c.session) == session_from(
                    path@,
                    session_type,
                    maybe(entry.command),
                    maybe(entry.name),
                )
            },
        },
{
    if entry.hidden || entry.no_display {
        return None;
    }
    let Entry { hidden: _, no_display: _, try_exec, command, name } = entry;
    let line = match command {
        Some(line) => line,
        None => {
            return Some(
                Candidate { try_exec, session: Err("entry has no Exec key".to_owned()) },
            );
        },
    };
    let stripped = strip_field_codes(&line);
    if trim(&to_chars(&stripped)).len() == 0 {
        return Some(Candidate { try_exec, session: Err("Exec key is empty".to_owned()) });
    }
    let id = match file_name(path) {
        Some(id) => id,
        None => {
            return Some(
                Candidate {
                    try_exec,
                    session: Err("desktop file name is not valid UTF-8".to_owned()),
                },
            );
        },
    };
    let shown: String = match name {
        Some(name) => name,
        None => id.clone(),
    };
    Some(
        Candidate {
            try_exec,
            session: Ok(
                Session { id, name: shown, command: stripped, session_type, path: path.to_owned() },
            ),
        },
    )
}

/// Load the desktop entry that a file holds.
pub fn load(path: &str, text: &str, session_type: SessionType, locales: &Vec<String>) -> (r: Result<
    Option<Candidate>,
    String,
>)
    ensures
        match (r, entry_in(path@, text@, strings(locales@))) {
            (Err(e), Err(why)) => e@ == why,
            (Ok(None), Ok((hidden, no_display, _, _, _))) => hidden || no_display,
            (Ok(Some(c)), Ok((hidden, no_display, try_exec, command, name))) => {
                &&& !hidden && !no_display
                &&& maybe(c.try_exec) == try_exec
                &&& outcome(c.session) == session_from(path@, session_type, command, name)
            },
            _ => false,
        },
{
    match parse_entry(path, text, locales) {
        Ok(entry) => Ok(offer(path, entry, session_type)),
        Err(e) => Err(e),
    }
}

impl Candidate {
    /// Decide, once it is known whether the binary is there.
    ///
    /// An entry whose binary is gone is no error: packages leave theirs in place.
    pub fn settle(self, installed: bool) -> (r: Result<Option<Session>, String>)
        ensures
            match r {
                Ok(None) => self.try_exec is Some && !installed,
                Ok(Some(session)) => !(self.try_exec is Some && !installed) && self.session == Ok::<
                    Session,
                    String,
                >(session),
                Err(e) => !(self.try_exec is Some && !installed) && self.session == Err::<
                    Session,
                    String,
                >(e),
            },
    {
        if self.try_exec.is_some() && !installed {
            return Ok(None);
        }
        match self.session {
            Ok(session) => Ok(Some(session)),
            Err(e) => Err(e),
        }
    }
}

/// The pieces of a byte string between separators.
pub open spec fn pieces(s: Seq<u8>, sep: u8) -> Seq<Seq<u8>>
    decreases s.len(),
{
    if s.len() == 0 {
        seq![seq![]]
    } else {
        let before = pieces(s.drop_last(), sep);
        if s.last() == sep {
            before.push(seq![])
        } else {
            before.drop_last().push(before.last().push(s.last()))
        }
    }
}

/// The pieces of a byte string between separators.
pub fn split(v: &[u8], sep: u8) -> (r: Vec<Vec<u8>>)
    ensures
        byte_views(r@) == pieces(v@, sep),
{
    let mut r: Vec<Vec<u8>> = Vec::new();
    let mut piece: Vec<u8> = Vec::new();
    proof {
        assert(byte_views(r@).push(piece@) =~= pieces(v@.take(0), sep));
    }
    for i in 0..v.len()
        invariant
            byte_views(r@).push(piece@) == pieces(v@.take(i as int), sep),
    {
        let ghost before = byte_views(r@);
        let ghost last = piece@;
        proof {
            assert(v@.take(i as int + 1).drop_last() =~= v@.take(i as int));
            assert(before.push(last).drop_last() =~= before);
        }
        if v[i] == sep {
            r.push(piece);
            piece = Vec::new();
            assert(byte_views(r@) =~= before.push(last));
            assert(piece@ =~= seq![]);
        } else {
            piece.push(v[i]);
        }
    }
    let ghost before = byte_views(r@);
    let ghost last = piece@;
    r.push(piece);
    proof {
        assert(byte_views(r@) =~= before.push(last));
        assert(v@.take(v@.len() as int) =~= v@);
    }
    r
}

/// Where a binary may be found: itself where it is absolute, else below every
/// directory of the search path.
pub open spec fn binary_places(try_exec: Seq<u8>, search: Option<Seq<u8>>) -> Seq<Seq<u8>> {
    if try_exec.len() > 0 && try_exec[0] == 47 {
        seq![try_exec]
    } else {
        match search {
            None => seq![],
            Some(path) => {
                let dirs = pieces(path, 58);
                Seq::new(dirs.len(), |i: int| path_join(dirs[i], try_exec))
            },
        }
    }
}

/// The files of which one must be there for a binary to be installed. The search
/// path is as the system has it, which need not be text.
pub fn binary_candidates(try_exec: &str, search: Option<&[u8]>) -> (r: Vec<Vec<u8>>)
    ensures
        byte_views(r@) == binary_places(
            encode_utf8(try_exec@),
            match search {
                Some(path) => Some(path@),
                None => None,
            },
        ),
{
    let binary = try_exec.as_bytes();
    let mut r: Vec<Vec<u8>> = Vec::new();
    if binary.len() > 0 && binary[0] == 47 {
        r.push(slice_to_vec(binary));
        assert(byte_views(r@) =~= seq![binary@]);
        return r;
    }
    match search {
        None => {
            assert(byte_views(r@) =~= seq![]);
            r
        },
        Some(path) => {
            let dirs = split(path, 58);
            for i in 0..dirs.len()
                invariant
                    r@.len() == i,
                    forall|j: int|
                        0 <= j < i ==> (#[trigger] r@[j])@ == path_join(dirs@[j]@, binary@),
            {
                r.push(join_path(&dirs[i], binary));
            }
            assert(byte_views(r@) =~= binary_places(binary@, Some(path@)));
            r
        },
    }
}

/// Whether a path is a desktop file's, by its extension.
pub open spec fn is_desktop_file(path: Seq<char>) -> bool {
    match final_component(path) {
        Some(name) => ends_with(name, ".desktop"@) && name.len() > 8,
        None => false,
    }
}

/// Whether a path is a desktop file's, by its extension.
pub fn has_desktop_extension(path: &str) -> (r: bool)
    ensures
        r == is_desktop_file(path@),
{
    proof {
        reveal_strlit(".desktop");
    }
    match file_name(path) {
        Some(name) => {
            let chars = to_chars(&name);
            if chars.len() <= 8 {
                return false;
            }
            let tail = slice(&chars, chars.len() - 8, chars.len());
            assert(tail@ =~= name@.skip(name@.len() - 8));
            same(&from_chars(&tail), ".desktop")
        },
        None => false,
    }
}

/// The views of sessions.
pub open spec fn session_views(v: Seq<Session>) -> Seq<SessionView> {
    Seq::new(v.len(), |i: int| v[i]@)
}

/// The ids of sessions.
pub open spec fn ids(v: Seq<SessionView>) -> Seq<Seq<char>> {
    Seq::new(v.len(), |i: int| v[i].id)
}

/// The names of sessions.
pub open spec fn names(v: Seq<SessionView>) -> Seq<Seq<char>> {
    Seq::new(v.len(), |i: int| v[i].name)
}

/// `r` holds the sessions of `v` in some order of their indices.
pub open spec fn reordered(v: Seq<SessionView>, order: Seq<usize>, r: Seq<SessionView>) -> bool {
    &&& r.len() == order.len()
    &&& forall|i: int| 0 <= i < r.len() ==> #[trigger] r[i] == v[order[i] as int]
}

/// `r` is `v` in the order of the keys, those of equal keys as they were.
pub open spec fn is_sorted(v: Seq<SessionView>, keys: Seq<Seq<char>>, r: Seq<SessionView>) -> bool {
    exists|order: Seq<usize>| #[trigger] is_stable_order(keys, order) && reordered(v, order, r)
}

/// Sessions in another order.
fn arrange(v: &Vec<Session>, keys: &Vec<Vec<char>>) -> (r: Vec<Session>)
    requires
        keys@.len() == v@.len(),
    ensures
        is_sorted(session_views(v@), views(keys@), session_views(r@)),
{
    let order = stable_order(keys);
    let mut r: Vec<Session> = Vec::new();
    for i in 0..order.len()
        invariant
            keys@.len() == v@.len(),
            is_stable_order(views(keys@), order@),
            r@.len() == i,
            forall|j: int| 0 <= j < i ==> (#[trigger] r@[j])@ == v@[order@[j] as int]@,
    {
        assert(order@[i as int] < keys@.len());
        let k: usize = order[i];
        r.push(v[k].clone());
    }
    proof {
        let vs = session_views(v@);
        let rs = session_views(r@);
        assert forall|i: int| 0 <= i < rs.len() implies #[trigger] rs[i] == vs[order@[i] as int] by {
            assert(order@[i] < keys@.len());
            assert(rs[i] == r@[i]@);
        }
        assert(reordered(vs, order@, rs));
    }
    r
}

/// The sessions of one directory, in the order of their ids: a directory is listed
/// in no order that is the same on another machine.
pub fn scanned(found: &Vec<Session>) -> (r: Vec<Session>)
    ensures
        is_sorted(session_views(found@), ids(session_views(found@)), session_views(r@)),
{
    let mut keys: Vec<Vec<char>> = Vec::new();
    for i in 0..found.len()
        invariant
            keys@.len() == i,
            forall|j: int| 0 <= j < i ==> (#[trigger] keys@[j])@ == found@[j].id@,
    {
        keys.push(to_chars(&found[i].id));
    }
    assert(views(keys@) =~= ids(session_views(found@)));
    arrange(found, &keys)
}

/// Whether a session of an id is among some.
pub open spec fn has_id(v: Seq<SessionView>, id: Seq<char>) -> bool {
    exists|i: int| 0 <= i < v.len() && (#[trigger] v[i]).id == id
}

/// The first session of each id.
pub open spec fn first_of_id(v: Seq<SessionView>) -> Seq<SessionView>
    decreases v.len(),
{
    if v.len() == 0 {
        seq![]
    } else {
        let rest = first_of_id(v.drop_last());
        if has_id(rest, v.last().id) {
            rest
        } else {
            rest.push(v.last())
        }
    }
}

/// The sessions of all directories, one directory after the other.
pub open spec fn all_of(dirs: Seq<Vec<Session>>) -> Seq<SessionView>
    decreases dirs.len(),
{
    if dirs.len() == 0 {
        seq![]
    } else {
        all_of(dirs.drop_last()) + session_views(dirs.last()@)
    }
}

/// Whether a session of an id is among some.
fn knows(found: &Vec<Session>, id: &str) -> (r: bool)
    ensures
        r == has_id(session_views(found@), id@),
{
    for i in 0..found.len()
        invariant
            forall|j: int| 0 <= j < i ==> (#[trigger] session_views(found@)[j]).id != id@,
    {
        if same(&found[i].id, id) {
            assert(session_views(found@)[i as int].id == id@);
            return true;
        }
    }
    false
}

/// Add the sessions of one directory to those of the directories before it.
fn add_dir(found: &mut Vec<Session>, dir: &Vec<Session>, Ghost(before): Ghost<Seq<SessionView>>)
    requires
        session_views(old(found)@) == first_of_id(before),
    ensures
        session_views(final(found)@) == first_of_id(before + session_views(dir@)),
{
    let ghost ds = session_views(dir@);
    assert(before + ds.take(0) =~= before);
    for i in 0..dir.len()
        invariant
            ds == session_views(dir@),
            session_views(found@) == first_of_id(before + ds.take(i as int)),
    {
        proof {
            let next = before + ds.take(i as int + 1);
            assert(next.drop_last() =~= before + ds.take(i as int));
            assert(next.last() == ds[i as int]);
        }
        if !knows(found, &dir[i].id) {
            let ghost old_found = found@;
            found.push(dir[i].clone());
            assert(session_views(found@) =~= session_views(old_found).push(ds[i as int]));
        }
    }
    assert(ds.take(dir@.len() as int) =~= ds);
}

/// The sessions to offer, out of those of every directory.
///
/// A directory that is searched earlier wins, so a session dropped into a local
/// directory overrides the distribution's of the same id. The list is in the order
/// of names.
pub fn discover(dirs: &Vec<Vec<Session>>) -> (r: Vec<Session>)
    ensures
        is_sorted(
            first_of_id(all_of(dirs@)),
            names(first_of_id(all_of(dirs@))),
            session_views(r@),
        ),
{
    let mut found: Vec<Session> = Vec::new();
    assert(session_views(found@) =~= first_of_id(all_of(dirs@.take(0))));
    for i in 0..dirs.len()
        invariant
            session_views(found@) == first_of_id(all_of(dirs@.take(i as int))),
    {
        proof {
            assert(dirs@.take(i as int + 1).drop_last() =~= dirs@.take(i as int));
        }
        add_dir(&mut found, &dirs[i], Ghost(all_of(dirs@.take(i as int))));
    }
    assert(dirs@.take(dirs@.len() as int) =~= dirs@);
    let mut keys: Vec<Vec<char>> = Vec::new();
    for i in 0..found.len()
        invariant
            keys@.len() == i,
            forall|j: int| 0 <= j < i ==> (#[trigger] keys@[j])@ == found@[j].name@,
    {
        keys.push(to_chars(&found[i].name));
    }
    assert(views(keys@) =~= names(session_views(found@)));
    arrange(&found, &keys)
}

/// What [`first_of_id`] keeps: of each id the first, and nothing twice.
proof fn lemma_first_of_id(v: Seq<SessionView>)
    ensures
        forall|i: int, j: int|
            0 <= i < j < first_of_id(v).len() ==> (#[trigger] first_of_id(v)[i]).id != (
            #[trigger] first_of_id(v)[j]).id,
        forall|id: Seq<char>| #[trigger] has_id(first_of_id(v), id) <==> has_id(v, id),
        forall|i: int|
            0 <= i < first_of_id(v).len() ==> is_first(v, #[trigger] first_of_id(v)[i]),
    decreases v.len(),
{
    if v.len() > 0 {
        let init = v.drop_last();
        let rest = first_of_id(init);
        let last = v.last();
        lemma_first_of_id(init);
        let kept = first_of_id(v);
        assert forall|id: Seq<char>| #[trigger] has_id(kept, id) == has_id(v, id) by {
            if has_id(v, id) {
                let i = choose|i: int| 0 <= i < v.len() && (#[trigger] v[i]).id == id;
                if i < init.len() {
                    assert(init[i].id == id);
                    assert(has_id(init, id));
                    assert(has_id(rest, id));
                    let k = choose|k: int| 0 <= k < rest.len() && (#[trigger] rest[k]).id == id;
                    assert(kept[k].id == id);
                } else if has_id(rest, last.id) {
                    let k = choose|k: int| 0 <= k < rest.len() && (#[trigger] rest[k]).id == id;
                    assert(kept[k].id == id);
                } else {
                    assert(kept[kept.len() - 1].id == id);
                }
            }
            if has_id(kept, id) {
                let k = choose|k: int| 0 <= k < kept.len() && (#[trigger] kept[k]).id == id;
                if k < rest.len() {
                    assert(rest[k].id == id);
                    assert(has_id(rest, id));
                    let i = choose|i: int| 0 <= i < init.len() && (#[trigger] init[i]).id == id;
                    assert(v[i].id == id);
                } else {
                    assert(v[v.len() - 1].id == id);
                }
            }
        }
        assert forall|i: int, j: int| 0 <= i < j < kept.len() implies (#[trigger] kept[i]).id != (
        #[trigger] kept[j]).id by {
            if j < rest.len() {
                assert(rest[i].id != rest[j].id);
            } else {
                assert(rest[i].id != last.id);
            }
        }
        assert forall|i: int| 0 <= i < kept.len() implies is_first(v, #[trigger] kept[i]) by {
            if i < rest.len() {
                assert(is_first(init, rest[i]));
                let k = choose|k: int| #[trigger] first_at(init, rest[i], k);
                assert(first_at(v, kept[i], k)) by {
                    assert(v[k] == init[k]);
                    assert forall|j: int| 0 <= j < k implies (#[trigger] v[j]).id != kept[i].id by {
                        assert(init[j].id != rest[i].id);
                    }
                }
            } else {
                let n = v.len() - 1;
                assert(first_at(v, kept[i], n)) by {
                    assert forall|j: int| 0 <= j < n implies (#[trigger] v[j]).id != last.id by {
                        if v[j].id == last.id {
                            assert(init[j].id == last.id);
                            assert(has_id(init, last.id));
                        }
                    }
                }
            }
        }
    }
}

/// The session at a position is the first of its id.
pub open spec fn first_at(v: Seq<SessionView>, s: SessionView, k: int) -> bool {
    &&& 0 <= k < v.len()
    &&& v[k] == s
    &&& forall|j: int| 0 <= j < k ==> (#[trigger] v[j]).id != s.id
}

/// A session is the first of its id among some.
pub open spec fn is_first(v: Seq<SessionView>, s: SessionView) -> bool {
    exists|k: int| #[trigger] first_at(v, s, k)
}

/// Every session that was found is offered under its id exactly once, and the one
/// that is offered is the first that was found: an earlier directory overrides a
/// later one.
pub proof fn law_earlier_directories_win(all: Seq<SessionView>, r: Seq<SessionView>)
    requires
        is_sorted(first_of_id(all), names(first_of_id(all)), r),
    ensures
        forall|id: Seq<char>| #[trigger] has_id(r, id) <==> has_id(all, id),
        forall|i: int, j: int|
            0 <= i < j < r.len() ==> (#[trigger] r[i]).id != (#[trigger] r[j]).id,
        forall|i: int| 0 <= i < r.len() ==> is_first(all, #[trigger] r[i]),
{
    let kept = first_of_id(all);
    let keys = names(kept);
    lemma_first_of_id(all);
    let order = choose|order: Seq<usize>| #[trigger]
        is_stable_order(keys, order) && reordered(kept, order, r);
    lemma_order_is_permutation(keys, order);
    assert forall|i: int| 0 <= i < r.len() implies 0 <= order[i] < kept.len() && #[trigger] r[i]
        == kept[order[i] as int] by {
        assert(order[i] < keys.len());
    }
    assert forall|id: Seq<char>| #[trigger] has_id(r, id) == has_id(all, id) by {
        if has_id(r, id) {
            let i = choose|i: int| 0 <= i < r.len() && (#[trigger] r[i]).id == id;
            assert(kept[order[i] as int].id == id);
            assert(has_id(kept, id));
        }
        if has_id(all, id) {
            assert(has_id(kept, id));
            let k = choose|k: int| 0 <= k < kept.len() && (#[trigger] kept[k]).id == id;
            assert(lists(order, k));
            let a = choose|a: int| 0 <= a < order.len() && #[trigger] order[a] == k;
            assert(r[a].id == id);
        }
    }
    assert forall|i: int, j: int| 0 <= i < j < r.len() implies (#[trigger] r[i]).id != (
    #[trigger] r[j]).id by {
        let a = order[i] as int;
        let b = order[j] as int;
        assert(order[i] != order[j]);
        if a < b {
            assert(kept[a].id != kept[b].id);
        } else {
            assert(kept[b].id != kept[a].id);
        }
    }
    assert forall|i: int| 0 <= i < r.len() implies is_first(all, #[trigger] r[i]) by {
        assert(is_first(all, kept[order[i] as int]));
    }
}

/// How a session type is named in the environment.
pub proof fn law_session_types_are_named()
    ensures
        forall|t: SessionType| #[trigger] xdg_type(t) == "x11"@ <==> t == SessionType::X11,
        forall|t: SessionType| #[trigger] xdg_type(t) == "wayland"@ <==> t == SessionType::Wayland,
{
    reveal_strlit("wayland");
    reveal_strlit("x11");
    assert("wayland"@.len() != "x11"@.len());
    assert forall|t: SessionType| #[trigger] xdg_type(t) == "x11"@ <==> t == SessionType::X11 by {
        match t {
            SessionType::X11 => {},
            SessionType::Wayland => {},
        }
    }
}

/// A session's desktop is its id without the extension, and an id without one is
/// its own desktop.
pub proof fn law_the_desktop_is_the_id_without_its_extension(stem: Seq<char>, id: Seq<char>)
    ensures
        desktop_name(stem + ".desktop"@) == stem,
        (forall|s: Seq<char>| id != #[trigger] (s + ".desktop"@)) ==> desktop_name(id) == id,
{
    reveal_strlit(".desktop");
    let whole = stem + ".desktop"@;
    assert(whole.skip(whole.len() - 8) =~= ".desktop"@);
    assert(whole.take(whole.len() - 8) =~= stem);
    if ends_with(id, ".desktop"@) {
        let s = id.take(id.len() - 8);
        assert(id =~= s + ".desktop"@);
    }
}

/// A command line without a percent sign stays as it is; a field code is deleted
/// with its percent sign, and a doubled percent sign becomes one.
pub proof fn law_field_codes_are_deleted(plain: Seq<char>, code: char, rest: Seq<char>)
    requires
        !plain.contains('%'),
    ensures
        without_codes(plain) == plain,
        code != '%' ==> without_codes(plain + seq!['%', code] + rest) == plain + without_codes(
            rest,
        ),
        without_codes(plain + seq!['%', '%'] + rest) == plain.push('%') + without_codes(rest),
        without_codes(plain.push('%')) == plain,
    decreases plain.len(),
{
    let one = plain + seq!['%', code] + rest;
    let two = plain + seq!['%', '%'] + rest;
    if plain.len() == 0 {
        assert(plain =~= seq![]);
        assert(one.skip(2) =~= rest);
        assert(two.skip(2) =~= rest);
        assert(one[0] == '%' && one[1] == code);
        assert(two[0] == '%' && two[1] == '%');
        assert(plain + without_codes(rest) =~= without_codes(rest));
        assert(plain.push('%') =~= seq!['%']);
    } else {
        let less = plain.skip(1);
        assert forall|i: int| 0 <= i < less.len() implies less[i] != '%' by {
            assert(less[i] == plain[i + 1]);
            assert(plain.contains(plain[i + 1]));
        }
        assert(plain.contains(plain[0]));
        law_field_codes_are_deleted(less, code, rest);
        assert(one.skip(1) =~= less + seq!['%', code] + rest);
        assert(two.skip(1) =~= less + seq!['%', '%'] + rest);
        assert(plain.push('%').skip(1) =~= less.push('%'));
        assert(seq![plain[0]] + less =~= plain);
        assert(seq![plain[0]] + (less + without_codes(rest)) =~= plain + without_codes(rest));
        assert(seq![plain[0]] + (less.push('%') + without_codes(rest)) =~= plain.push('%')
            + without_codes(rest));
    }
}

/// What a desktop entry makes a session of: its id is the name of the file, its name
/// that of the entry or else the file's, its command the entry's without field
/// codes, and type and path are as the entry was found. There is no session if and
/// only if there is no command, nothing is left of it, or the file has no name.
pub proof fn law_a_session_is_what_its_entry_says(
    path: Seq<char>,
    session_type: SessionType,
    command: Option<Seq<char>>,
    name: Option<Seq<char>>,
)
    ensures
        session_from(path, session_type, command, name) is Ok <==> command is Some
            && final_component(path) is Some && exists|i: int|
            0 <= i < stripped(command->0).len() && !crate::text::is_space(
                #[trigger] stripped(command->0)[i],
            ),
        session_from(path, session_type, command, name) matches Ok(session) ==> {
            &&& final_component(path) == Some(session.id)
            &&& session.command == stripped(command->0)
            &&& session.session_type == session_type
            &&& session.path == path
            &&& name is Some ==> session.name == name->0
            &&& name is None ==> session.name == session.id
        },
{
    if command is Some {
        crate::text::lemma_trimmed_is_empty(stripped(command->0));
    }
}

/// A path is a desktop file's if and only if the last component is a name followed
/// by the extension.
pub proof fn law_desktop_files_have_the_extension(path: Seq<char>)
    ensures
        is_desktop_file(path) <==> exists|stem: Seq<char>|
            stem.len() > 0 && final_component(path) == Some(#[trigger] (stem + ".desktop"@)),
{
    reveal_strlit(".desktop");
    if is_desktop_file(path) {
        let name = final_component(path)->0;
        let stem = name.take(name.len() - 8);
        assert(name =~= stem + ".desktop"@);
    }
    if exists|stem: Seq<char>|
        stem.len() > 0 && final_component(path) == Some(#[trigger] (stem + ".desktop"@)) {
        let stem = choose|stem: Seq<char>|
            stem.len() > 0 && final_component(path) == Some(#[trigger] (stem + ".desktop"@));
        let name = stem + ".desktop"@;
        assert(name.skip(name.len() - 8) =~= ".desktop"@);
    }
}

/// A search path is cut at every separator and nowhere else.
pub proof fn law_a_search_path_is_cut_at_its_separators(piece: Seq<u8>, rest: Seq<u8>, sep: u8)
    requires
        !piece.contains(sep),
    ensures
        pieces(piece, sep) == seq![piece],
        pieces(piece.push(sep) + rest, sep) == seq![piece] + pieces(rest, sep),
    decreases piece.len() + rest.len(),
{
    let whole = piece.push(sep) + rest;
    if piece.len() > 0 {
        let init = piece.drop_last();
        assert forall|i: int| 0 <= i < init.len() implies init[i] != sep by {
            assert(piece.contains(piece[i]));
        }
        assert(piece.contains(piece[piece.len() - 1]));
        law_a_search_path_is_cut_at_its_separators(init, seq![], sep);
        assert(init.push(piece.last()) =~= piece);
        assert(pieces(piece, sep) =~= seq![piece]);
    } else {
        assert(piece =~= seq![]);
    }
    if rest.len() > 0 {
        let init = rest.drop_last();
        law_a_search_path_is_cut_at_its_separators(piece, init, sep);
        assert(whole.drop_last() =~= piece.push(sep) + init);
        assert(whole.last() == rest.last());
        lemma_pieces_are_some(init, sep);
        let b = pieces(init, sep);
        assert((seq![piece] + b).drop_last() =~= seq![piece] + b.drop_last());
        assert((seq![piece] + b).last() == b.last());
        assert(pieces(whole, sep) =~= seq![piece] + pieces(rest, sep));
    } else {
        assert(whole.drop_last() =~= piece);
        assert(whole.last() == sep);
        assert(rest =~= seq![]);
        assert(pieces(whole, sep) =~= seq![piece] + pieces(rest, sep));
    }
}

proof fn lemma_pieces_are_some(s: Seq<u8>, sep: u8)
    ensures
        pieces(s, sep).len() > 0,
    decreases s.len(),
{
    if s.len() > 0 {
        lemma_pieces_are_some(s.drop_last(), sep);
    }
}

/// A binary is looked for at its own path where that is absolute, and otherwise once
/// below each directory of the search path, in order.
pub proof fn law_where_a_binary_is_looked_for(binary: Seq<u8>, path: Seq<u8>)
    ensures
        binary.len() > 0 && binary[0] == 47 ==> binary_places(binary, Some(path)) == seq![binary]
            && binary_places(binary, None) == seq![binary],
        binary.len() == 0 || binary[0] != 47 ==> {
            &&& binary_places(binary, None).len() == 0
            &&& binary_places(binary, Some(path)).len() == pieces(path, 58).len()
            &&& forall|i: int|
                0 <= i < pieces(path, 58).len() ==> #[trigger] binary_places(
                    binary,
                    Some(path),
                )[i] == path_join(pieces(path, 58)[i], binary)
        },
{
}

/// A session on offer was found, as it is, and none of its id was found before it.
pub proof fn law_a_session_on_offer_was_found_first(
    all: Seq<SessionView>,
    r: Seq<SessionView>,
    i: int,
)
    requires
        is_sorted(first_of_id(all), names(first_of_id(all)), r),
        0 <= i < r.len(),
    ensures
        exists|k: int|
            0 <= k < all.len() && #[trigger] all[k] == r[i] && forall|j: int|
                0 <= j < k ==> (#[trigger] all[j]).id != r[i].id,
{
    law_earlier_directories_win(all, r);
    assert(is_first(all, r[i]));
    let k = choose|k: int| #[trigger] first_at(all, r[i], k);
    assert(all[k] == r[i]);
}

/// Every id that was found is on offer, and no id is on offer twice.
pub proof fn law_every_session_is_on_offer_once(
    all: Seq<SessionView>,
    r: Seq<SessionView>,
    k: int,
)
    requires
        is_sorted(first_of_id(all), names(first_of_id(all)), r),
        0 <= k < all.len(),
    ensures
        exists|i: int| 0 <= i < r.len() && (#[trigger] r[i]).id == all[k].id,
        forall|i: int, j: int|
            0 <= i < j < r.len() ==> (#[trigger] r[i]).id != (#[trigger] r[j]).id,
{
    law_earlier_directories_win(all, r);
    assert(has_id(all, all[k].id));
    assert(has_id(r, all[k].id));
}

/// The sessions on offer are listed by name.
pub proof fn law_sessions_are_listed_by_name(
    all: Seq<SessionView>,
    r: Seq<SessionView>,
    i: int,
    j: int,
)
    requires
        is_sorted(first_of_id(all), names(first_of_id(all)), r),
        0 <= i < j < r.len(),
    ensures
        !crate::text::before(r[j].name, r[i].name),
{
    let kept = first_of_id(all);
    let keys = names(kept);
    let order = choose|order: Seq<usize>| #[trigger]
        is_stable_order(keys, order) && reordered(kept, order, r);
    let a = order[i] as int;
    let b = order[j] as int;
    assert(order[i] < keys.len() && order[j] < keys.len());
    assert(crate::text::ahead(keys, order[i] as int, order[j] as int));
    assert(r[i] == kept[a] && r[j] == kept[b]);
    crate::text::lemma_before_total(keys[a], keys[b]);
}

/// The sessions of one directory come in the order of their ids, all of them and
/// nothing else.
pub proof fn law_a_directory_is_listed_by_id(found: Seq<SessionView>, r: Seq<SessionView>)
    requires
        is_sorted(found, ids(found), r),
    ensures
        r.len() == found.len(),
        forall|i: int| #![trigger r[i]] 0 <= i < r.len() ==> found.contains(r[i]),
        forall|k: int| #![trigger found[k]] 0 <= k < found.len() ==> r.contains(found[k]),
        forall|i: int, j: int|
            0 <= i < j < r.len() ==> !crate::text::before(
                (#[trigger] r[j]).id,
                (#[trigger] r[i]).id,
            ),
{
    let keys = ids(found);
    let order = choose|order: Seq<usize>| #[trigger]
        is_stable_order(keys, order) && reordered(found, order, r);
    lemma_order_is_permutation(keys, order);
    assert forall|i: int| #![trigger r[i]] 0 <= i < r.len() implies found.contains(r[i]) by {
        assert(order[i] < keys.len());
        assert(found[order[i] as int] == r[i]);
    }
    assert forall|k: int| #![trigger found[k]] 0 <= k < found.len() implies r.contains(found[k]) by {
        assert(lists(order, k));
        let a = choose|a: int| 0 <= a < order.len() && #[trigger] order[a] == k;
        assert(r[a] == found[k]);
    }
    assert forall|i: int, j: int| 0 <= i < j < r.len() implies !crate::text::before(
        (#[trigger] r[j]).id,
        (#[trigger] r[i]).id,
    ) by {
        let a = order[i] as int;
        let b = order[j] as int;
        assert(order[i] < keys.len() && order[j] < keys.len());
        assert(crate::text::ahead(keys, order[i] as int, order[j] as int));
        assert(keys[a] == r[i].id && keys[b] == r[j].id);
        crate::text::lemma_before_total(keys[a], keys[b]);
    }
}

/// The directories are searched one after the other: what was found in an earlier
/// one stands before what was found in a later one.
pub proof fn law_directories_follow_one_another(dirs: Seq<Vec<Session>>, dir: Vec<Session>)
    ensures
        all_of(dirs.push(dir)) == all_of(dirs) + session_views(dir@),
        all_of(Seq::<Vec<Session>>::empty()).len() == 0,
        session_views(dir@).len() == dir@.len(),
        forall|i: int|
            0 <= i < dir@.len() ==> {
                let s = #[trigger] session_views(dir@)[i];
                &&& s.id == dir@[i].id@
                &&& s.name == dir@[i].name@
                &&& s.command == dir@[i].command@
                &&& s.session_type == dir@[i].session_type
                &&& s.path == dir@[i].path@
            },
{
    assert(dirs.push(dir).drop_last() =~= dirs);
}

/// A session is seen as it is.
pub proof fn law_a_session_is_seen_as_it_is(session: Session)
    ensures
        session@.id == session.id@,
        session@.name == session.name@,
        session@.command == session.command@,
        session@.session_type == session.session_type,
        session@.path == session.path@,
{
}

} // verus!
