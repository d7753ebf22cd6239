//! Enumeration of loginable users, and the record of what each last ran.
use vstd::prelude::*;
use vstd::relations::total_ordering;
use vstd::utf8::{
    decode_utf8, decode_utf8_encode_utf8, encode_utf8, encode_utf8_valid_utf8, valid_utf8,
};

use crate::pamwire::text_of;
use crate::text::{
    ahead, before, copy_pairs, find, find_space, from_chars, is_before, is_space, is_stable_order,
    join, joined, lemma_before_total, lemma_before_transitive, lemma_find, lemma_find_is,
    lemma_find_space, lemma_order_is_permutation, lemma_trimmed_is_empty, lines, lines_of, lists, pairs, parse_unsigned,
    position, push_str, same, same_bytes, slice, space_from, stable_order, strings, to_chars, trim,
    trim_end, trim_start, trimmed, unsigned, views, without_cr,
};

verus! {

/// Used when `login.defs` is absent or does not set `UID_MIN`.
///
/// 1000 is the value every mainstream distribution ships. Guessing lower would
/// expose system accounts on the login screen.
pub const FALLBACK_UID_MIN: u32 = 1000;

/// Used when `UID_MAX` is unset. Excludes the `nobody` account, which sits at
/// 65534 and is not loginable.
pub const FALLBACK_UID_MAX: u32 = 60_000;

/// System-wide avatar directory maintained by AccountsService.
pub const ACCOUNTS_ICON_DIR: &'static str = "/var/lib/AccountsService/icons";

/// Where wdm records the session each user last logged into successfully.
pub const LAST_SESSION_PATH: &'static str = "/var/lib/wdm/last-session";

/// The inclusive uid range considered to hold human accounts.
#[derive(Debug, Clone, Copy, PartialEq, Eq, Structural)]
pub struct UidRange {
    pub min: u32,
    pub max: u32,
}

impl Default for UidRange {
    fn default() -> (r: Self)
        ensures
            r == fallback_range(),
    {
        UidRange { min: FALLBACK_UID_MIN, max: FALLBACK_UID_MAX }
    }
}

/// The range used where nothing else is configured.
pub open spec fn fallback_range() -> UidRange {
    UidRange { min: 1000, max: 60_000 }
}

/// What a line of `login.defs` says, without its comment and outer white space.
pub open spec fn defs_content(line: Seq<char>) -> Seq<char> {
    trimmed(line.take(find(line, '#')))
}

/// The range once one more line has been read.
pub open spec fn range_with_line(range: UidRange, line: Seq<char>) -> UidRange {
    let content = defs_content(line);
    let gap = find_space(content);
    if gap >= content.len() {
        range
    } else {
        let key = content.take(gap);
        let value = unsigned(trimmed(content.skip(gap + 1)), u32::MAX as nat);
        if key == "UID_MIN"@ {
            match value {
                Some(n) => UidRange { min: n as u32, max: range.max },
                None => range,
            }
        } else if key == "UID_MAX"@ {
            match value {
                Some(n) => UidRange { min: range.min, max: n as u32 },
                None => range,
            }
        } else {
            range
        }
    }
}

/// The range once every line has been read.
pub open spec fn range_with_lines(range: UidRange, lines: Seq<Seq<char>>) -> UidRange
    decreases lines.len(),
{
    if lines.len() == 0 {
        range
    } else {
        range_with_line(range_with_lines(range, lines.drop_last()), lines.last())
    }
}

/// A configured range as wdm takes it: never root's uid, and the fallback where
/// the bounds are the wrong way round.
pub open spec fn admissible(range: UidRange) -> UidRange {
    let min = if range.min < 1 {
        1
    } else {
        range.min
    };
    if min > range.max {
        fallback_range()
    } else {
        UidRange { min, max: range.max }
    }
}

/// The range that the text of a `login.defs` configures.
pub open spec fn configured_range(text: Seq<char>) -> UidRange {
    admissible(range_with_lines(fallback_range(), lines_of(text)))
}

impl UidRange {
    /// The uids of the range.
    pub open spec fn has(self, uid: u32) -> bool {
        self.min <= uid <= self.max
    }

    /// One line of `login.defs`.
    fn read_line(self, line: &Vec<char>) -> (r: UidRange)
        ensures
            r == range_with_line(self, line@),
    {
        let hash = position(line, '#');
        proof {
            lemma_find(line@, '#');
        }
        let uncommented = slice(line, 0, hash);
        proof {
            assert(uncommented@ =~= line@.take(hash as int));
        }
        let content = trim(&uncommented);
        proof {
            assert(content@.skip(0) =~= content@);
            lemma_find_space(content@);
        }
        let gap = space_from(&content, 0);
        if gap >= content.len() {
            return self;
        }
        let key = from_chars(&slice(&content, 0, gap));
        let rest = slice(&content, gap + 1, content.len());
        proof {
            assert(content@.subrange(0, gap as int) =~= content@.take(gap as int));
            assert(rest@ =~= content@.skip(gap + 1));
        }
        let value = parse_unsigned(&trim(&rest), u32::MAX as u64);
        let mut range = self;
        if same(&key, "UID_MIN") {
            if let Some(n) = value {
                range.min = n as u32;
            }
        } else if same(&key, "UID_MAX") {
            if let Some(n) = value {
                range.max = n as u32;
            }
        }
        range
    }

    /// Parse `UID_MIN` and `UID_MAX` out of `login.defs` syntax.
    ///
    /// The format is whitespace-separated `KEY VALUE` with `#` comments. Other keys
    /// are ignored, and an unparsable value falls back rather than failing: a
    /// malformed `login.defs` must not make the machine unloginable.
    pub fn parse_login_defs(text: &str) -> (r: UidRange)
        ensures
            r == configured_range(text@),
    {
        let all = lines(&to_chars(text));
        let mut range = UidRange::default();
        for i in 0..all.len()
            invariant
                range == range_with_lines(fallback_range(), views(all@).take(i as int)),
        {
            range = range.read_line(&all[i]);
            proof {
                let next = views(all@).take(i as int + 1);
                assert(next.drop_last() =~= views(all@).take(i as int));
                assert(next.last() == all@[i as int]@);
            }
        }
        proof {
            assert(views(all@).take(all@.len() as int) =~= views(all@));
        }
        // Root is never a login target, whatever local policy says.
        if range.min < 1 {
            range.min = 1;
        }
        if range.min > range.max {
            return UidRange::default();
        }
        range
    }

    /// Whether a uid is in the range.
    pub fn contains(self, uid: u32) -> (r: bool)
        ensures
            r == self.has(uid),
    {
        uid >= self.min && uid <= self.max
    }
}

/// Whatever `login.defs` says, root is outside the range and the range is not
/// empty.
pub proof fn law_root_is_never_inside_the_range(text: Seq<char>)
    ensures
        !configured_range(text).has(0),
        configured_range(text).min <= configured_range(text).max,
{
}

/// The last component of a path, if it names something: trailing separators and
/// `.` components do not count, and `..` is no name.
pub open spec fn last_component<T>(path: Seq<T>, slash: T, dot: T) -> Option<Seq<T>>
    decreases path.len(),
{
    if path.len() == 0 {
        None
    } else if path.last() == slash {
        last_component(path.drop_last(), slash, dot)
    } else if path.len() >= 2 && path.last() == dot && path[path.len() - 2] == slash {
        last_component(path.take(path.len() - 2), slash, dot)
    } else {
        let name = after_last(path, slash);
        if name == seq![dot] || name == seq![dot, dot] {
            None
        } else {
            Some(name)
        }
    }
}

/// What follows the last separator.
pub open spec fn after_last<T>(path: Seq<T>, slash: T) -> Seq<T>
    decreases path.len(),
{
    if path.len() == 0 || path.last() == slash {
        seq![]
    } else {
        after_last(path.drop_last(), slash).push(path.last())
    }
}

/// The last component of a path that is text.
pub open spec fn final_component(path: Seq<char>) -> Option<Seq<char>> {
    last_component(path, '/', '.')
}

/// The last component of a path as the system has it, which need not be text.
pub open spec fn final_bytes(path: Seq<u8>) -> Option<Seq<u8>> {
    last_component(path, 47, 46)
}

/// What follows the last `/` among the first `end` characters.
fn tail_of(path: &Vec<char>, end: usize) -> (r: Vec<char>)
    requires
        end <= path@.len(),
    ensures
        r@ == after_last(path@.take(end as int), '/'),
    decreases end,
{
    proof {
        if end > 0 {
            assert(path@.take(end as int).drop_last() =~= path@.take(end - 1));
            assert(path@.take(end as int).last() == path@[end - 1]);
        }
    }
    if end == 0 || path[end - 1] == '/' {
        let none: Vec<char> = Vec::new();
        proof {
            assert(none@ =~= seq![]);
        }
        return none;
    }
    let mut r = tail_of(path, end - 1);
    r.push(path[end - 1]);
    r
}

/// The last component of a path, if it names something.
pub fn file_name(path: &str) -> (r: Option<String>)
    ensures
        match r {
            Some(name) => final_component(path@) == Some(name@),
            None => final_component(path@) is None,
        },
{
    let chars = to_chars(path);
    let mut end: usize = chars.len();
    proof {
        assert(chars@.take(end as int) =~= chars@);
    }
    while end > 0
        invariant
            end <= chars@.len(),
            chars@ == path@,
            final_component(path@) == final_component(chars@.take(end as int)),
        decreases end,
    {
        let ghost part = chars@.take(end as int);
        proof {
            assert(part.last() == chars@[end - 1]);
            assert(part.drop_last() =~= chars@.take(end - 1));
        }
        if chars[end - 1] == '/' {
            end = end - 1;
        } else if end >= 2 && chars[end - 1] == '.' && chars[end - 2] == '/' {
            proof {
                assert(part.take(end - 2) =~= chars@.take(end - 2));
            }
            end = end - 2;
        } else {
            let name = from_chars(&tail_of(&chars, end));
            proof {
                reveal_strlit(".");
                reveal_strlit("..");
                assert("."@ =~= seq!['.']);
                assert(".."@ =~= seq!['.', '.']);
            }
            if same(&name, ".") || same(&name, "..") {
                return None;
            }
            return Some(name);
        }
    }
    None
}

/// Shells that exist to keep an account from logging in.
pub open spec fn refuses_login(name: Seq<char>) -> bool {
    name == "nologin"@ || name == "false"@ || name == "true"@ || name == "sync"@ || name
        == "shutdown"@ || name == "halt"@
}

/// What follows the last separator among the first `end` bytes.
fn bytes_tail(path: &[u8], end: usize) -> (r: Vec<u8>)
    requires
        end <= path@.len(),
    ensures
        r@ == after_last(path@.take(end as int), 47),
    decreases end,
{
    proof {
        if end > 0 {
            assert(path@.take(end as int).drop_last() =~= path@.take(end - 1));
            assert(path@.take(end as int).last() == path@[end - 1]);
        }
    }
    if end == 0 || path[end - 1] == 47 {
        let none: Vec<u8> = Vec::new();
        proof {
            assert(none@ =~= seq![]);
        }
        return none;
    }
    let mut r = bytes_tail(path, end - 1);
    r.push(path[end - 1]);
    r
}

/// The last component of a path as the system has it, if it names something.
fn file_bytes(path: &[u8]) -> (r: Option<Vec<u8>>)
    ensures
        match r {
            Some(name) => final_bytes(path@) == Some(name@),
            None => final_bytes(path@) is None,
        },
{
    let mut end: usize = path.len();
    proof {
        assert(path@.take(end as int) =~= path@);
    }
    while end > 0
        invariant
            end <= path@.len(),
            final_bytes(path@) == final_bytes(path@.take(end as int)),
        decreases end,
    {
        let ghost part = path@.take(end as int);
        proof {
            assert(part.last() == path@[end - 1]);
            assert(part.drop_last() =~= path@.take(end - 1));
        }
        if path[end - 1] == 47 {
            end = end - 1;
        } else if end >= 2 && path[end - 1] == 46 && path[end - 2] == 47 {
            proof {
                assert(part.take(end - 2) =~= path@.take(end - 2));
            }
            end = end - 2;
        } else {
            let name = bytes_tail(path, end);
            let dot = name.len() == 1 && name[0] == 46;
            let dots = name.len() == 2 && name[0] == 46 && name[1] == 46;
            proof {
                assert(dot <==> name@ =~= seq![46u8]);
                assert(dots <==> name@ =~= seq![46u8, 46u8]);
            }
            if dot || dots {
                return None;
            }
            return Some(name);
        }
    }
    None
}

/// The text that bytes are, where they are text.
fn exact_text(bytes: &[u8]) -> (r: Option<String>)
    ensures
        match r {
            Some(text) => valid_utf8(bytes@) && text@ == decode_utf8(bytes@),
            None => !valid_utf8(bytes@),
        },
{
    let text = text_of(bytes);
    proof {
        if valid_utf8(bytes@) {
            decode_utf8_encode_utf8(bytes@);
        }
        encode_utf8_valid_utf8(text@);
    }
    if same_bytes(text.as_str().as_bytes(), bytes) {
        Some(text)
    } else {
        None
    }
}

/// Whether a shell permits interactive login. An empty shell means the system
/// default, which does; any other path must name a program by a text, and not one
/// of those that refuse. What the program's directories are called does not count.
pub open spec fn login_shell(shell: Seq<u8>) -> bool {
    match final_bytes(shell) {
        Some(name) if valid_utf8(name) => !refuses_login(decode_utf8(name)),
        _ => shell.len() == 0,
    }
}

/// Whether a shell permits interactive login. The path is as the user database
/// holds it.
pub fn is_login_shell(shell: &[u8]) -> (r: bool)
    ensures
        r == login_shell(shell@),
{
    let name: Option<String> = match file_bytes(shell) {
        Some(name) => exact_text(&name),
        None => None,
    };
    match name {
        Some(name) => !(same(&name, "nologin") || same(&name, "false") || same(&name, "true")
            || same(&name, "sync") || same(&name, "shutdown") || same(&name, "halt")),
        None => shell.len() == 0,
    }
}

/// GECOS is comma-separated; the first field is the human readable name.
pub fn display_name_from_gecos(gecos: &str) -> (r: String)
    ensures
        r@ == trimmed(gecos@.take(find(gecos@, ','))),
{
    let chars = to_chars(gecos);
    let comma = position(&chars, ',');
    proof {
        lemma_find(chars@, ',');
    }
    let first = slice(&chars, 0, comma);
    proof {
        assert(first@ =~= gecos@.take(comma as int));
    }
    from_chars(&trim(&first))
}

/// A path below another: the second one where it is absolute, else both with one
/// separator between them.
pub open spec fn path_join(base: Seq<u8>, rest: Seq<u8>) -> Seq<u8> {
    if rest.len() > 0 && rest[0] == 47 {
        rest
    } else if base.len() == 0 || base.last() == 47 {
        base + rest
    } else {
        base.push(47) + rest
    }
}

/// A path below another.
pub fn join_path(base: &[u8], rest: &[u8]) -> (r: Vec<u8>)
    ensures
        r@ == path_join(base@, rest@),
{
    let mut r: Vec<u8> = Vec::new();
    if rest.len() == 0 || rest[0] != 47 {
        r.extend_from_slice(base);
        assert(r@ =~= base@);
        if base.len() > 0 && base[base.len() - 1] != 47 {
            r.push(47);
        }
    }
    r.extend_from_slice(rest);
    assert(r@ =~= path_join(base@, rest@));
    r
}

/// The views of a sequence of byte vectors.
pub open spec fn byte_views(v: Seq<Vec<u8>>) -> Seq<Seq<u8>> {
    v.map_values(|b: Vec<u8>| b@)
}

/// Where an avatar may be found, in order of preference.
pub open spec fn avatar_places(name: Seq<char>, home: Seq<u8>) -> Seq<Seq<u8>> {
    seq![
        path_join(encode_utf8("/var/lib/AccountsService/icons"@), encode_utf8(name)),
        path_join(home, encode_utf8(".face"@)),
        path_join(home, encode_utf8(".face.icon"@)),
    ]
}

/// Where an avatar may be found, in order of preference. `home` is as the user
/// database holds it.
pub fn avatar_candidates(name: &str, home: &[u8]) -> (r: Vec<Vec<u8>>)
    ensures
        byte_views(r@) == avatar_places(name@, home@),
{
    let mut r: Vec<Vec<u8>> = Vec::new();
    r.push(join_path(ACCOUNTS_ICON_DIR.as_bytes(), name.as_bytes()));
    r.push(join_path(home, ".face".as_bytes()));
    r.push(join_path(home, ".face.icon".as_bytes()));
    proof {
        assert(byte_views(r@) =~= avatar_places(name@, home@));
    }
    r
}

/// The first present candidate, if there is one.
pub open spec fn first_present(places: Seq<Seq<u8>>, present: Seq<bool>) -> Option<Seq<u8>>
    decreases places.len(),
{
    if places.len() == 0 || present.len() == 0 {
        None
    } else if present[0] {
        Some(places[0])
    } else {
        first_present(places.skip(1), present.skip(1))
    }
}

/// The path an avatar is told by: empty where there is none, or where it is not
/// text.
pub open spec fn avatar_text(place: Option<Seq<u8>>) -> Seq<char> {
    match place {
        Some(place) if valid_utf8(place) => decode_utf8(place),
        _ => seq![],
    }
}

/// The avatar of a user, preferring the system-managed one: the first candidate
/// that `present` says is a file, or the empty string.
pub fn avatar_for(name: &str, home: &[u8], present: &Vec<bool>) -> (r: String)
    ensures
        r@ == avatar_text(first_present(avatar_places(name@, home@), present@)),
{
    let places = avatar_candidates(name, home);
    let ghost all = byte_views(places@);
    let mut i: usize = 0;
    proof {
        assert(all.skip(0) =~= all);
        assert(present@.skip(0) =~= present@);
    }
    while i < places.len() && i < present.len()
        invariant
            i <= places@.len(),
            i <= present@.len(),
            all == byte_views(places@),
            all == avatar_places(name@, home@),
            first_present(all, present@) == first_present(
                all.skip(i as int),
                present@.skip(i as int),
            ),
        decreases places@.len() - i,
    {
        proof {
            assert(all.skip(i as int).skip(1) =~= all.skip(i + 1));
            assert(present@.skip(i as int).skip(1) =~= present@.skip(i + 1));
        }
        if present[i] {
            return match exact_text(&places[i]) {
                Some(text) => text,
                None => String::new(),
            };
        }
        i = i + 1;
    }
    String::new()
}

/// A user wdm is willing to offer on the login screen.
#[derive(Debug, PartialEq, Eq)]
pub struct User {
    /// Login name.
    pub name: String,
    /// Human readable name from the GECOS field, empty if unset.
    pub display_name: String,
    /// Absolute path to an avatar image, empty if none was found.
    pub avatar_path: String,
    /// Session id from this user's last successful login, empty if none.
    pub last_session: String,
}

/// What a [`User`] says, with strings as character sequences.
#[verifier::ext_equal]
pub struct UserView {
    pub name: Seq<char>,
    pub display_name: Seq<char>,
    pub avatar_path: Seq<char>,
    pub last_session: Seq<char>,
}

impl View for User {
    type V = UserView;

    open spec fn view(&self) -> UserView {
        UserView {
            name: self.name@,
            display_name: self.display_name@,
            avatar_path: self.avatar_path@,
            last_session: self.last_session@,
        }
    }
}

impl Clone for User {
    fn clone(&self) -> (r: Self)
        ensures
            r == *self,
    {
        User {
            name: self.name.clone(),
            display_name: self.display_name.clone(),
            avatar_path: self.avatar_path.clone(),
            last_session: self.last_session.clone(),
        }
    }
}

/// An entry of the password database, as wdm reads it.
#[derive(Debug)]
pub struct Account {
    pub name: String,
    pub uid: u32,
    pub gid: u32,
    pub gecos: String,
    /// The home directory and the login shell are paths as the database holds
    /// them, which need not be text.
    pub home: Vec<u8>,
    pub shell: Vec<u8>,
    /// Absolute path to an avatar image, empty if none was found.
    pub avatar_path: String,
}

impl Account {
    /// Whether the account's shell permits interactive login.
    pub open spec fn may_log_in(&self) -> bool {
        login_shell(self.shell@)
    }

    /// Whether the account's shell permits interactive login.
    pub fn has_login_shell(&self) -> (r: bool)
        ensures
            r == self.may_log_in(),
    {
        is_login_shell(&self.shell)
    }
}

/// The pairs as a mapping; where a key occurs twice the later pair counts.
pub open spec fn mapping(v: Seq<(Seq<char>, Seq<char>)>) -> Map<Seq<char>, Seq<char>>
    decreases v.len(),
{
    if v.len() == 0 {
        Map::empty()
    } else {
        mapping(v.drop_last()).insert(v.last().0, v.last().1)
    }
}

/// No key occurs twice.
pub open spec fn distinct_keys(v: Seq<(Seq<char>, Seq<char>)>) -> bool {
    forall|i: int, j: int| 0 <= i < j < v.len() ==> (#[trigger] v[i]).0 != (#[trigger] v[j]).0
}

/// What a key of the mapping is mapped to.
pub proof fn lemma_mapping(v: Seq<(Seq<char>, Seq<char>)>, k: Seq<char>)
    requires
        distinct_keys(v),
    ensures
        mapping(v).dom().contains(k) <==> exists|i: int| 0 <= i < v.len() && (#[trigger] v[i]).0 == k,
        forall|i: int| 0 <= i < v.len() && (#[trigger] v[i]).0 == k ==> mapping(v)[k] == v[i].1,
    decreases v.len(),
{
    if v.len() > 0 {
        let init = v.drop_last();
        assert(distinct_keys(init)) by {
            assert forall|i: int, j: int| 0 <= i < j < init.len() implies (#[trigger] init[i]).0 != (
            #[trigger] init[j]).0 by {
                assert(v[i].0 != v[j].0);
            }
        }
        lemma_mapping(init, k);
        let n = v.len() - 1;
        if mapping(v).dom().contains(k) {
            if v[n].0 != k {
                let i = choose|i: int| 0 <= i < init.len() && (#[trigger] init[i]).0 == k;
                assert(v[i].0 == k);
            } else {
                assert(v[n].0 == k);
            }
        }
        assert forall|i: int| 0 <= i < v.len() && (#[trigger] v[i]).0 == k implies mapping(v)[k]
            == v[i].1 by {
            if i < n {
                assert(init[i].0 == k);
                assert(v[i].0 != v[n].0);
            }
        }
        if exists|i: int| 0 <= i < v.len() && (#[trigger] v[i]).0 == k {
            let i = choose|i: int| 0 <= i < v.len() && (#[trigger] v[i]).0 == k;
            if i < n {
                assert(init[i].0 == k);
            }
        }
    }
}

/// The mapping of user to last successfully launched session.
///
/// Persisted so a returning user finds their session preselected.
#[derive(Debug)]
pub struct LastSessions {
    entries: Vec<(String, String)>,
}

impl View for LastSessions {
    type V = Map<Seq<char>, Seq<char>>;

    closed spec fn view(&self) -> Map<Seq<char>, Seq<char>> {
        mapping(pairs(self.entries@))
    }
}

impl Default for LastSessions {
    fn default() -> (r: Self)
        ensures
            r@ == Map::<Seq<char>, Seq<char>>::empty(),
    {
        LastSessions { entries: Vec::new() }
    }
}

impl Clone for LastSessions {
    fn clone(&self) -> (r: Self)
        ensures
            r@ == self@,
    {
        proof {
            use_type_invariant(self);
        }
        LastSessions { entries: copy_pairs(&self.entries) }
    }
}

impl LastSessions {
    #[verifier::type_invariant]
    spec fn wf(&self) -> bool {
        distinct_keys(pairs(self.entries@))
    }

    /// Where a user's entry stands, or how many entries there are.
    fn index_of(&self, user: &str) -> (r: usize)
        ensures
            r <= self.entries@.len(),
            r < self.entries@.len() ==> self.entries@[r as int].0@ == user@,
            forall|i: int| 0 <= i < r ==> (#[trigger] self.entries@[i]).0@ != user@,
    {
        let mut i: usize = 0;
        while i < self.entries.len() && !same(&self.entries[i].0, user)
            invariant
                i <= self.entries@.len(),
                forall|j: int| 0 <= j < i ==> (#[trigger] self.entries@[j]).0@ != user@,
            decreases self.entries@.len() - i,
        {
            i = i + 1;
        }
        i
    }

    /// The session recorded for a user.
    pub fn get(&self, user: &str) -> (r: Option<&str>)
        ensures
            match r {
                Some(session) => self@.dom().contains(user@) && self@[user@] == session@,
                None => !self@.dom().contains(user@),
            },
    {
        let i = self.index_of(user);
        proof {
            use_type_invariant(self);
            let v = pairs(self.entries@);
            lemma_mapping(v, user@);
            if i < self.entries@.len() {
                assert(v[i as int].0 == user@);
            } else {
                assert forall|j: int| 0 <= j < v.len() implies (#[trigger] v[j]).0 != user@ by {
                    assert(self.entries@[j].0@ != user@);
                }
            }
        }
        if i < self.entries.len() {
            Some(self.entries[i].1.as_str())
        } else {
            None
        }
    }

    /// Record the session a user launched.
    pub fn set(&mut self, user: &str, session_id: &str)
        ensures
            final(self)@ == old(self)@.insert(user@, session_id@),
    {
        let i = self.index_of(user);
        let mut entries: Vec<(String, String)> = Vec::new();
        proof {
            use_type_invariant(&*self);
        }
        std::mem::swap(&mut entries, &mut self.entries);
        let ghost before = pairs(entries@);
        let pair = (user.to_owned(), session_id.to_owned());
        if i < entries.len() {
            entries.set(i, pair);
            proof {
                let after = pairs(entries@);
                assert(after =~= before.update(i as int, (user@, session_id@)));
                lemma_mapping_update(before, i as int, (user@, session_id@));
            }
        } else {
            proof {
                assert forall|j: int| 0 <= j < before.len() implies (#[trigger] before[j]).0 != user@ by {
                    assert(entries@[j].0@ != user@);
                }
            }
            entries.push(pair);
            proof {
                let after = pairs(entries@);
                assert(after =~= before.push((user@, session_id@)));
                assert(after.drop_last() =~= before);
            }
        }
        self.entries = entries;
    }
}

/// Replacing a pair under its own key is an insertion.
pub proof fn lemma_mapping_update(
    v: Seq<(Seq<char>, Seq<char>)>,
    i: int,
    pair: (Seq<char>, Seq<char>),
)
    requires
        distinct_keys(v),
        0 <= i < v.len(),
        v[i].0 == pair.0,
    ensures
        distinct_keys(v.update(i, pair)),
        mapping(v.update(i, pair)) == mapping(v).insert(pair.0, pair.1),
{
    let w = v.update(i, pair);
    assert forall|a: int, b: int| 0 <= a < b < w.len() implies (#[trigger] w[a]).0 != (
    #[trigger] w[b]).0 by {
        assert(v[a].0 != v[b].0);
    }
    let new = mapping(w);
    let want = mapping(v).insert(pair.0, pair.1);
    assert forall|k: Seq<char>| #[trigger] new.dom().contains(k) == want.dom().contains(k) by {
        lemma_mapping(v, k);
        lemma_mapping(w, k);
        if new.dom().contains(k) {
            let j = choose|j: int| 0 <= j < w.len() && (#[trigger] w[j]).0 == k;
            assert(v[j].0 == k);
        }
        if mapping(v).dom().contains(k) {
            let j = choose|j: int| 0 <= j < v.len() && (#[trigger] v[j]).0 == k;
            assert(w[j].0 == k);
        }
        assert(w[i].0 == pair.0);
    }
    assert forall|k: Seq<char>| new.dom().contains(k) implies #[trigger] new[k] == want[k] by {
        lemma_mapping(v, k);
        lemma_mapping(w, k);
        let j = choose|j: int| 0 <= j < w.len() && (#[trigger] w[j]).0 == k;
        assert(v[j].0 == k);
    }
    assert(new =~= want);
}

/// The record a line of the store holds: the text before the first tab and the
/// text after it, both without outer white space, if neither is then empty.
pub open spec fn record_of(line: Seq<char>) -> Option<(Seq<char>, Seq<char>)> {
    let tab = find(line, '\t');
    if tab >= line.len() {
        None
    } else {
        let user = trimmed(line.take(tab));
        let session = trimmed(line.skip(tab + 1));
        if user.len() == 0 || session.len() == 0 {
            None
        } else {
            Some((user, session))
        }
    }
}

/// The records of all lines that hold one, in order.
pub open spec fn records(lines: Seq<Seq<char>>) -> Seq<(Seq<char>, Seq<char>)>
    decreases lines.len(),
{
    if lines.len() == 0 {
        seq![]
    } else {
        match record_of(lines.last()) {
            Some(pair) => records(lines.drop_last()).push(pair),
            None => records(lines.drop_last()),
        }
    }
}

/// The line that records a user's session.
pub open spec fn record_line(user: Seq<char>, session: Seq<char>) -> Seq<char> {
    user.push('\t') + session
}

/// Lines in ascending order.
pub open spec fn ascending(lines: Seq<Seq<char>>) -> bool {
    forall|i: int, j: int|
        0 <= i < j < lines.len() ==> !before(#[trigger] lines[j], #[trigger] lines[i])
}

/// The record lines of some users.
pub open spec fn lines_for(store: Map<Seq<char>, Seq<char>>, users: Seq<Seq<char>>) -> Seq<
    Seq<char>,
> {
    Seq::new(users.len(), |i: int| record_line(users[i], store[users[i]]))
}

/// `users` names every user of the store once, so that their lines ascend.
pub open spec fn lists_store(store: Map<Seq<char>, Seq<char>>, users: Seq<Seq<char>>) -> bool {
    &&& users.no_duplicates()
    &&& users.to_set() == store.dom()
    &&& ascending(lines_for(store, users))
}

/// `text` is the store's on-disk form: one line for each user, ascending, each
/// ended by a line feed.
pub open spec fn is_text_of(store: Map<Seq<char>, Seq<char>>, text: Seq<char>) -> bool {
    exists|users: Seq<Seq<char>>|
        lists_store(store, users) && text == joined(
            #[trigger] lines_for(store, users).push(Seq::<char>::empty()),
            '\n',
        )
}

impl LastSessions {
    /// One line of the store.
    fn read_line(&mut self, line: &Vec<char>)
        ensures
            final(self)@ == (match record_of(line@) {
                Some((user, session)) => old(self)@.insert(user, session),
                None => old(self)@,
            }),
    {
        let tab = position(line, '\t');
        proof {
            lemma_find(line@, '\t');
        }
        if tab >= line.len() {
            return;
        }
        let left = slice(line, 0, tab);
        let right = slice(line, tab + 1, line.len());
        proof {
            assert(left@ =~= line@.take(tab as int));
            assert(right@ =~= line@.skip(tab + 1));
        }
        let user = trim(&left);
        let session = trim(&right);
        if user.len() == 0 || session.len() == 0 {
            return;
        }
        self.set(&from_chars(&user), &from_chars(&session));
    }

    /// Parse the tab-separated `user<TAB>session` format.
    ///
    /// Malformed lines are skipped individually rather than discarding the whole
    /// file, so one bad line does not lose every user's preference.
    pub fn parse(text: &str) -> (r: Self)
        ensures
            r@ == mapping(records(lines_of(text@))),
    {
        let all = lines(&to_chars(text));
        let mut store = LastSessions::default();
        for i in 0..all.len()
            invariant
                store@ == mapping(records(views(all@).take(i as int))),
        {
            store.read_line(&all[i]);
            proof {
                let next = views(all@).take(i as int + 1);
                assert(next.drop_last() =~= views(all@).take(i as int));
                assert(next.last() == all@[i as int]@);
                if let Some(pair) = record_of(next.last()) {
                    assert(records(next).drop_last() =~= records(next.drop_last()));
                }
            }
        }
        proof {
            assert(views(all@).take(all@.len() as int) =~= views(all@));
        }
        store
    }

    /// Serialise to the on-disk format, sorted so the file does not churn.
    pub fn to_text(&self) -> (r: String)
        ensures
            is_text_of(self@, r@),
    {
        proof {
            use_type_invariant(self);
        }
        let ghost v = pairs(self.entries@);
        let mut keys: Vec<Vec<char>> = Vec::new();
        for i in 0..self.entries.len()
            invariant
                v == pairs(self.entries@),
                keys@.len() == i,
                forall|j: int|
                    0 <= j < i ==> (#[trigger] keys@[j])@ == record_line(v[j].0, v[j].1),
        {
            let mut line: String = self.entries[i].0.clone();
            line.push('\t');
            push_str(&mut line, &self.entries[i].1);
            keys.push(to_chars(&line));
        }
        let order = stable_order(&keys);
        let mut parts: Vec<Vec<char>> = Vec::new();
        for i in 0..order.len()
            invariant
                keys@.len() == v.len(),
                is_stable_order(views(keys@), order@),
                parts@.len() == i,
                forall|j: int|
                    0 <= j < keys@.len() ==> (#[trigger] keys@[j])@ == record_line(v[j].0, v[j].1),
                forall|j: int|
                    0 <= j < i ==> (#[trigger] parts@[j])@ == record_line(
                        v[order@[j] as int].0,
                        v[order@[j] as int].1,
                    ),
        {
            assert(order@[i as int] < keys@.len());
            let k: usize = order[i];
            parts.push(slice(&keys[k], 0, keys[k].len()));
            proof {
                assert(keys@[k as int]@.subrange(0, keys@[k as int]@.len() as int)
                    =~= keys@[k as int]@);
            }
        }
        let ghost users = Seq::new(order@.len(), |i: int| v[order@[i] as int].0);
        proof {
            lemma_listing(self@, v, views(keys@), order@, users);
            assert(views(parts@) =~= lines_for(self@, users)) by {
                assert forall|i: int| 0 <= i < parts@.len() implies views(parts@)[i] == lines_for(
                    self@,
                    users,
                )[i] by {
                    assert(order@[i] < keys@.len());
                    lemma_mapping(v, users[i]);
                    assert(v[order@[i] as int].0 == users[i]);
                    assert(parts@[i]@ == record_line(users[i], self@[users[i]]));
                }
            }
        }
        // An empty last part gives the last line its line feed.
        let none: Vec<char> = Vec::new();
        let ghost before_push = parts@;
        parts.push(none);
        proof {
            assert(none@ =~= Seq::<char>::empty());
            assert(views(parts@) =~= views(before_push).push(Seq::<char>::empty()));
        }
        join(&parts, '\n')
    }
}

/// The order of lines.
spec fn line_order() -> spec_fn(Seq<char>, Seq<char>) -> bool {
    |a: Seq<char>, b: Seq<char>| !before(b, a)
}

proof fn lemma_line_order()
    ensures
        total_ordering(line_order()),
{
    let r = line_order();
    assert forall|x: Seq<char>| #[trigger] r(x, x) by {
        lemma_before_total(x, x);
    }
    assert forall|x: Seq<char>, y: Seq<char>| #[trigger] r(x, y) && #[trigger] r(y, x) implies x
        == y by {
        lemma_before_total(x, y);
    }
    assert forall|x: Seq<char>, y: Seq<char>, z: Seq<char>| #[trigger]
        r(x, y) && #[trigger] r(y, z) implies r(x, z) by {
        lemma_before_total(x, y);
        lemma_before_total(y, z);
        lemma_before_total(x, z);
        if x != y && y != z {
            lemma_before_transitive(x, y, z);
        }
    }
    assert forall|x: Seq<char>, y: Seq<char>| #[trigger] r(x, y) || #[trigger] r(y, x) by {
        lemma_before_total(x, y);
    }
}

/// The same users have the same lines.
proof fn lemma_lines_of_users(
    store: Map<Seq<char>, Seq<char>>,
    one: Seq<Seq<char>>,
    other: Seq<Seq<char>>,
)
    requires
        one.to_multiset() == other.to_multiset(),
    ensures
        lines_for(store, one).to_multiset() == lines_for(store, other).to_multiset(),
    decreases one.len(),
{
    broadcast use vstd::multiset::group_multiset_axioms;
    broadcast use vstd::seq_lib::group_to_multiset_ensures;

    vstd::seq_lib::to_multiset_len(one);
    vstd::seq_lib::to_multiset_len(other);
    if one.len() > 0 {
        let user = one.last();
        let line = record_line(user, store[user]);
        let init = one.drop_last();
        assert(init.push(user) =~= one);
        vstd::seq_lib::to_multiset_build(init, user);
        vstd::seq_lib::to_multiset_contains(other, user);
        let k = choose|k: int| 0 <= k < other.len() && other[k] == user;
        let rest = other.remove(k);
        vstd::seq_lib::to_multiset_remove(other, k);
        assert(init.to_multiset() =~= rest.to_multiset());
        lemma_lines_of_users(store, init, rest);
        assert(lines_for(store, one) =~= lines_for(store, init).push(line));
        assert(lines_for(store, other).remove(k) =~= lines_for(store, rest));
        assert(lines_for(store, other)[k] == line);
        vstd::seq_lib::to_multiset_build(lines_for(store, init), line);
        vstd::seq_lib::to_multiset_remove(lines_for(store, other), k);
        vstd::seq_lib::to_multiset_contains(lines_for(store, other), line);
        assert(lines_for(store, one).to_multiset() =~= lines_for(store, other).to_multiset());
    } else {
        assert(lines_for(store, one) =~= lines_for(store, other));
    }
}

/// The text of the store is determined by the store: however it came to hold what
/// it holds, the file reads the same.
pub proof fn law_the_text_is_determined_by_the_store(
    store: Map<Seq<char>, Seq<char>>,
    one: Seq<char>,
    other: Seq<char>,
)
    requires
        is_text_of(store, one),
        is_text_of(store, other),
    ensures
        one == other,
{
    broadcast use vstd::multiset::group_multiset_axioms;
    broadcast use vstd::seq_lib::group_to_multiset_ensures;

    let end = Seq::<char>::empty();
    let users = choose|users: Seq<Seq<char>>|
        lists_store(store, users) && one == joined(
            #[trigger] lines_for(store, users).push(end),
            '\n',
        );
    let others = choose|users: Seq<Seq<char>>|
        lists_store(store, users) && other == joined(
            #[trigger] lines_for(store, users).push(end),
            '\n',
        );
    users.lemma_multiset_has_no_duplicates();
    others.lemma_multiset_has_no_duplicates();
    assert forall|user: Seq<char>| #[trigger]
        users.to_multiset().count(user) == others.to_multiset().count(user) by {
        vstd::seq_lib::to_multiset_contains(users, user);
        vstd::seq_lib::to_multiset_contains(others, user);
        assert(users.to_set().contains(user) == others.to_set().contains(user));
    }
    assert(users.to_multiset() =~= others.to_multiset());
    lemma_lines_of_users(store, users, others);
    lemma_line_order();
    vstd::seq_lib::lemma_sorted_unique(
        lines_for(store, users),
        lines_for(store, others),
        line_order(),
    );
}

/// The users of a store in the order of their lines.
proof fn lemma_listing(
    store: Map<Seq<char>, Seq<char>>,
    v: Seq<(Seq<char>, Seq<char>)>,
    keys: Seq<Seq<char>>,
    order: Seq<usize>,
    users: Seq<Seq<char>>,
)
    requires
        store == mapping(v),
        distinct_keys(v),
        keys.len() == v.len(),
        forall|j: int| 0 <= j < keys.len() ==> #[trigger] keys[j] == record_line(v[j].0, v[j].1),
        is_stable_order(keys, order),
        users == Seq::new(order.len(), |i: int| v[order[i] as int].0),
    ensures
        lists_store(store, users),
{
    lemma_order_is_permutation(keys, order);
    assert(users.no_duplicates()) by {
        assert forall|a: int, b: int|
            0 <= a < users.len() && 0 <= b < users.len() && a != b implies users[a] != users[b] by {
            assert(order[a] != order[b]);
            assert(order[a] < v.len());
            assert(order[b] < v.len());
            if order[a] < order[b] {
                assert(v[order[a] as int].0 != v[order[b] as int].0);
            } else {
                assert(v[order[b] as int].0 != v[order[a] as int].0);
            }
        }
    }
    assert forall|k: Seq<char>| #[trigger] users.to_set().contains(k) == store.dom().contains(k) by {
        lemma_mapping(v, k);
        if users.to_set().contains(k) {
            let a = choose|a: int| 0 <= a < users.len() && users[a] == k;
            assert(order[a] < v.len());
            assert(v[order[a] as int].0 == k);
        }
        if store.dom().contains(k) {
            let i = choose|i: int| 0 <= i < v.len() && (#[trigger] v[i]).0 == k;
            assert(lists(order, i));
            let a = choose|a: int| 0 <= a < order.len() && #[trigger] order[a] == i;
            assert(users[a] == k);
        }
    }
    assert(users.to_set() =~= store.dom());
    let lines = lines_for(store, users);
    assert forall|i: int, j: int| 0 <= i < j < lines.len() implies !before(
        #[trigger] lines[j],
        #[trigger] lines[i],
    ) by {
        let a = order[i] as int;
        let b = order[j] as int;
        assert(order[i] < v.len());
        assert(order[j] < v.len());
        lemma_mapping(v, users[i]);
        lemma_mapping(v, users[j]);
        assert(v[a].0 == users[i]);
        assert(v[b].0 == users[j]);
        assert(lines[i] == keys[a]);
        assert(lines[j] == keys[b]);
        assert(ahead(keys, order[i] as int, order[j] as int));
        lemma_before_total(keys[a], keys[b]);
    }
}

/// Entries that survive being written out: no field is empty or has outer white
/// space, none holds a line feed, and no user name holds a tab.
pub open spec fn storable(store: Map<Seq<char>, Seq<char>>) -> bool {
    forall|user: Seq<char>| #[trigger]
        store.dom().contains(user) ==> {
            &&& clean(user)
            &&& clean(store[user])
            &&& !user.contains('\t')
        }
}

/// A field without outer white space, neither empty nor holding a line feed.
pub open spec fn clean(field: Seq<char>) -> bool {
    field.len() > 0 && trimmed(field) == field && !field.contains('\n')
}

/// What is written is read back: parsing the text of a store gives that store.
pub proof fn law_store_round_trips(store: Map<Seq<char>, Seq<char>>, text: Seq<char>)
    requires
        storable(store),
        is_text_of(store, text),
    ensures
        mapping(records(lines_of(text))) == store,
{
    let users = choose|users: Seq<Seq<char>>|
        lists_store(store, users) && text == joined(
            #[trigger] lines_for(store, users).push(Seq::<char>::empty()),
            '\n',
        );
    let lines = lines_for(store, users);
    assert forall|i: int| 0 <= i < users.len() implies store.dom().contains(#[trigger] users[i]) by {
        assert(users.to_set().contains(users[i]));
    }
    assert forall|i: int| 0 <= i < lines.len() implies plain_line(#[trigger] lines[i]) && record_of(
        lines[i],
    ) == Some((users[i], store[users[i]])) by {
        assert(store.dom().contains(users[i]));
        lemma_record_line(users[i], store[users[i]]);
    }
    lemma_joined_lines(lines);
    let v = Seq::new(users.len(), |i: int| (users[i], store[users[i]]));
    lemma_records(lines, v);
    assert forall|k: Seq<char>| #[trigger] mapping(v).dom().contains(k) == store.dom().contains(k) by {
        lemma_mapping(v, k);
        if store.dom().contains(k) {
            assert(users.to_set().contains(k));
            let i = choose|i: int| 0 <= i < users.len() && users[i] == k;
            assert(v[i].0 == k);
        }
    }
    assert forall|k: Seq<char>| #[trigger] store.dom().contains(k) implies mapping(v)[k]
        == store[k] by {
        lemma_mapping(v, k);
        assert(users.to_set().contains(k));
        let i = choose|i: int| 0 <= i < users.len() && users[i] == k;
        assert(v[i].0 == k);
    }
    assert(mapping(v) =~= store);
}

/// A line that is read back as it was written.
spec fn plain_line(line: Seq<char>) -> bool {
    !line.contains('\n') && without_cr(line) == line
}

proof fn lemma_trimmed_ends(s: Seq<char>)
    requires
        trimmed(s) == s,
        s.len() > 0,
    ensures
        !is_space(s.last()),
{
    let t = trim_start(s);
    lemma_trim_end(t);
}

proof fn lemma_trim_end(s: Seq<char>)
    ensures
        trim_end(s).len() <= s.len(),
        trim_end(s).len() > 0 ==> !is_space(trim_end(s).last()),
    decreases s.len(),
{
    if s.len() > 0 && is_space(s.last()) {
        lemma_trim_end(s.drop_last());
    }
}

proof fn lemma_record_line(user: Seq<char>, session: Seq<char>)
    requires
        clean(user),
        clean(session),
        !user.contains('\t'),
    ensures
        plain_line(record_line(user, session)),
        record_of(record_line(user, session)) == Some((user, session)),
{
    let line = record_line(user, session);
    assert forall|i: int| 0 <= i < line.len() implies line[i] != '\n' by {
        if i < user.len() {
            assert(line[i] == user[i]);
            assert(user.contains(user[i]));
        } else if i > user.len() {
            assert(line[i] == session[i - user.len() - 1]);
            assert(session.contains(session[i - user.len() - 1]));
        }
    }
    lemma_trimmed_ends(session);
    assert(line.last() == session.last());
    assert forall|j: int| 0 <= j < user.len() implies line[j] != '\t' by {
        assert(line[j] == user[j]);
        assert(user.contains(user[j]));
    }
    lemma_find_is(line, '\t', user.len() as int);
    assert(line.take(user.len() as int) =~= user);
    assert(line.skip(user.len() as int + 1) =~= session);
}

/// Lines joined by line feeds, with one after the last, split into those lines.
proof fn lemma_joined_lines(lines: Seq<Seq<char>>)
    requires
        forall|i: int| 0 <= i < lines.len() ==> plain_line(#[trigger] lines[i]),
    ensures
        lines_of(joined(lines.push(Seq::<char>::empty()), '\n')) == lines,
    decreases lines.len(),
{
    let text = joined(lines.push(Seq::<char>::empty()), '\n');
    assert(lines.push(Seq::<char>::empty()).drop_last() =~= lines);
    if lines.len() > 0 {
        let first = lines[0];
        let rest = lines.skip(1);
        lemma_joined_front(lines);
        let tail = joined(rest.push(Seq::<char>::empty()), '\n');
        assert(text == first.push('\n') + tail);
        assert forall|j: int| 0 <= j < first.len() implies text[j] != '\n' by {
            assert(text[j] == first[j]);
            assert(first.contains(first[j]));
        }
        lemma_find_is(text, '\n', first.len() as int);
        assert(text.take(first.len() as int) =~= first);
        assert(text.skip(first.len() as int + 1) =~= tail);
        assert forall|i: int| 0 <= i < rest.len() implies plain_line(#[trigger] rest[i]) by {
            assert(rest[i] == lines[i + 1]);
        }
        lemma_joined_lines(rest);
        assert(seq![first] + rest =~= lines);
    }
}

proof fn lemma_joined_front(lines: Seq<Seq<char>>)
    requires
        lines.len() > 0,
    ensures
        joined(lines.push(Seq::<char>::empty()), '\n') == lines[0].push('\n') + joined(
            lines.skip(1).push(Seq::<char>::empty()),
            '\n',
        ),
    decreases lines.len(),
{
    reveal_with_fuel(joined, 3);
    let none = Seq::<char>::empty();
    assert(lines.push(none).drop_last() =~= lines);
    if lines.len() == 1 {
        assert(lines.skip(1).push(none) =~= seq![none]);
        assert(joined(lines.push(none), '\n') =~= lines[0].push('\n') + none);
    } else {
        let init = lines.drop_last();
        lemma_joined_front(init);
        assert(init.push(none).drop_last() =~= init);
        assert(lines.skip(1).drop_last() =~= init.skip(1));
        assert(lines.skip(1).push(none).drop_last() =~= lines.skip(1));
        assert(init.skip(1).push(none).drop_last() =~= init.skip(1));
        assert(joined(init.push(none), '\n') =~= joined(init, '\n').push('\n'));
        if init.len() == 1 {
            assert(init.skip(1).push(none) =~= seq![none]);
            assert(lines.skip(1) =~= seq![lines.last()]);
            assert(joined(lines.push(none), '\n') =~= lines[0].push('\n') + joined(
                lines.skip(1).push(none),
                '\n',
            ));
        } else {
            assert(joined(init.skip(1).push(none), '\n') =~= joined(init.skip(1), '\n').push(
                '\n',
            ));
            assert(joined(lines.push(none), '\n') =~= lines[0].push('\n') + joined(
                lines.skip(1).push(none),
                '\n',
            ));
        }
    }
}

proof fn lemma_records(lines: Seq<Seq<char>>, v: Seq<(Seq<char>, Seq<char>)>)
    requires
        lines.len() == v.len(),
        forall|i: int| 0 <= i < v.len() ==> record_of(#[trigger] lines[i]) == Some(v[i]),
    ensures
        records(lines) == v,
    decreases lines.len(),
{
    if lines.len() > 0 {
        let init = lines.drop_last();
        assert forall|i: int| 0 <= i < init.len() implies record_of(#[trigger] init[i]) == Some(
            v.drop_last()[i],
        ) by {
            assert(init[i] == lines[i]);
        }
        lemma_records(init, v.drop_last());
        assert(record_of(lines[lines.len() - 1]) == Some(v.last()));
        assert(records(lines) =~= v);
    }
}

/// Whether an account is offered by the greeter.
pub open spec fn offered(account: Account, range: UidRange) -> bool {
    range.has(account.uid) && account.may_log_in()
}

/// The account at `k` is offered and none before it of the same name is.
pub open spec fn first_of_name(accounts: Seq<Account>, range: UidRange, k: int) -> bool {
    &&& 0 <= k < accounts.len()
    &&& offered(accounts[k], range)
    &&& forall|j: int|
        0 <= j < k && offered(#[trigger] accounts[j], range) ==> accounts[j].name@
            != accounts[k].name@
}

/// How an account is offered.
pub open spec fn presented(account: Account, last: Map<Seq<char>, Seq<char>>) -> UserView {
    UserView {
        name: account.name@,
        display_name: trimmed(account.gecos@.take(find(account.gecos@, ','))),
        avatar_path: account.avatar_path@,
        last_session: if last.dom().contains(account.name@) {
            last[account.name@]
        } else {
            seq![]
        },
    }
}

/// `user` presents some account that is the first offered of its name.
pub open spec fn comes_from(
    user: UserView,
    accounts: Seq<Account>,
    range: UidRange,
    last: Map<Seq<char>, Seq<char>>,
) -> bool {
    exists|k: int| #[trigger]
        first_of_name(accounts, range, k) && user == presented(accounts[k], last)
}

/// Some user of the list has this name.
pub open spec fn named(users: Seq<User>, name: Seq<char>) -> bool {
    exists|i: int| 0 <= i < users.len() && (#[trigger] users[i]).name@ == name
}

/// The users a greeter is given: the offered accounts, one per name, by name.
pub open spec fn is_user_list(
    users: Seq<User>,
    accounts: Seq<Account>,
    range: UidRange,
    last: Map<Seq<char>, Seq<char>>,
) -> bool {
    &&& forall|i: int, j: int|
        0 <= i < j < users.len() ==> before(
            (#[trigger] users[i]).name@,
            (#[trigger] users[j]).name@,
        )
    &&& forall|i: int|
        0 <= i < users.len() ==> comes_from((#[trigger] users[i])@, accounts, range, last)
    &&& forall|k: int| #[trigger]
        first_of_name(accounts, range, k) ==> named(users, accounts[k].name@)
}

/// Where `name` belongs in an ascending list, and whether it is there already.
fn place(users: &Vec<User>, name: &Vec<char>) -> (r: (usize, bool))
    requires
        forall|i: int, j: int|
            0 <= i < j < users@.len() ==> before(
                (#[trigger] users@[i]).name@,
                (#[trigger] users@[j]).name@,
            ),
    ensures
        r.0 <= users@.len(),
        r.1 <==> named(users@, name@),
        !r.1 ==> {
            &&& forall|i: int| 0 <= i < r.0 ==> before((#[trigger] users@[i]).name@, name@)
            &&& forall|i: int|
                r.0 <= i < users@.len() ==> before(name@, (#[trigger] users@[i]).name@)
        },
{
    let mut at: usize = 0;
    while at < users.len()
        invariant
            at <= users@.len(),
            forall|i: int| 0 <= i < at ==> before((#[trigger] users@[i]).name@, name@),
            forall|i: int, j: int|
                0 <= i < j < users@.len() ==> before(
                    (#[trigger] users@[i]).name@,
                    (#[trigger] users@[j]).name@,
                ),
        decreases users@.len() - at,
    {
        let other = to_chars(&users[at].name);
        if is_before(&other, name) {
            at += 1;
        } else {
            let later = is_before(name, &other);
            proof {
                lemma_before_total(other@, name@);
                if later {
                    assert forall|i: int| at <= i < users@.len() implies before(
                        name@,
                        (#[trigger] users@[i]).name@,
                    ) by {
                        if i > at {
                            assert(before(users@[at as int].name@, users@[i].name@));
                            lemma_before_transitive(name@, other@, users@[i].name@);
                        }
                    }
                    assert forall|i: int| 0 <= i < users@.len() implies (#[trigger] users@[i]).name@
                        != name@ by {
                        lemma_before_total(users@[i].name@, name@);
                    }
                } else {
                    assert(users@[at as int].name@ == name@);
                }
            }
            return (at, !later);
        }
    }
    proof {
        assert forall|i: int| 0 <= i < users@.len() implies (#[trigger] users@[i]).name@
            != name@ by {
            lemma_before_total(users@[i].name@, name@);
        }
    }
    (at, false)
}

/// The users to offer, out of every account of the user database.
///
/// Accounts outside the range or without a login shell are left out. Database
/// order is not meaningful, so the list is in the order of names; of two accounts
/// of one name the database's first counts.
pub fn discover(accounts: &Vec<Account>, range: UidRange, last_sessions: &LastSessions) -> (r: Vec<
    User,
>)
    ensures
        is_user_list(r@, accounts@, range, last_sessions@),
{
    let mut users: Vec<User> = Vec::new();
    let ghost last = last_sessions@;
    for n in 0..accounts.len()
        invariant
            last == last_sessions@,
            is_user_list(users@, accounts@.take(n as int), range, last),
    {
        let account = &accounts[n];
        let ghost seen = accounts@.take(n as int);
        let ghost next = accounts@.take(n as int + 1);
        let ghost old_users = users@;
        proof {
            assert(next.drop_last() =~= seen);
            assert(next[n as int] == *account);
            assert forall|k: int| first_of_name(seen, range, k) implies #[trigger] first_of_name(
                next,
                range,
                k,
            ) && next[k] == seen[k] by {
                assert forall|j: int|
                    0 <= j < k && offered(#[trigger] next[j], range) implies next[j].name@
                    != next[k].name@ by {
                    assert(next[j] == seen[j]);
                }
            }
            assert forall|k: int| k < n && #[trigger] first_of_name(next, range, k) implies first_of_name(
                seen,
                range,
                k,
            ) by {
                assert forall|j: int|
                    0 <= j < k && offered(#[trigger] seen[j], range) implies seen[j].name@
                    != seen[k].name@ by {
                    assert(next[j] == seen[j]);
                }
            }
            assert forall|i: int| 0 <= i < old_users.len() implies comes_from(
                (#[trigger] old_users[i])@,
                next,
                range,
                last,
            ) by {
                let k = choose|k: int| #[trigger]
                    first_of_name(seen, range, k) && old_users[i]@ == presented(seen[k], last);
                assert(first_of_name(next, range, k));
            }
        }
        if range.contains(account.uid) && account.has_login_shell() {
            let name = to_chars(&account.name);
            let (at, there) = place(&users, &name);
            if !there {
                let last_session: String = match last_sessions.get(&account.name) {
                    Some(id) => id.to_owned(),
                    None => String::new(),
                };
                let user = User {
                    name: account.name.clone(),
                    display_name: display_name_from_gecos(&account.gecos),
                    avatar_path: account.avatar_path.clone(),
                    last_session,
                };
                let ghost shown = user;
                users.insert(at, user);
                proof {
                    assert(shown@ =~= presented(*account, last));
                    lemma_discovered(old_users, seen, next, range, last, at as int, shown, users@);
                }
            } else {
                proof {
                    lemma_name_taken(old_users, seen, next, range, last);
                }
            }
        }
    }
    proof {
        assert(accounts@.take(accounts@.len() as int) =~= accounts@);
    }
    users
}

/// Nothing new is offered where the name is taken.
proof fn lemma_name_taken(
    users: Seq<User>,
    seen: Seq<Account>,
    next: Seq<Account>,
    range: UidRange,
    last: Map<Seq<char>, Seq<char>>,
)
    requires
        next.len() > 0,
        next.drop_last() == seen,
        is_user_list(users, seen, range, last),
        offered(next.last(), range),
        named(users, next.last().name@),
    ensures
        !first_of_name(next, range, seen.len() as int),
{
    let i = choose|i: int| 0 <= i < users.len() && (#[trigger] users[i]).name@ == next.last().name@;
    assert(comes_from(users[i]@, seen, range, last));
    let k = choose|k: int| #[trigger]
        first_of_name(seen, range, k) && users[i]@ == presented(seen[k], last);
    assert(next[k] == seen[k]);
    assert(offered(next[k], range));
}

/// One more account goes into the list.
#[verifier::rlimit(30)]
proof fn lemma_discovered(
    old_users: Seq<User>,
    seen: Seq<Account>,
    next: Seq<Account>,
    range: UidRange,
    last: Map<Seq<char>, Seq<char>>,
    at: int,
    user: User,
    users: Seq<User>,
)
    requires
        next.len() > 0,
        next.drop_last() == seen,
        is_user_list(old_users, seen, range, last),
        offered(next.last(), range),
        !named(old_users, next.last().name@),
        0 <= at <= old_users.len(),
        user@ == presented(next.last(), last),
        users == old_users.insert(at, user),
        forall|i: int| 0 <= i < at ==> before((#[trigger] old_users[i]).name@, user.name@),
        forall|i: int|
            at <= i < old_users.len() ==> before(user.name@, (#[trigger] old_users[i]).name@),
        forall|i: int|
            0 <= i < old_users.len() ==> comes_from((#[trigger] old_users[i])@, next, range, last),
        forall|k: int|
            k < seen.len() && #[trigger] first_of_name(next, range, k) ==> first_of_name(
                seen,
                range,
                k,
            ),
    ensures
        is_user_list(users, next, range, last),
{
    let n = seen.len() as int;
    assert(user.name@ == next.last().name@);
    lemma_is_first(old_users, seen, next, range);
    assert(comes_from(user@, next, range, last));
    assert forall|i: int| 0 <= i < users.len() implies comes_from(
        (#[trigger] users[i])@,
        next,
        range,
        last,
    ) by {
        if i < at {
            assert(users[i] == old_users[i]);
        } else if i > at {
            assert(users[i] == old_users[i - 1]);
        }
    }
    lemma_insert_ascends(old_users, at, user);
    assert forall|k: int| #[trigger] first_of_name(next, range, k) implies named(
        users,
        next[k].name@,
    ) by {
        if k < n {
            assert(first_of_name(seen, range, k));
            assert(named(old_users, seen[k].name@));
            assert(next[k] == seen[k]);
        }
        lemma_still_named(old_users, at, user, next[k].name@);
    }
}

/// Inserting a user loses no name.
proof fn lemma_still_named(old_users: Seq<User>, at: int, user: User, name: Seq<char>)
    requires
        0 <= at <= old_users.len(),
        named(old_users, name) || user.name@ == name,
    ensures
        named(old_users.insert(at, user), name),
{
    let users = old_users.insert(at, user);
    if user.name@ == name {
        assert(users[at].name@ == name);
    } else {
        let i = choose|i: int| 0 <= i < old_users.len() && (#[trigger] old_users[i]).name@ == name;
        if i < at {
            assert(users[i] == old_users[i]);
        } else {
            assert(users[i + 1] == old_users[i]);
        }
    }
}

/// An account whose name is not listed yet is the first of its name.
proof fn lemma_is_first(users: Seq<User>, seen: Seq<Account>, next: Seq<Account>, range: UidRange)
    requires
        next.len() > 0,
        next.drop_last() == seen,
        offered(next.last(), range),
        !named(users, next.last().name@),
        forall|k: int| #[trigger]
            first_of_name(seen, range, k) ==> named(users, seen[k].name@),
    ensures
        first_of_name(next, range, seen.len() as int),
{
    let n = seen.len() as int;
    assert forall|j: int| 0 <= j < n && offered(#[trigger] next[j], range) implies next[j].name@
        != next[n].name@ by {
        assert(next[j] == seen[j]);
        lemma_first_exists(seen, range, j);
        let k = choose|k: int| #[trigger]
            first_of_name(seen, range, k) && seen[k].name@ == seen[j].name@;
        assert(named(users, seen[k].name@));
    }
}

/// Inserting a name where it belongs keeps the names ascending.
proof fn lemma_insert_ascends(old_users: Seq<User>, at: int, user: User)
    requires
        0 <= at <= old_users.len(),
        forall|i: int, j: int|
            0 <= i < j < old_users.len() ==> before(
                (#[trigger] old_users[i]).name@,
                (#[trigger] old_users[j]).name@,
            ),
        forall|i: int| 0 <= i < at ==> before((#[trigger] old_users[i]).name@, user.name@),
        forall|i: int|
            at <= i < old_users.len() ==> before(user.name@, (#[trigger] old_users[i]).name@),
    ensures
        forall|i: int, j: int|
            0 <= i < j < old_users.len() + 1 ==> before(
                (#[trigger] old_users.insert(at, user)[i]).name@,
                (#[trigger] old_users.insert(at, user)[j]).name@,
            ),
{
    let users = old_users.insert(at, user);
    assert forall|i: int, j: int| 0 <= i < j < users.len() implies before(
        (#[trigger] users[i]).name@,
        (#[trigger] users[j]).name@,
    ) by {
        if j < at {
            assert(users[i] == old_users[i] && users[j] == old_users[j]);
        } else if j == at {
            assert(users[i] == old_users[i]);
        } else {
            assert(users[j] == old_users[j - 1]);
            if i < at {
                assert(users[i] == old_users[i]);
                assert(before(old_users[i].name@, old_users[j - 1].name@));
            } else if i > at {
                assert(users[i] == old_users[i - 1]);
                assert(before(old_users[i - 1].name@, old_users[j - 1].name@));
            }
        }
    }
}

/// Every offered account has a first of its name.
proof fn lemma_first_exists(accounts: Seq<Account>, range: UidRange, j: int)
    requires
        0 <= j < accounts.len(),
        offered(accounts[j], range),
    ensures
        exists|k: int| #[trigger]
            first_of_name(accounts, range, k) && accounts[k].name@ == accounts[j].name@,
    decreases j,
{
    if !first_of_name(accounts, range, j) {
        let i = choose|i: int|
            0 <= i < j && offered(#[trigger] accounts[i], range) && accounts[i].name@
                == accounts[j].name@;
        lemma_first_exists(accounts, range, i);
    }
}

proof fn lemma_after_last<T>(dir: Seq<T>, name: Seq<T>, slash: T)
    requires
        forall|i: int| 0 <= i < name.len() ==> #[trigger] name[i] != slash,
    ensures
        after_last(dir.push(slash) + name, slash) == name,
        after_last(name, slash) == name,
    decreases name.len(),
{
    let path = dir.push(slash) + name;
    if name.len() > 0 {
        let init = name.drop_last();
        assert forall|i: int| 0 <= i < init.len() implies #[trigger] init[i] != slash by {
            assert(init[i] == name[i]);
        }
        lemma_after_last(dir, init, slash);
        assert(path.drop_last() =~= dir.push(slash) + init);
        assert(path.last() == name[name.len() - 1]);
        assert(init.push(name.last()) =~= name);
    } else {
        assert(path.last() == slash);
        assert(name =~= seq![]);
    }
}

/// The last component of a path is what follows its last separator, with or without
/// a directory before it; separators behind it and `.` behind those do not count.
/// `.` and `..` are no names.
pub proof fn law_the_last_component<T>(dir: Seq<T>, name: Seq<T>, slash: T, dot: T)
    requires
        slash != dot,
        name.len() > 0,
        forall|i: int| 0 <= i < name.len() ==> #[trigger] name[i] != slash,
    ensures
        name != seq![dot] && name != seq![dot, dot] ==> {
            &&& last_component(name, slash, dot) == Some(name)
            &&& last_component(dir.push(slash) + name, slash, dot) == Some(name)
        },
        last_component(seq![dot], slash, dot) is None,
        last_component(dir.push(slash) + seq![dot, dot], slash, dot) is None,
        last_component(dir.push(slash), slash, dot) == last_component(dir, slash, dot),
        last_component(dir.push(slash).push(dot), slash, dot) == last_component(dir, slash, dot),
        last_component(Seq::<T>::empty(), slash, dot) is None,
{
    lemma_after_last(dir, name, slash);
    let path = dir.push(slash) + name;
    assert(path.last() == name[name.len() - 1]);
    if name.len() >= 2 {
        assert(path[path.len() - 2] == name[name.len() - 2]);
        assert(name[name.len() - 2] != slash);
    } else {
        assert(path[path.len() - 2] == slash);
        assert(name =~= seq![name[0]]);
    }
    assert(name.last() == name[name.len() - 1]);
    let one = seq![dot];
    assert(one.last() == dot);
    lemma_after_last(dir, one, slash);
    let two = seq![dot, dot];
    let up = dir.push(slash) + two;
    lemma_after_last(dir, two, slash);
    assert(up.last() == dot && up[up.len() - 2] == dot);
    assert(dir.push(slash).drop_last() =~= dir);
    assert(dir.push(slash).last() == slash);
    let here = dir.push(slash).push(dot);
    assert(here.last() == dot && here[here.len() - 2] == slash);
    assert(here.take(here.len() - 2) =~= dir);
}

/// A shell is judged by the name of its program alone, in whatever directory that
/// is: it permits login unless the name is no text or one of those that refuse. An
/// empty shell permits login.
pub proof fn law_shells_are_judged_by_their_name(dir: Seq<u8>, name: Seq<u8>)
    requires
        name.len() > 0,
        forall|i: int| 0 <= i < name.len() ==> #[trigger] name[i] != 47,
        name != seq![46u8],
        name != seq![46u8, 46u8],
    ensures
        login_shell(dir.push(47) + name) == login_shell(name),
        login_shell(name) <==> valid_utf8(name) && !({
            let text = decode_utf8(name);
            text == "nologin"@ || text == "false"@ || text == "true"@ || text == "sync"@ || text
                == "shutdown"@ || text == "halt"@
        }),
        login_shell(Seq::<u8>::empty()),
{
    law_the_last_component(dir, name, 47u8, 46u8);
}

/// A path below another: an absolute one stands for itself, and between the two
/// parts of any other there is one separator.
pub proof fn law_paths_are_joined_by_one_separator(base: Seq<u8>, rest: Seq<u8>)
    requires
        rest.len() > 0,
    ensures
        rest[0] == 47 ==> path_join(base, rest) == rest,
        rest[0] != 47 ==> path_join(base.push(47), rest) == base.push(47) + rest,
        rest[0] != 47 && base.len() > 0 && base.last() != 47 ==> path_join(base, rest)
            == base.push(47) + rest,
        rest[0] != 47 ==> path_join(Seq::<u8>::empty(), rest) == rest,
{
    assert(Seq::<u8>::empty() + rest =~= rest);
}

/// The avatar of a user is the first candidate that is there, and there is none
/// where no candidate is.
pub proof fn law_the_first_avatar_counts(places: Seq<Seq<u8>>, present: Seq<bool>, k: int)
    requires
        0 <= k <= places.len(),
        places.len() == present.len(),
        forall|i: int| 0 <= i < k ==> !(#[trigger] present[i]),
    ensures
        k < places.len() && present[k] ==> first_present(places, present) == Some(places[k]),
        k == places.len() ==> first_present(places, present) is None,
    decreases places.len(),
{
    if k > 0 {
        let p = places.skip(1);
        let q = present.skip(1);
        assert(!present[0]);
        assert forall|i: int| 0 <= i < k - 1 implies !(#[trigger] q[i]) by {
            assert(q[i] == present[i + 1]);
        }
        law_the_first_avatar_counts(p, q, k - 1);
    }
}

/// The system's avatar of a user is looked for first, then those in the user's home.
pub proof fn law_where_avatars_are(name: Seq<char>, home: Seq<u8>)
    ensures
        avatar_places(name, home).len() == 3,
        avatar_places(name, home)[0] == path_join(
            encode_utf8("/var/lib/AccountsService/icons"@),
            encode_utf8(name),
        ),
        avatar_places(name, home)[1] == path_join(home, encode_utf8(".face"@)),
        avatar_places(name, home)[2] == path_join(home, encode_utf8(".face.icon"@)),
        avatar_text(None).len() == 0,
        forall|place: Seq<u8>|
            avatar_text(Some(place)) == if valid_utf8(place) {
                #[trigger] decode_utf8(place)
            } else {
                seq![]
            },
{
}

/// Every user on offer stands for an account whose uid is in the range and whose
/// shell permits login, the first of its name, and has that account's name and
/// avatar, the first field of its GECOS and the session on record under its name.
pub proof fn law_a_user_on_offer_is_an_account(
    users: Seq<User>,
    accounts: Seq<Account>,
    range: UidRange,
    last: Map<Seq<char>, Seq<char>>,
    i: int,
)
    requires
        is_user_list(users, accounts, range, last),
        0 <= i < users.len(),
    ensures
        exists|k: int|
            0 <= k < accounts.len() && (#[trigger] accounts[k]).name@ == users[i].name@
                && range.min <= accounts[k].uid <= range.max && login_shell(accounts[k].shell@)
                && users[i].avatar_path@ == accounts[k].avatar_path@ && users[i].display_name@
                == trimmed(accounts[k].gecos@.take(find(accounts[k].gecos@, ','))) && forall|
                j: int,
            |
                0 <= j < k && range.min <= (#[trigger] accounts[j]).uid <= range.max
                    && login_shell(accounts[j].shell@) ==> accounts[j].name@ != users[i].name@,
        last.dom().contains(users[i].name@) ==> users[i].last_session@ == last[users[i].name@],
        !last.dom().contains(users[i].name@) ==> users[i].last_session@.len() == 0,
{
    assert(comes_from(users[i]@, accounts, range, last));
    let k = choose|k: int| #[trigger]
        first_of_name(accounts, range, k) && users[i]@ == presented(accounts[k], last);
    assert(accounts[k].name@ == users[i].name@);
    assert forall|j: int|
        0 <= j < k && range.min <= (#[trigger] accounts[j]).uid <= range.max && login_shell(
            accounts[j].shell@,
        ) implies accounts[j].name@ != users[i].name@ by {
        assert(offered(accounts[j], range));
    }
}

/// Every account whose uid is in the range and whose shell permits login is on
/// offer, and the list is by name without repetition.
pub proof fn law_whoever_may_log_in_is_on_offer(
    users: Seq<User>,
    accounts: Seq<Account>,
    range: UidRange,
    last: Map<Seq<char>, Seq<char>>,
    k: int,
)
    requires
        is_user_list(users, accounts, range, last),
        0 <= k < accounts.len(),
        range.min <= accounts[k].uid <= range.max,
        login_shell(accounts[k].shell@),
    ensures
        exists|i: int| 0 <= i < users.len() && (#[trigger] users[i]).name@ == accounts[k].name@,
        forall|i: int, j: int|
            0 <= i < j < users.len() ==> before(
                (#[trigger] users[i]).name@,
                (#[trigger] users[j]).name@,
            ),
{
    lemma_first_exists(accounts, range, k);
    let f = choose|f: int| #[trigger]
        first_of_name(accounts, range, f) && accounts[f].name@ == accounts[k].name@;
    assert(named(users, accounts[f].name@));
}

/// The first field of a GECOS is what stands before its first comma.
pub proof fn law_the_first_field_of_a_gecos(field: Seq<char>, rest: Seq<char>)
    requires
        !field.contains(','),
    ensures
        ({
            let gecos = field.push(',') + rest;
            gecos.take(find(gecos, ',')) == field && field.take(find(field, ',')) == field
        }),
{
    let gecos = field.push(',') + rest;
    let n = field.len() as int;
    assert(gecos[n] == ',');
    assert forall|j: int| 0 <= j < n implies gecos[j] != ',' by {
        assert(gecos[j] == field[j]);
    }
    lemma_find_is(gecos, ',', n);
    assert(gecos.take(n) =~= field);
    lemma_find_is(field, ',', n);
    assert(field.take(n) =~= field);
}

/// A line without a tab, or with an empty field, records nothing, and does not
/// touch what other lines record; of two records of a user the later counts.
pub proof fn law_a_bad_line_loses_nothing_else(
    lines: Seq<Seq<char>>,
    line: Seq<char>,
    user: Seq<char>,
    session: Seq<char>,
)
    ensures
        !line.contains('\t') ==> records(lines.push(line)) == records(lines),
        clean(user) && clean(session) && !user.contains('\t') ==> mapping(
            records(lines.push(user.push('\t') + session)),
        ) == mapping(records(lines)).insert(user, session),
{
    assert(lines.push(line).drop_last() =~= lines);
    if !line.contains('\t') {
        lemma_find(line, '\t');
        if find(line, '\t') < line.len() {
            assert(line[find(line, '\t')] == '\t');
        }
    }
    if clean(user) && clean(session) && !user.contains('\t') {
        let good = user.push('\t') + session;
        lemma_record_line(user, session);
        assert(lines.push(good).drop_last() =~= lines);
        assert(records(lines).push((user, session)).drop_last() =~= records(lines));
    }
}

/// A setting of `login.defs` is read: a bound follows its key after white space, and
/// may be followed by a comment, which says nothing.
pub proof fn law_bounds_are_read(
    range: UidRange,
    gap: char,
    value: Seq<char>,
    n: u32,
    comment: Seq<char>,
)
    requires
        is_space(gap),
        !value.contains('#'),
        unsigned(trimmed(value), u32::MAX as nat) == Some(n as nat),
    ensures
        range_with_line(range, "UID_MIN"@.push(gap) + value) == (UidRange {
            min: n,
            max: range.max,
        }),
        range_with_line(range, "UID_MAX"@.push(gap) + value) == (UidRange {
            min: range.min,
            max: n,
        }),
        range_with_line(range, seq!['#'] + comment) == range,
        range_with_line(range, ("UID_MIN"@.push(gap) + value).push('#') + comment) == (UidRange {
            min: n,
            max: range.max,
        }),
        range_with_line(range, ("UID_MAX"@.push(gap) + value).push('#') + comment) == (UidRange {
            min: range.min,
            max: n,
        }),
{
    reveal_strlit("UID_MIN");
    reveal_strlit("UID_MAX");
    lemma_bound("UID_MIN"@, gap, value, comment);
    lemma_bound("UID_MAX"@, gap, value, comment);
    assert("UID_MIN"@[4] == 'M' && "UID_MIN"@[5] == 'I' && "UID_MAX"@[5] == 'A');
    let c = seq!['#'] + comment;
    lemma_find_is(c, '#', 0);
    assert(c.take(0) =~= seq![]);
    assert(trimmed(c.take(0)) =~= seq![]);
    assert(find_space(Seq::<char>::empty()) == 0);
}

proof fn lemma_bound(key: Seq<char>, gap: char, value: Seq<char>, comment: Seq<char>)
    requires
        key.len() == 7,
        forall|i: int| 0 <= i < 7 ==> !is_space(#[trigger] key[i]) && key[i] != '#',
        is_space(gap),
        !value.contains('#'),
        trimmed(value).len() > 0,
    ensures
        ({
            let line = key.push(gap) + value;
            let noted = line.push('#') + comment;
            let content = defs_content(line);
            &&& defs_content(noted) == content
            &&& find_space(content) == 7
            &&& content.len() > 7
            &&& content.take(7) == key
            &&& trimmed(content.skip(8)) == trimmed(value)
        }),
{
    let line = key.push(gap) + value;
    let noted = line.push('#') + comment;
    let n = line.len() as int;
    assert forall|j: int| 0 <= j < n implies line[j] != '#' by {
        if j < 7 {
            assert(line[j] == key[j]);
        } else if j > 7 {
            assert(line[j] == value[j - 8]);
        }
    }
    lemma_find_is(line, '#', n);
    assert(line.take(n) =~= line);
    assert(noted[n] == '#');
    assert forall|j: int| 0 <= j < n implies noted[j] != '#' by {
        assert(noted[j] == line[j]);
    }
    lemma_find_is(noted, '#', n);
    assert(noted.take(n) =~= line);
    assert(line[0] == key[0]);
    let content = trimmed(line);
    lemma_trim_end_after(key.push(gap), value);
    assert(content == key.push(gap) + trim_end(value));
    assert forall|j: int| 0 <= j < 7 implies !is_space(content[j]) by {
        assert(content[j] == key[j]);
    }
    assert(content[7] == gap);
    lemma_find_space(content);
    if find_space(content) < 7 {
        assert(!is_space(content[find_space(content)]));
    }
    assert(content.take(7) =~= key);
    assert(content.skip(8) =~= trim_end(value));
    lemma_trim_twice(value);
}

/// Trimming the end of what begins with something stops there, where the rest is
/// not all white space.
proof fn lemma_trim_end_after(head: Seq<char>, rest: Seq<char>)
    requires
        trimmed(rest).len() > 0,
    ensures
        trim_end(head + rest) == head + trim_end(rest),
        trimmed(trim_end(rest)) == trimmed(rest),
        trim_end(rest).len() > 0,
    decreases rest.len(),
{
    lemma_trimmed_is_empty(rest);
    let i = choose|i: int| 0 <= i < rest.len() && !is_space(#[trigger] rest[i]);
    if is_space(rest.last()) {
        let init = rest.drop_last();
        assert(i < init.len());
        assert(init[i] == rest[i]);
        lemma_trimmed_is_empty(init);
        assert((head + rest).drop_last() =~= head + init);
        assert((head + rest).last() == rest.last());
        lemma_trim_end_after(head, init);
        lemma_trim_twice(rest);
    } else {
        assert((head + rest).last() == rest.last());
    }
}

proof fn lemma_trim_twice(s: Seq<char>)
    ensures
        trimmed(trim_end(s)) == trimmed(s),
    decreases s.len(),
{
    if s.len() > 0 && is_space(s.last()) {
        let init = s.drop_last();
        lemma_trim_twice(init);
        lemma_trim_last(s);
    } else {
    }
}

/// White space at the end makes no difference to a trimmed text.
proof fn lemma_trim_last(s: Seq<char>)
    requires
        s.len() > 0,
        is_space(s.last()),
    ensures
        trimmed(s) == trimmed(s.drop_last()),
    decreases s.len(),
{
    let init = s.drop_last();
    if s.len() == 1 {
        assert(s.skip(1) =~= seq![]);
        assert(init =~= seq![]);
        assert(s[0] == s.last());
    } else if is_space(s[0]) {
        assert(init[0] == s[0]);
        assert(s.skip(1).drop_last() =~= init.skip(1));
        assert(s.skip(1).last() == s.last());
        lemma_trim_last(s.skip(1));
    } else {
        assert(init[0] == s[0]);
    }
}

/// A range that leaves root out and is the right way round is taken as it is, and
/// one that is the wrong way round is not taken at all; later lines override earlier
/// ones.
pub proof fn law_a_sound_range_is_taken(
    range: UidRange,
    lines: Seq<Seq<char>>,
    line: Seq<char>,
)
    ensures
        1 <= range.min <= range.max ==> admissible(range) == range,
        range.min > range.max && range.min > 0 ==> admissible(range) == (UidRange {
            min: 1000,
            max: 60_000,
        }),
        range.min == 0 && range.max >= 1 ==> admissible(range) == (UidRange {
            min: 1,
            max: range.max,
        }),
        range_with_lines(range, lines.push(line)) == range_with_line(
            range_with_lines(range, lines),
            line,
        ),
        range_with_lines(range, Seq::<Seq<char>>::empty()) == range,
        fallback_range() == (UidRange { min: 1000, max: 60_000 }),
{
    assert(lines.push(line).drop_last() =~= lines);
}

} // verus!
