//! Launching a user's session after a successful login.
//!
//! Everything that needs root, such as resolving the account and its
//! supplementary groups, is done before the session's process is forked, so that
//! a failure is reported while there is still somebody to report it to and the
//! child does no more than a fixed list of steps.
use vstd::prelude::*;
use vstd::utf8::encode_utf8;

use crate::pamwire::{lossy, marked, text_of};
use crate::sessions::{desktop_name, xdg_type, Session, SessionView};
use crate::text::{
    decimal, find, lemma_find, number, pairs, position, push_str, same, to_chars, trim, trimmed,
};
use crate::users::{distinct_keys, lemma_mapping, lemma_mapping_update, mapping, Account, UidRange};

verus! {

/// Failure to prepare or launch a session.
#[derive(Debug)]
pub enum LaunchError {
    NoSuchUser(String),
    NoShell(String),
    NotLoginable(String),
    EmptyCommand(String),
    /// The groups of a user could not be resolved, and why.
    Groups(String, String),
    NulInPath(String),
    Spawn(String),
}

/// What a [`LaunchError`] says, with strings as character sequences.
#[verifier::ext_equal]
pub enum LaunchErrorView {
    NoSuchUser(Seq<char>),
    NoShell(Seq<char>),
    NotLoginable(Seq<char>),
    EmptyCommand(Seq<char>),
    Groups(Seq<char>, Seq<char>),
    NulInPath(Seq<char>),
    Spawn(Seq<char>),
}

impl View for LaunchError {
    type V = LaunchErrorView;

    open spec fn view(&self) -> LaunchErrorView {
        match self {
            LaunchError::NoSuchUser(user) => LaunchErrorView::NoSuchUser(user@),
            LaunchError::NoShell(user) => LaunchErrorView::NoShell(user@),
            LaunchError::NotLoginable(user) => LaunchErrorView::NotLoginable(user@),
            LaunchError::EmptyCommand(id) => LaunchErrorView::EmptyCommand(id@),
            LaunchError::Groups(user, cause) => LaunchErrorView::Groups(user@, cause@),
            LaunchError::NulInPath(user) => LaunchErrorView::NulInPath(user@),
            LaunchError::Spawn(cause) => LaunchErrorView::Spawn(cause@),
        }
    }
}

/// The sentence an error is shown as.
pub open spec fn sentence(e: LaunchErrorView) -> Seq<char> {
    match e {
        LaunchErrorView::NoSuchUser(user) => "no such user: "@ + user,
        LaunchErrorView::NoShell(user) => "user "@ + user + " has no valid login shell"@,
        LaunchErrorView::NotLoginable(user) => "user "@ + user
            + " is outside the loginable uid range"@,
        LaunchErrorView::EmptyCommand(id) => "session command for "@ + id + " is empty"@,
        LaunchErrorView::Groups(user, cause) => "resolving groups for "@ + user + ": "@ + cause,
        LaunchErrorView::NulInPath(user) => "a path for "@ + user
            + " is not representable as a C string"@,
        LaunchErrorView::Spawn(cause) => "spawning session: "@ + cause,
    }
}

impl LaunchError {
    /// The sentence this error is shown as.
    pub fn message(&self) -> (r: String)
        ensures
            r@ == sentence(self@),
    {
        let mut s = String::new();
        match self {
            LaunchError::NoSuchUser(user) => {
                push_str(&mut s, "no such user: ");
                push_str(&mut s, user);
            },
            LaunchError::NoShell(user) => {
                push_str(&mut s, "user ");
                push_str(&mut s, user);
                push_str(&mut s, " has no valid login shell");
            },
            LaunchError::NotLoginable(user) => {
                push_str(&mut s, "user ");
                push_str(&mut s, user);
                push_str(&mut s, " is outside the loginable uid range");
            },
            LaunchError::EmptyCommand(id) => {
                push_str(&mut s, "session command for ");
                push_str(&mut s, id);
                push_str(&mut s, " is empty");
            },
            LaunchError::Groups(user, cause) => {
                push_str(&mut s, "resolving groups for ");
                push_str(&mut s, user);
                push_str(&mut s, ": ");
                push_str(&mut s, cause);
            },
            LaunchError::NulInPath(user) => {
                push_str(&mut s, "a path for ");
                push_str(&mut s, user);
                push_str(&mut s, " is not representable as a C string");
            },
            LaunchError::Spawn(cause) => {
                push_str(&mut s, "spawning session: ");
                push_str(&mut s, cause);
            },
        }
        assert(s@ =~= sentence(self@));
        s
    }
}

/// Whether `s` begins with `prefix`.
pub open spec fn starts_with(s: Seq<char>, prefix: Seq<char>) -> bool {
    prefix.len() <= s.len() && s.take(prefix.len() as int) == prefix
}

/// Whether `s` begins with `prefix`.
pub fn has_prefix(s: &Vec<char>, prefix: &str) -> (r: bool)
    ensures
        r == starts_with(s@, prefix@),
{
    let p = to_chars(prefix);
    if p.len() > s.len() {
        return false;
    }
    for i in 0..p.len()
        invariant
            p@ == prefix@,
            p@.len() <= s@.len(),
            forall|j: int| 0 <= j < i ==> p@[j] == s@[j],
    {
        if p[i] != s[i] {
            proof {
                assert(s@.take(p@.len() as int)[i as int] != p@[i as int]);
            }
            return false;
        }
    }
    proof {
        assert(s@.take(p@.len() as int) =~= p@);
    }
    true
}

/// The names of variables a greeter may contribute: those that only concern
/// presentation.
pub open spec fn greeter_key(key: Seq<char>) -> bool {
    ||| key == "LANG"@
    ||| key == "LANGUAGE"@
    ||| starts_with(key, "LC_"@)
    ||| starts_with(key, "XKB_"@)
}

/// The values a greeter may give: short ones that are no path.
pub open spec fn greeter_value(value: Seq<char>) -> bool {
    !value.contains('/') && !value.contains('\0') && encode_utf8(value).len() <= 64
}

/// Environment variables the greeter is allowed to contribute.
///
/// An allowlist: a variable that unprivileged code controls in a session that
/// runs through the user's login shell is a variable it can run code with, and
/// listing the dangerous ones never ends. Values are checked too, because a locale
/// name with a slash is loaded from that path and `XKB_CONFIG_ROOT` names a data
/// directory, and no locale or layout name is long.
pub fn greeter_may_set(key: &str, value: &str) -> (r: bool)
    ensures
        r == (greeter_key(key@) && greeter_value(value@)),
{
    let k = to_chars(key);
    if !(same(key, "LANG") || same(key, "LANGUAGE") || has_prefix(&k, "LC_") || has_prefix(
        &k,
        "XKB_",
    )) {
        return false;
    }
    let v = to_chars(value);
    let slash = position(&v, '/');
    let nul = position(&v, '\0');
    proof {
        lemma_find(v@, '/');
        lemma_find(v@, '\0');
        lemma_contains_is_found(v@, '/');
        lemma_contains_is_found(v@, '\0');
    }
    if slash < v.len() || nul < v.len() {
        return false;
    }
    value.as_bytes().len() <= 64
}

proof fn lemma_contains_is_found(s: Seq<char>, c: char)
    ensures
        s.contains(c) <==> find(s, c) < s.len(),
{
    lemma_find(s, c);
    if s.contains(c) {
        let i = choose|i: int| 0 <= i < s.len() && s[i] == c;
        assert(s[i] == c);
    }
}

/// Where `key` stands in an environment, or its length where it does not.
pub open spec fn slot(env: Seq<(Seq<char>, Seq<char>)>, key: Seq<char>) -> int
    decreases env.len(),
{
    if env.len() == 0 || env[0].0 == key {
        0
    } else {
        1 + slot(env.skip(1), key)
    }
}

/// An environment with a variable set, in place where it was set before.
pub open spec fn put(
    env: Seq<(Seq<char>, Seq<char>)>,
    pair: (Seq<char>, Seq<char>),
) -> Seq<(Seq<char>, Seq<char>)> {
    let i = slot(env, pair.0);
    if i < env.len() {
        env.update(i, pair)
    } else {
        env.push(pair)
    }
}

/// The environment that setting these variables in turn makes.
pub open spec fn assembled(settings: Seq<(Seq<char>, Seq<char>)>) -> Seq<(Seq<char>, Seq<char>)>
    decreases settings.len(),
{
    if settings.len() == 0 {
        seq![]
    } else {
        put(assembled(settings.drop_last()), settings.last())
    }
}

proof fn lemma_slot(env: Seq<(Seq<char>, Seq<char>)>, key: Seq<char>)
    ensures
        0 <= slot(env, key) <= env.len(),
        slot(env, key) < env.len() ==> env[slot(env, key)].0 == key,
        forall|i: int| 0 <= i < slot(env, key) ==> (#[trigger] env[i]).0 != key,
    decreases env.len(),
{
    if env.len() > 0 && env[0].0 != key {
        let rest = env.skip(1);
        lemma_slot(rest, key);
        assert forall|i: int| 0 <= i < slot(env, key) implies (#[trigger] env[i]).0 != key by {
            if i > 0 {
                assert(rest[i - 1] == env[i]);
            }
        }
    }
}

proof fn lemma_slot_is(env: Seq<(Seq<char>, Seq<char>)>, key: Seq<char>, i: int)
    requires
        0 <= i <= env.len(),
        i < env.len() ==> env[i].0 == key,
        forall|j: int| 0 <= j < i ==> (#[trigger] env[j]).0 != key,
    ensures
        slot(env, key) == i,
{
    lemma_slot(env, key);
    let s = slot(env, key);
    if s < i {
        assert(env[s].0 != key);
    } else if i < s {
        assert(env[i].0 != key);
    }
}

/// Set a variable, in place where it was set before.
fn set(env: &mut Vec<(String, String)>, key: &str, value: String)
    ensures
        pairs(final(env)@) == put(pairs(old(env)@), (key@, value@)),
{
    let mut i: usize = 0;
    while i < env.len() && !same(&env[i].0, key)
        invariant
            env@ == old(env)@,
            i <= env@.len(),
            forall|j: int| 0 <= j < i ==> (#[trigger] pairs(env@)[j]).0 != key@,
        decreases env@.len() - i,
    {
        i += 1;
    }
    proof {
        lemma_slot_is(pairs(env@), key@, i as int);
    }
    let ghost old_pairs = pairs(env@);
    let pair: (String, String) = (key.to_owned(), value);
    if i < env.len() {
        env.set(i, pair);
        assert(pairs(env@) =~= put(old_pairs, (key@, value@)));
    } else {
        env.push(pair);
        assert(pairs(env@) =~= put(old_pairs, (key@, value@)));
    }
}

proof fn lemma_assembled_push(
    settings: Seq<(Seq<char>, Seq<char>)>,
    pair: (Seq<char>, Seq<char>),
)
    ensures
        assembled(settings.push(pair)) == put(assembled(settings), pair),
{
    assert(settings.push(pair).drop_last() =~= settings);
}

/// What of a greeter's request is granted, in order.
pub open spec fn granted(extra: Seq<(Seq<char>, Seq<char>)>) -> Seq<(Seq<char>, Seq<char>)>
    decreases extra.len(),
{
    if extra.len() == 0 {
        seq![]
    } else if greeter_key(extra.last().0) && greeter_value(extra.last().1) {
        granted(extra.drop_last()).push(extra.last())
    } else {
        granted(extra.drop_last())
    }
}

/// What every session starts from.
pub open spec fn defaults() -> Seq<(Seq<char>, Seq<char>)> {
    seq![("PATH"@, "/usr/local/bin:/usr/bin:/bin"@), ("TERM"@, "linux"@)]
}

/// The facts about the user and the seat that nothing may contradict.
pub open spec fn facts(
    session: SessionView,
    username: Seq<char>,
    home: Seq<char>,
    shell: Seq<char>,
    vt: u32,
) -> Seq<(Seq<char>, Seq<char>)> {
    seq![
        ("HOME"@, home),
        ("PWD"@, home),
        ("SHELL"@, shell),
        ("USER"@, username),
        ("LOGNAME"@, username),
        ("XDG_SEAT"@, "seat0"@),
        ("XDG_VTNR"@, decimal(vt as nat)),
        ("XDG_SESSION_CLASS"@, "user"@),
        ("XDG_SESSION_TYPE"@, xdg_type(session.session_type)),
        ("XDG_SESSION_DESKTOP"@, desktop_name(session.id)),
    ]
}

/// Everything that is set in a session's environment, in order.
pub open spec fn settings(
    session: SessionView,
    username: Seq<char>,
    home: Seq<char>,
    shell: Seq<char>,
    vt: u32,
    pam: Seq<(Seq<char>, Seq<char>)>,
    extra: Seq<(Seq<char>, Seq<char>)>,
) -> Seq<(Seq<char>, Seq<char>)> {
    defaults() + pam + granted(extra) + facts(session, username, home, shell, vt)
}

/// Set the variables of a list, in order.
fn set_all(
    env: &mut Vec<(String, String)>,
    more: &Vec<(String, String)>,
    Ghost(before): Ghost<Seq<(Seq<char>, Seq<char>)>>,
)
    requires
        pairs(old(env)@) == assembled(before),
    ensures
        pairs(final(env)@) == assembled(before + pairs(more@)),
{
    for i in 0..more.len()
        invariant
            pairs(env@) == assembled(before + pairs(more@).take(i as int)),
    {
        let value: String = more[i].1.clone();
        set(env, &more[i].0, value);
        proof {
            let ps = pairs(more@);
            lemma_assembled_push(before + ps.take(i as int), ps[i as int]);
            assert((before + ps.take(i as int)).push(ps[i as int]) =~= before + ps.take(
                i as int + 1,
            ));
        }
    }
    proof {
        assert(pairs(more@).take(more@.len() as int) =~= pairs(more@));
    }
}

/// The part of a greeter's request that is granted.
fn filter(extra: &Vec<(String, String)>) -> (r: Vec<(String, String)>)
    ensures
        pairs(r@) == granted(pairs(extra@)),
{
    let mut r: Vec<(String, String)> = Vec::new();
    for i in 0..extra.len()
        invariant
            pairs(r@) == granted(pairs(extra@).take(i as int)),
    {
        let ghost ps = pairs(extra@);
        proof {
            assert(ps.take(i as int + 1).drop_last() =~= ps.take(i as int));
        }
        if greeter_may_set(&extra[i].0, &extra[i].1) {
            let ghost old_r = r@;
            r.push((extra[i].0.clone(), extra[i].1.clone()));
            assert(pairs(r@) =~= pairs(old_r).push(ps[i as int]));
        }
    }
    proof {
        assert(pairs(extra@).take(extra@.len() as int) =~= pairs(extra@));
    }
    r
}

/// The facts as a list.
fn fact_list(session: &Session, username: &str, home: &str, shell: &str, vt: u32) -> (r: Vec<
    (String, String),
>)
    ensures
        pairs(r@) == facts(session@, username@, home@, shell@, vt),
{
    let mut r: Vec<(String, String)> = Vec::new();
    r.push(("HOME".to_owned(), home.to_owned()));
    r.push(("PWD".to_owned(), home.to_owned()));
    r.push(("SHELL".to_owned(), shell.to_owned()));
    r.push(("USER".to_owned(), username.to_owned()));
    r.push(("LOGNAME".to_owned(), username.to_owned()));
    r.push(("XDG_SEAT".to_owned(), "seat0".to_owned()));
    r.push(("XDG_VTNR".to_owned(), number(vt as u64)));
    r.push(("XDG_SESSION_CLASS".to_owned(), "user".to_owned()));
    r.push(("XDG_SESSION_TYPE".to_owned(), session.xdg_session_type().to_owned()));
    r.push(("XDG_SESSION_DESKTOP".to_owned(), session.xdg_session_desktop()));
    assert(pairs(r@) =~= facts(session@, username@, home@, shell@, vt));
    r
}

/// Assemble the session's environment.
///
/// Later sources win. PAM's environment comes first because it is authoritative
/// for `XDG_RUNTIME_DIR`; then what of the greeter's request is granted; then the
/// facts about the seat, last so that nothing can contradict them. `home` and
/// `shell` are as the user database holds them: where one is not text, the variable
/// holds some text in its place, with the replacement character in it.
pub fn build_env(
    session: &Session,
    username: &str,
    home: &[u8],
    shell: &[u8],
    vt: u32,
    pam_env: &Vec<(String, String)>,
    extra_env: &Vec<(String, String)>,
) -> (r: Vec<(String, String)>)
    ensures
        pairs(r@) == assembled(
            settings(
                session@,
                username@,
                lossy(home@),
                lossy(shell@),
                vt,
                pairs(pam_env@),
                pairs(extra_env@),
            ),
        ),
        marked(home@, lossy(home@)),
        marked(shell@, lossy(shell@)),
{
    let mut env: Vec<(String, String)> = Vec::new();
    let ghost none = Seq::<(Seq<char>, Seq<char>)>::empty();
    assert(pairs(env@) =~= assembled(none));
    // A minimal PATH; the login shell replaces it from /etc/profile. Without any,
    // a command that is not an absolute path is not found.
    let mut base: Vec<(String, String)> = Vec::new();
    base.push(("PATH".to_owned(), "/usr/local/bin:/usr/bin:/bin".to_owned()));
    base.push(("TERM".to_owned(), "linux".to_owned()));
    assert(pairs(base@) =~= defaults());
    let ghost s1 = none + defaults();
    set_all(&mut env, &base, Ghost(none));
    let ghost s2 = s1 + pairs(pam_env@);
    set_all(&mut env, pam_env, Ghost(s1));
    let extra = filter(extra_env);
    let ghost s3 = s2 + granted(pairs(extra_env@));
    set_all(&mut env, &extra, Ghost(s2));
    let last = fact_list(session, username, &text_of(home), &text_of(shell), vt);
    set_all(&mut env, &last, Ghost(s3));
    proof {
        assert(s3 + pairs(last@) =~= settings(
            session@,
            username@,
            lossy(home@),
            lossy(shell@),
            vt,
            pairs(pam_env@),
            pairs(extra_env@),
        ));
    }
    env
}

/// No variable is set twice, and each has the value that was set last.
pub proof fn law_the_last_setting_counts(settings: Seq<(Seq<char>, Seq<char>)>)
    ensures
        distinct_keys(assembled(settings)),
        mapping(assembled(settings)) == mapping(settings),
    decreases settings.len(),
{
    if settings.len() > 0 {
        let init = settings.drop_last();
        let pair = settings.last();
        law_the_last_setting_counts(init);
        let env = assembled(init);
        lemma_slot(env, pair.0);
        let i = slot(env, pair.0);
        if i < env.len() {
            lemma_mapping_update(env, i, pair);
        } else {
            let pushed = env.push(pair);
            assert(pushed.drop_last() =~= env);
            assert forall|a: int, b: int| 0 <= a < b < pushed.len() implies (#[trigger] pushed[a]).0
                != (#[trigger] pushed[b]).0 by {
                if b < env.len() {
                    assert(env[a].0 != env[b].0);
                } else {
                    assert(env[a].0 != pair.0);
                }
            }
        }
    } else {
        assert(assembled(settings) =~= settings);
    }
}

/// What is set by the second of two lists in turn wins over the first.
proof fn lemma_mapping_concat(
    a: Seq<(Seq<char>, Seq<char>)>,
    b: Seq<(Seq<char>, Seq<char>)>,
    key: Seq<char>,
)
    ensures
        mapping(a + b).dom().contains(key) <==> mapping(a).dom().contains(key) || mapping(
            b,
        ).dom().contains(key),
        mapping(b).dom().contains(key) ==> mapping(a + b)[key] == mapping(b)[key],
        !mapping(b).dom().contains(key) && mapping(a).dom().contains(key) ==> mapping(a + b)[key]
            == mapping(a)[key],
    decreases b.len(),
{
    if b.len() == 0 {
        assert(a + b =~= a);
    } else {
        assert((a + b).drop_last() =~= a + b.drop_last());
        lemma_mapping_concat(a, b.drop_last(), key);
    }
}

proof fn lemma_facts_are_distinct(
    session: SessionView,
    username: Seq<char>,
    home: Seq<char>,
    shell: Seq<char>,
    vt: u32,
)
    ensures
        distinct_keys(facts(session, username, home, shell, vt)),
{
    reveal_strlit("HOME");
    reveal_strlit("PWD");
    reveal_strlit("SHELL");
    reveal_strlit("USER");
    reveal_strlit("LOGNAME");
    reveal_strlit("XDG_SEAT");
    reveal_strlit("XDG_VTNR");
    reveal_strlit("XDG_SESSION_CLASS");
    reveal_strlit("XDG_SESSION_TYPE");
    reveal_strlit("XDG_SESSION_DESKTOP");
    assert("HOME"@[0] != "USER"@[0]);
    assert("XDG_SEAT"@[4] != "XDG_VTNR"@[4]);
    let f = facts(session, username, home, shell, vt);
    let lengths = seq![4nat, 3, 5, 4, 7, 8, 8, 17, 16, 19];
    assert forall|i: int| 0 <= i < f.len() implies (#[trigger] f[i]).0.len() == lengths[i] by {}
    assert forall|i: int, j: int| 0 <= i < j < f.len() implies (#[trigger] f[i]).0 != (
    #[trigger] f[j]).0 by {
        assert(f[i].0.len() == lengths[i] && f[j].0.len() == lengths[j]);
        if i == 0 && j == 3 {
            assert(f[i].0[0] != f[j].0[0]);
        } else if i == 5 && j == 6 {
            assert(f[i].0[4] != f[j].0[4]);
        } else {
            assert(lengths[i] != lengths[j]);
        }
    }
}

/// The facts about the user and the seat hold in every session, whatever PAM and
/// the greeter set.
pub proof fn law_facts_win(
    session: SessionView,
    username: Seq<char>,
    home: Seq<char>,
    shell: Seq<char>,
    vt: u32,
    pam: Seq<(Seq<char>, Seq<char>)>,
    extra: Seq<(Seq<char>, Seq<char>)>,
    i: int,
)
    requires
        0 <= i < facts(session, username, home, shell, vt).len(),
    ensures
        ({
            let fact = facts(session, username, home, shell, vt)[i];
            let env = mapping(
                assembled(settings(session, username, home, shell, vt, pam, extra)),
            );
            env.dom().contains(fact.0) && env[fact.0] == fact.1
        }),
{
    let f = facts(session, username, home, shell, vt);
    let rest = defaults() + pam + granted(extra);
    lemma_facts_are_distinct(session, username, home, shell, vt);
    law_the_last_setting_counts(settings(session, username, home, shell, vt, pam, extra));
    lemma_mapping(f, f[i].0);
    lemma_mapping_concat(rest, f, f[i].0);
}

proof fn lemma_granted_keys(extra: Seq<(Seq<char>, Seq<char>)>, key: Seq<char>)
    requires
        mapping(granted(extra)).dom().contains(key),
    ensures
        greeter_key(key),
        greeter_value(mapping(granted(extra))[key]),
    decreases extra.len(),
{
    if extra.len() > 0 {
        let g = granted(extra.drop_last());
        if greeter_key(extra.last().0) && greeter_value(extra.last().1) {
            assert(g.push(extra.last()).drop_last() =~= g);
            if key != extra.last().0 {
                lemma_granted_keys(extra.drop_last(), key);
            }
        } else {
            lemma_granted_keys(extra.drop_last(), key);
        }
    }
}

/// A greeter changes nothing but presentation: a variable that is no locale or
/// keyboard variable is what it would be had the greeter asked for nothing, and
/// one that the greeter did set holds no path.
pub proof fn law_a_greeter_only_localises(
    session: SessionView,
    username: Seq<char>,
    home: Seq<char>,
    shell: Seq<char>,
    vt: u32,
    pam: Seq<(Seq<char>, Seq<char>)>,
    extra: Seq<(Seq<char>, Seq<char>)>,
    key: Seq<char>,
)
    ensures
        ({
            let with = mapping(
                assembled(settings(session, username, home, shell, vt, pam, extra)),
            );
            let without = mapping(
                assembled(settings(session, username, home, shell, vt, pam, seq![])),
            );
            let same = with.dom().contains(key) == without.dom().contains(key) && (
            with.dom().contains(key) ==> with[key] == without[key]);
            same || (greeter_key(key) && with.dom().contains(key) && greeter_value(with[key]))
        }),
{
    let f = facts(session, username, home, shell, vt);
    let base = defaults() + pam;
    let g = granted(extra);
    let none = granted(seq![]);
    law_the_last_setting_counts(settings(session, username, home, shell, vt, pam, extra));
    law_the_last_setting_counts(settings(session, username, home, shell, vt, pam, seq![]));
    lemma_mapping_concat(base, g, key);
    lemma_mapping_concat(base + g, f, key);
    lemma_mapping_concat(base, none, key);
    lemma_mapping_concat(base + none, f, key);
    if mapping(g).dom().contains(key) {
        lemma_granted_keys(extra, key);
    }
}

/// What nobody set is not there: a variable that is neither one of the defaults
/// nor a fact, and that PAM did not set, is in the session only if the greeter was
/// granted it. The socket of the greeter's own display is one such.
pub proof fn law_nothing_leaks(
    session: SessionView,
    username: Seq<char>,
    home: Seq<char>,
    shell: Seq<char>,
    vt: u32,
    pam: Seq<(Seq<char>, Seq<char>)>,
    extra: Seq<(Seq<char>, Seq<char>)>,
    key: Seq<char>,
)
    requires
        !mapping(defaults()).dom().contains(key),
        !mapping(pam).dom().contains(key),
        !mapping(facts(session, username, home, shell, vt)).dom().contains(key),
        !greeter_key(key),
    ensures
        !mapping(
            assembled(settings(session, username, home, shell, vt, pam, extra)),
        ).dom().contains(key),
{
    let f = facts(session, username, home, shell, vt);
    let g = granted(extra);
    law_the_last_setting_counts(settings(session, username, home, shell, vt, pam, extra));
    lemma_mapping_concat(defaults(), pam, key);
    lemma_mapping_concat(defaults() + pam, g, key);
    lemma_mapping_concat(defaults() + pam + g, f, key);
    if mapping(g).dom().contains(key) {
        lemma_granted_keys(extra, key);
    }
}

/// Everything needed to launch a session, resolved while still privileged.
#[derive(Debug)]
pub struct Launch {
    pub username: String,
    pub uid: u32,
    pub gid: u32,
    /// Supplementary groups, resolved ahead because that reads the group database.
    pub groups: Vec<u32>,
    /// Paths as the user database holds them, which need not be text.
    pub home: Vec<u8>,
    pub shell: Vec<u8>,
    /// The session command, run through the login shell.
    pub command: String,
    /// Fully assembled environment; the child clears its own and uses this.
    pub env: Vec<(String, String)>,
    /// VT to make the session's controlling terminal.
    pub vt: u32,
}

/// Why a session may not be launched for a user, if it may not.
///
/// The uid range counts here too, not only where users are listed: a conversation
/// may be opened for a name that was never listed, so a name outside the range can
/// arrive with a valid password behind it.
pub open spec fn refusal(
    session: SessionView,
    username: Seq<char>,
    account: Option<Account>,
    range: UidRange,
) -> Option<LaunchErrorView> {
    match account {
        None => Some(LaunchErrorView::NoSuchUser(username)),
        Some(account) => if !range.has(account.uid) {
            Some(LaunchErrorView::NotLoginable(username))
        } else if !account.may_log_in() {
            Some(LaunchErrorView::NoShell(username))
        } else if trimmed(session.command).len() == 0 {
            Some(LaunchErrorView::EmptyCommand(session.id))
        } else {
            None
        },
    }
}

impl Launch {
    /// Check that a session may be launched for a user.
    ///
    /// `account` is what the user database holds under that name.
    pub fn validate(
        session: &Session,
        username: &str,
        account: &Option<Account>,
        range: UidRange,
    ) -> (r: Result<(), LaunchError>)
        ensures
            match (r, refusal(session@, username@, *account, range)) {
                (Ok(_), None) => true,
                (Err(e), Some(why)) => e@ == why,
                _ => false,
            },
    {
        let account = match account {
            None => return Err(LaunchError::NoSuchUser(username.to_owned())),
            Some(account) => account,
        };
        if !range.contains(account.uid) {
            return Err(LaunchError::NotLoginable(username.to_owned()));
        }
        if !account.has_login_shell() {
            return Err(LaunchError::NoShell(username.to_owned()));
        }
        if trim(&to_chars(&session.command)).len() == 0 {
            return Err(LaunchError::EmptyCommand(session.id.clone()));
        }
        Ok(())
    }

    /// Assemble what is needed to launch a session.
    ///
    /// `pam_env` is the environment that opening the PAM session produced, which
    /// is where `XDG_RUNTIME_DIR` comes from. `extra_env` is what the greeter asked
    /// for. `groups` are the user's groups, or why they could not be resolved.
    pub fn prepare(
        session: &Session,
        username: &str,
        vt: u32,
        account: &Option<Account>,
        range: UidRange,
        groups: Result<Vec<u32>, String>,
        pam_env: &Vec<(String, String)>,
        extra_env: &Vec<(String, String)>,
    ) -> (r: Result<Launch, LaunchError>)
        ensures
            match refusal(session@, username@, *account, range) {
                Some(why) => r matches Err(e) && e@ == why,
                None => match groups {
                    Err(cause) => r matches Err(e) && e@ == LaunchErrorView::Groups(
                        username@,
                        cause@,
                    ),
                    Ok(list) => r matches Ok(launch) && launch.is_for(
                        session@,
                        username@,
                        vt,
                        account->0,
                        list@,
                        pairs(pam_env@),
                        pairs(extra_env@),
                    ) && marked((account->0).home@, lossy((account->0).home@)) && marked(
                        (account->0).shell@,
                        lossy((account->0).shell@),
                    ),
                },
            },
    {
        match Launch::validate(session, username, account, range) {
            Ok(_) => {},
            Err(e) => return Err(e),
        }
        let groups = match groups {
            Ok(groups) => groups,
            Err(cause) => return Err(LaunchError::Groups(username.to_owned(), cause)),
        };
        match account {
            Some(account) => {
                let env = build_env(
                    session,
                    username,
                    &account.home,
                    &account.shell,
                    vt,
                    pam_env,
                    extra_env,
                );
                let home = account.home.clone();
                let shell = account.shell.clone();
                assert(home@ =~= account.home@);
                assert(shell@ =~= account.shell@);
                Ok(
                    Launch {
                        username: username.to_owned(),
                        uid: account.uid,
                        gid: account.gid,
                        groups,
                        home,
                        shell,
                        command: session.command.clone(),
                        env,
                        vt,
                    },
                )
            },
            None => Err(LaunchError::NoSuchUser(username.to_owned())),
        }
    }

    /// This launches that session as that account.
    pub open spec fn is_for(
        &self,
        session: SessionView,
        username: Seq<char>,
        vt: u32,
        account: Account,
        groups: Seq<u32>,
        pam: Seq<(Seq<char>, Seq<char>)>,
        extra: Seq<(Seq<char>, Seq<char>)>,
    ) -> bool {
        &&& self.username@ == username
        &&& self.uid == account.uid
        &&& self.gid == account.gid
        &&& self.groups@ == groups
        &&& self.home@ == account.home@
        &&& self.shell@ == account.shell@
        &&& self.command@ == session.command
        &&& self.vt == vt
        &&& pairs(self.env@) == assembled(
            settings(
                session,
                username,
                lossy(account.home@),
                lossy(account.shell@),
                vt,
                pam,
                extra,
            ),
        )
    }

    pub fn username(&self) -> (r: &str)
        ensures
            r@ == self.username@,
    {
        self.username.as_str()
    }

    /// The terminal the session is given.
    pub fn tty(&self) -> (r: String)
        ensures
            r@ == "/dev/tty"@ + decimal(self.vt as nat),
    {
        let mut s = "/dev/tty".to_owned();
        push_str(&mut s, &number(self.vt as u64));
        s
    }

    /// What the login shell is run with: the command, after the profile has been
    /// read.
    pub fn arguments(&self) -> (r: Vec<String>)
        ensures
            r@.len() == 3,
            r@[0]@ == "-l"@,
            r@[1]@ == "-c"@,
            r@[2]@ == "exec "@ + self.command@,
    {
        let mut line = "exec ".to_owned();
        push_str(&mut line, &self.command);
        let mut args: Vec<String> = Vec::new();
        args.push("-l".to_owned());
        args.push("-c".to_owned());
        args.push(line);
        args
    }

    /// Check that the home directory can be handed to the system.
    pub fn check_home(&self) -> (r: Result<(), LaunchError>)
        ensures
            match r {
                Ok(_) => !self.home@.contains(0),
                Err(e) => self.home@.contains(0) && e@ == LaunchErrorView::NulInPath(
                    self.username@,
                ),
            },
    {
        for i in 0..self.home.len()
            invariant
                forall|j: int| 0 <= j < i ==> self.home@[j] != 0,
        {
            if self.home[i] == 0 {
                assert(self.home@[i as int] == 0);
                return Err(LaunchError::NulInPath(self.username.clone()));
            }
        }
        Ok(())
    }
}

/// No session is launched for root, whatever the login configuration says.
pub proof fn law_root_is_never_launched(
    session: SessionView,
    username: Seq<char>,
    account: Account,
    text: Seq<char>,
)
    requires
        account.uid == 0,
    ensures
        refusal(session, username, Some(account), crate::users::configured_range(text)) == Some(
            LaunchErrorView::NotLoginable(username),
        ),
{
    crate::users::law_root_is_never_inside_the_range(text);
}

/// How the child of the fork goes on after a step.
#[derive(Debug, Clone, Copy, PartialEq, Eq, Structural)]
pub enum Progress {
    Next(ChildStep),
    /// Everything is done; the login shell may be run.
    Run,
    /// The session must not start.
    Abort,
}

/// The steps between the fork and the login shell, in the only order that works.
#[derive(Debug, Clone, Copy, PartialEq, Eq, Structural)]
pub enum ChildStep {
    /// Unblock every signal; a blocked mask would be inherited by the session.
    UnblockSignals,
    /// Become the leader of a session of its own.
    NewSession,
    /// Take the terminal as the controlling one.
    TakeTerminal,
    SetGroups,
    SetGid,
    SetUid,
    /// Check that the real and effective uid are the user's.
    CheckUid,
    /// Check that the real and effective gid are the user's.
    CheckGid,
    EnterHome,
}

/// The first step of the child.
pub const FIRST_STEP: ChildStep = ChildStep::UnblockSignals;

impl ChildStep {
    /// The step that follows.
    pub open spec fn following(self) -> Progress {
        match self {
            ChildStep::UnblockSignals => Progress::Next(ChildStep::NewSession),
            ChildStep::NewSession => Progress::Next(ChildStep::TakeTerminal),
            ChildStep::TakeTerminal => Progress::Next(ChildStep::SetGroups),
            ChildStep::SetGroups => Progress::Next(ChildStep::SetGid),
            ChildStep::SetGid => Progress::Next(ChildStep::SetUid),
            ChildStep::SetUid => Progress::Next(ChildStep::CheckUid),
            ChildStep::CheckUid => Progress::Next(ChildStep::CheckGid),
            ChildStep::CheckGid => Progress::Next(ChildStep::EnterHome),
            ChildStep::EnterHome => Progress::Run,
        }
    }

    /// How to go on once this step was made, with or without success.
    ///
    /// Only the terminal may fail: a session that talks to the display device
    /// does not strictly need one.
    pub fn after(self, succeeded: bool) -> (r: Progress)
        ensures
            r == (if succeeded || self == ChildStep::TakeTerminal {
                self.following()
            } else {
                Progress::Abort
            }),
    {
        if !succeeded && self != ChildStep::TakeTerminal {
            return Progress::Abort;
        }
        match self {
            ChildStep::UnblockSignals => Progress::Next(ChildStep::NewSession),
            ChildStep::NewSession => Progress::Next(ChildStep::TakeTerminal),
            ChildStep::TakeTerminal => Progress::Next(ChildStep::SetGroups),
            ChildStep::SetGroups => Progress::Next(ChildStep::SetGid),
            ChildStep::SetGid => Progress::Next(ChildStep::SetUid),
            ChildStep::SetUid => Progress::Next(ChildStep::CheckUid),
            ChildStep::CheckUid => Progress::Next(ChildStep::CheckGid),
            ChildStep::CheckGid => Progress::Next(ChildStep::EnterHome),
            ChildStep::EnterHome => Progress::Run,
        }
    }
}

/// Where the child stands after making its steps with these results.
pub open spec fn child_after(results: Seq<bool>) -> Progress
    decreases results.len(),
{
    if results.len() == 0 {
        Progress::Next(FIRST_STEP)
    } else {
        match child_after(results.drop_last()) {
            Progress::Next(step) => if results.last() || step == ChildStep::TakeTerminal {
                step.following()
            } else {
                Progress::Abort
            },
            end => end,
        }
    }
}

/// How many steps come before one.
pub open spec fn step_number(step: ChildStep) -> int {
    match step {
        ChildStep::UnblockSignals => 0,
        ChildStep::NewSession => 1,
        ChildStep::TakeTerminal => 2,
        ChildStep::SetGroups => 3,
        ChildStep::SetGid => 4,
        ChildStep::SetUid => 5,
        ChildStep::CheckUid => 6,
        ChildStep::CheckGid => 7,
        ChildStep::EnterHome => 8,
    }
}

/// The login shell is run only once every step but the terminal's has succeeded,
/// so never with more privilege than the user's; and each step is made only after
/// those before it, so the groups and the gid are set while the uid still allows it.
pub proof fn law_privileges_are_dropped_before_the_shell_runs(results: Seq<bool>)
    ensures
        child_after(results) is Run ==> results.len() >= 9 && forall|i: int|
            0 <= i < 9 && i != 2 ==> #[trigger] results[i],
        child_after(results) matches Progress::Next(step) ==> results.len() == step_number(step)
            && forall|i: int| 0 <= i < results.len() && i != 2 ==> #[trigger] results[i],
    decreases results.len(),
{
    if results.len() > 0 {
        let init = results.drop_last();
        law_privileges_are_dropped_before_the_shell_runs(init);
        assert forall|i: int| 0 <= i < init.len() implies init[i] == #[trigger] results[i] by {}
    }
}

/// What one call of the group lookup came to.
#[derive(Debug, Clone, Copy, PartialEq, Eq, Structural)]
pub enum GroupStep {
    /// The first `len` entries of the buffer are the groups.
    Finished { len: usize },
    /// The buffer was too small; try again with room for this many.
    Again { count: i32 },
    /// The lookup failed without asking for more room.
    Stuck,
}

/// Room for groups that is offered at first.
pub const FIRST_GROUPS: i32 = 16;

/// What to say where the lookup is stuck.
pub const GROUPS_STUCK: &'static str = "getgrouplist did not report a larger buffer size";

/// What to say of a name the lookup cannot be given.
pub const NAME_HAS_NUL: &'static str = "username contains a NUL byte";

/// The room a buffer for `count` groups has.
pub fn group_room(count: i32) -> (r: usize)
    ensures
        r == (if count > 1 {
            count as int
        } else {
            1
        }),
{
    if count > 1 {
        count as usize
    } else {
        1
    }
}

/// Decide on a lookup into a buffer with room for `room` entries, which returned
/// `rc` and left `count` as the number of groups there are.
///
/// A lookup that fails without asking for more is not repeated: that would go on
/// for ever.
pub fn after_group_lookup(rc: i32, count: i32, room: usize) -> (r: GroupStep)
    requires
        room <= i32::MAX,
    ensures
        rc >= 0 ==> r == (GroupStep::Finished {
            len: (if count < 0 {
                0
            } else if count < room {
                count as usize
            } else {
                room
            }),
        }),
        rc < 0 && count > room ==> r == (GroupStep::Again { count }),
        rc < 0 && count <= room ==> r == GroupStep::Stuck,
{
    if rc >= 0 {
        if count < 0 {
            GroupStep::Finished { len: 0 }
        } else if (count as usize) < room {
            GroupStep::Finished { len: count as usize }
        } else {
            GroupStep::Finished { len: room }
        }
    } else if count <= room as i32 {
        GroupStep::Stuck
    } else {
        GroupStep::Again { count }
    }
}

/// The names of the facts about the user and the seat.
pub open spec fn fact_names() -> Seq<Seq<char>> {
    seq![
        "HOME"@,
        "PWD"@,
        "SHELL"@,
        "USER"@,
        "LOGNAME"@,
        "XDG_SEAT"@,
        "XDG_VTNR"@,
        "XDG_SESSION_CLASS"@,
        "XDG_SESSION_TYPE"@,
        "XDG_SESSION_DESKTOP"@,
    ]
}

/// The last pair of a key decides on it.
proof fn lemma_last_pair(v: Seq<(Seq<char>, Seq<char>)>, i: int)
    requires
        0 <= i < v.len(),
        forall|j: int| i < j < v.len() ==> (#[trigger] v[j]).0 != v[i].0,
    ensures
        mapping(v).dom().contains(v[i].0),
        mapping(v)[v[i].0] == v[i].1,
    decreases v.len(),
{
    if i < v.len() - 1 {
        let init = v.drop_last();
        assert forall|j: int| i < j < init.len() implies (#[trigger] init[j]).0 != init[i].0 by {
            assert(init[j] == v[j]);
        }
        lemma_last_pair(init, i);
        assert(v[v.len() - 1].0 != v[i].0);
    }
}

proof fn lemma_no_pair(v: Seq<(Seq<char>, Seq<char>)>, key: Seq<char>)
    ensures
        mapping(v).dom().contains(key) <==> exists|i: int|
            0 <= i < v.len() && (#[trigger] v[i]).0 == key,
    decreases v.len(),
{
    if v.len() > 0 {
        let init = v.drop_last();
        lemma_no_pair(init, key);
        if exists|i: int| 0 <= i < v.len() && (#[trigger] v[i]).0 == key {
            let i = choose|i: int| 0 <= i < v.len() && (#[trigger] v[i]).0 == key;
            if i < init.len() {
                assert(init[i].0 == key);
            }
        }
        if exists|i: int| 0 <= i < init.len() && (#[trigger] init[i]).0 == key {
            let i = choose|i: int| 0 <= i < init.len() && (#[trigger] init[i]).0 == key;
            assert(v[i].0 == key);
        }
        assert(v[v.len() - 1] == v.last());
    }
}

/// What is set is in the environment.
proof fn lemma_in_environment(settings: Seq<(Seq<char>, Seq<char>)>, key: Seq<char>)
    requires
        mapping(settings).dom().contains(key),
    ensures
        assembled(settings).contains((key, mapping(settings)[key])),
{
    law_the_last_setting_counts(settings);
    let env = assembled(settings);
    lemma_mapping(env, key);
    let i = choose|i: int| 0 <= i < env.len() && (#[trigger] env[i]).0 == key;
    assert(env[i] == (key, mapping(settings)[key]));
}

/// What of a request is granted comes from the request, and every pair that may be
/// is.
proof fn lemma_granted(extra: Seq<(Seq<char>, Seq<char>)>, key: Seq<char>)
    ensures
        forall|i: int|
            0 <= i < granted(extra).len() ==> extra.contains(#[trigger] granted(extra)[i])
                && greeter_key(granted(extra)[i].0) && greeter_value(granted(extra)[i].1),
        (forall|i: int|
            0 <= i < extra.len() && (#[trigger] extra[i]).0 == key ==> !(greeter_key(key)
                && greeter_value(extra[i].1))) ==> !mapping(granted(extra)).dom().contains(key),
    decreases extra.len(),
{
    if extra.len() > 0 {
        let init = extra.drop_last();
        let last = extra.last();
        lemma_granted(init, key);
        assert(extra[extra.len() - 1] == last);
        assert forall|i: int| 0 <= i < granted(init).len() implies extra.contains(
            #[trigger] granted(init)[i],
        ) by {
            let k = choose|k: int| 0 <= k < init.len() && init[k] == granted(init)[i];
            assert(extra[k] == granted(init)[i]);
        }
        if forall|i: int|
            0 <= i < extra.len() && (#[trigger] extra[i]).0 == key ==> !(greeter_key(key)
                && greeter_value(extra[i].1)) {
            assert forall|i: int|
                0 <= i < init.len() && (#[trigger] init[i]).0 == key implies !(greeter_key(key)
                && greeter_value(init[i].1)) by {
                assert(extra[i] == init[i]);
            }
            assert(granted(init).push(last).drop_last() =~= granted(init));
        }
        assert forall|i: int| 0 <= i < granted(extra).len() implies extra.contains(
            #[trigger] granted(extra)[i],
        ) && greeter_key(granted(extra)[i].0) && greeter_value(granted(extra)[i].1) by {
            if i < granted(init).len() {
                assert(granted(extra)[i] == granted(init)[i]);
            }
        }
    }
}

proof fn lemma_granted_last(extra: Seq<(Seq<char>, Seq<char>)>, i: int)
    requires
        0 <= i < extra.len(),
        greeter_key(extra[i].0),
        greeter_value(extra[i].1),
        forall|j: int|
            i < j < extra.len() && (#[trigger] extra[j]).0 == extra[i].0 ==> !greeter_value(
                extra[j].1,
            ),
    ensures
        mapping(granted(extra)).dom().contains(extra[i].0),
        mapping(granted(extra))[extra[i].0] == extra[i].1,
    decreases extra.len(),
{
    let init = extra.drop_last();
    let last = extra.last();
    assert(granted(init).push(last).drop_last() =~= granted(init));
    if i < init.len() {
        assert(init[i] == extra[i]);
        assert forall|j: int|
            i < j < init.len() && (#[trigger] init[j]).0 == init[i].0 implies !greeter_value(
            init[j].1,
        ) by {
            assert(init[j] == extra[j]);
        }
        lemma_granted_last(init, i);
        assert(extra[extra.len() - 1] == last);
    }
}

/// No fact is of another name.
proof fn lemma_facts_are_named(
    session: SessionView,
    username: Seq<char>,
    home: Seq<char>,
    shell: Seq<char>,
    vt: u32,
    key: Seq<char>,
)
    ensures
        mapping(facts(session, username, home, shell, vt)).dom().contains(key)
            <==> fact_names().contains(key),
{
    let f = facts(session, username, home, shell, vt);
    let n = fact_names();
    lemma_no_pair(f, key);
    assert forall|i: int| 0 <= i < 10 implies (#[trigger] f[i]).0 == n[i] by {}
    if n.contains(key) {
        let i = choose|i: int| 0 <= i < n.len() && n[i] == key;
        assert(f[i].0 == key);
    }
    if mapping(f).dom().contains(key) {
        let i = choose|i: int| 0 <= i < f.len() && (#[trigger] f[i]).0 == key;
        assert(n[i] == key);
    }
}

/// The greeter's choice counts: a variable it may set, and that is no fact about the
/// seat, has in the session the value of the last pair that it asked for and may
/// have, whatever PAM set.
pub proof fn law_the_greeters_choice_beats_pam(
    session: SessionView,
    username: Seq<char>,
    home: Seq<char>,
    shell: Seq<char>,
    vt: u32,
    pam: Seq<(Seq<char>, Seq<char>)>,
    extra: Seq<(Seq<char>, Seq<char>)>,
    i: int,
)
    requires
        0 <= i < extra.len(),
        greeter_key(extra[i].0),
        greeter_value(extra[i].1),
        forall|j: int|
            i < j < extra.len() && (#[trigger] extra[j]).0 == extra[i].0 ==> !greeter_value(
                extra[j].1,
            ),
        !fact_names().contains(extra[i].0),
    ensures
        assembled(settings(session, username, home, shell, vt, pam, extra)).contains(extra[i]),
{
    let key = extra[i].0;
    let f = facts(session, username, home, shell, vt);
    lemma_granted_last(extra, i);
    lemma_facts_are_named(session, username, home, shell, vt, key);
    lemma_mapping_concat(defaults() + pam, granted(extra), key);
    lemma_mapping_concat(defaults() + pam + granted(extra), f, key);
    lemma_in_environment(settings(session, username, home, shell, vt, pam, extra), key);
}

/// What PAM sets is in the session, by the last pair of each key, unless it is a
/// fact about the seat or the greeter was granted a value for it.
pub proof fn law_what_pam_sets_is_kept(
    session: SessionView,
    username: Seq<char>,
    home: Seq<char>,
    shell: Seq<char>,
    vt: u32,
    pam: Seq<(Seq<char>, Seq<char>)>,
    extra: Seq<(Seq<char>, Seq<char>)>,
    i: int,
)
    requires
        0 <= i < pam.len(),
        forall|j: int| i < j < pam.len() ==> (#[trigger] pam[j]).0 != pam[i].0,
        forall|j: int|
            0 <= j < extra.len() && (#[trigger] extra[j]).0 == pam[i].0 ==> !(greeter_key(pam[i].0)
                && greeter_value(extra[j].1)),
        !fact_names().contains(pam[i].0),
    ensures
        assembled(settings(session, username, home, shell, vt, pam, extra)).contains(pam[i]),
{
    let key = pam[i].0;
    let f = facts(session, username, home, shell, vt);
    lemma_last_pair(pam, i);
    lemma_granted(extra, key);
    lemma_facts_are_named(session, username, home, shell, vt, key);
    lemma_mapping_concat(defaults(), pam, key);
    lemma_mapping_concat(defaults() + pam, granted(extra), key);
    lemma_mapping_concat(defaults() + pam + granted(extra), f, key);
    lemma_in_environment(settings(session, username, home, shell, vt, pam, extra), key);
}

/// A session finds its commands and its terminal even where nobody says how: the
/// path and the terminal type are there, unless PAM sets them.
pub proof fn law_a_session_has_a_path(
    session: SessionView,
    username: Seq<char>,
    home: Seq<char>,
    shell: Seq<char>,
    vt: u32,
    pam: Seq<(Seq<char>, Seq<char>)>,
    extra: Seq<(Seq<char>, Seq<char>)>,
)
    ensures
        ({
            let env = assembled(settings(session, username, home, shell, vt, pam, extra));
            &&& (forall|i: int| 0 <= i < pam.len() ==> (#[trigger] pam[i]).0 != "PATH"@)
                ==> env.contains(("PATH"@, "/usr/local/bin:/usr/bin:/bin"@))
            &&& (forall|i: int| 0 <= i < pam.len() ==> (#[trigger] pam[i]).0 != "TERM"@)
                ==> env.contains(("TERM"@, "linux"@))
        }),
{
    lemma_default_is_kept(session, username, home, shell, vt, pam, extra, 0);
    lemma_default_is_kept(session, username, home, shell, vt, pam, extra, 1);
}

proof fn lemma_default_is_kept(
    session: SessionView,
    username: Seq<char>,
    home: Seq<char>,
    shell: Seq<char>,
    vt: u32,
    pam: Seq<(Seq<char>, Seq<char>)>,
    extra: Seq<(Seq<char>, Seq<char>)>,
    i: int,
)
    requires
        0 <= i < 2,
    ensures
        (forall|j: int| 0 <= j < pam.len() ==> (#[trigger] pam[j]).0 != defaults()[i].0)
            ==> assembled(settings(session, username, home, shell, vt, pam, extra)).contains(
            defaults()[i],
        ),
{
    let d = defaults();
    let key = d[i].0;
    let f = facts(session, username, home, shell, vt);
    reveal_strlit("PATH");
    reveal_strlit("TERM");
    reveal_strlit("LANG");
    reveal_strlit("LANGUAGE");
    reveal_strlit("LC_");
    reveal_strlit("XKB_");
    reveal_strlit("HOME");
    reveal_strlit("USER");
    reveal_strlit("PWD");
    reveal_strlit("SHELL");
    reveal_strlit("LOGNAME");
    reveal_strlit("XDG_SEAT");
    reveal_strlit("XDG_VTNR");
    reveal_strlit("XDG_SESSION_CLASS");
    reveal_strlit("XDG_SESSION_TYPE");
    reveal_strlit("XDG_SESSION_DESKTOP");
    assert(key.len() == 4 && (key[0] == 'P' || key[0] == 'T'));
    assert("LANG"@[0] == 'L' && "HOME"@[0] == 'H' && "USER"@[0] == 'U');
    assert(!greeter_key(key)) by {
        if starts_with(key, "LC_"@) {
            assert(key.take(3)[0] == 'L');
        }
        if starts_with(key, "XKB_"@) {
            assert(key.take(4)[0] == 'X');
        }
        assert("LANGUAGE"@.len() == 8);
    }
    assert(!fact_names().contains(key)) by {
        let n = fact_names();
        assert(forall|k: int| 0 <= k < 10 ==> (#[trigger] n[k]).len() != 4 || n[k][0] == 'H' || n[k][0]
            == 'U');
    }
    assert("PATH"@ != "TERM"@) by {
        assert("PATH"@[0] == 'P' && "TERM"@[0] == 'T');
    }
    if forall|j: int| 0 <= j < pam.len() ==> (#[trigger] pam[j]).0 != key {
        lemma_last_pair(d, i);
        lemma_no_pair(pam, key);
        lemma_granted(extra, key);
        lemma_facts_are_named(session, username, home, shell, vt, key);
        lemma_mapping_concat(d, pam, key);
        lemma_mapping_concat(d + pam, granted(extra), key);
        lemma_mapping_concat(d + pam + granted(extra), f, key);
        lemma_in_environment(settings(session, username, home, shell, vt, pam, extra), key);
    }
}

/// What every session is told about its user and its seat, whatever PAM and the
/// greeter say.
pub proof fn law_every_session_is_told_whose_it_is(
    session: SessionView,
    username: Seq<char>,
    home: Seq<char>,
    shell: Seq<char>,
    vt: u32,
    pam: Seq<(Seq<char>, Seq<char>)>,
    extra: Seq<(Seq<char>, Seq<char>)>,
)
    ensures
        ({
            let env = assembled(settings(session, username, home, shell, vt, pam, extra));
            &&& env.contains(("HOME"@, home))
            &&& env.contains(("PWD"@, home))
            &&& env.contains(("SHELL"@, shell))
            &&& env.contains(("USER"@, username))
            &&& env.contains(("LOGNAME"@, username))
            &&& env.contains(("XDG_SEAT"@, "seat0"@))
            &&& env.contains(("XDG_VTNR"@, decimal(vt as nat)))
            &&& env.contains(("XDG_SESSION_CLASS"@, "user"@))
            &&& env.contains(("XDG_SESSION_TYPE"@, xdg_type(session.session_type)))
            &&& env.contains(("XDG_SESSION_DESKTOP"@, desktop_name(session.id)))
        }),
{
    let f = facts(session, username, home, shell, vt);
    assert forall|i: int| 0 <= i < 10 implies assembled(
        settings(session, username, home, shell, vt, pam, extra),
    ).contains(#[trigger] f[i]) by {
        lemma_facts_are_distinct(session, username, home, shell, vt);
        lemma_mapping(f, f[i].0);
        lemma_mapping_concat(defaults() + pam + granted(extra), f, f[i].0);
        lemma_in_environment(
            settings(session, username, home, shell, vt, pam, extra),
            f[i].0,
        );
    }
    assert(f[0] == ("HOME"@, home));
    assert(f[1] == ("PWD"@, home));
    assert(f[2] == ("SHELL"@, shell));
    assert(f[3] == ("USER"@, username));
    assert(f[4] == ("LOGNAME"@, username));
    assert(f[5] == ("XDG_SEAT"@, "seat0"@));
    assert(f[6] == ("XDG_VTNR"@, decimal(vt as nat)));
    assert(f[7] == ("XDG_SESSION_CLASS"@, "user"@));
    assert(f[8] == ("XDG_SESSION_TYPE"@, xdg_type(session.session_type)));
    assert(f[9] == ("XDG_SESSION_DESKTOP"@, desktop_name(session.id)));
}

/// No variable is in a session twice.
pub proof fn law_no_variable_is_set_twice(
    session: SessionView,
    username: Seq<char>,
    home: Seq<char>,
    shell: Seq<char>,
    vt: u32,
    pam: Seq<(Seq<char>, Seq<char>)>,
    extra: Seq<(Seq<char>, Seq<char>)>,
)
    ensures
        ({
            let env = assembled(settings(session, username, home, shell, vt, pam, extra));
            forall|i: int, j: int|
                0 <= i < j < env.len() ==> (#[trigger] env[i]).0 != (#[trigger] env[j]).0
        }),
{
    law_the_last_setting_counts(settings(session, username, home, shell, vt, pam, extra));
}

/// What a greeter may set: the language, the locale categories and the keyboard
/// settings, to a word of at most 64 bytes that is no path; and nothing else.
pub proof fn law_what_a_greeter_may_set(rest: Seq<char>, key: Seq<char>, value: Seq<char>)
    ensures
        greeter_key("LANG"@),
        greeter_key("LANGUAGE"@),
        greeter_key("LC_"@ + rest),
        greeter_key("XKB_"@ + rest),
        greeter_key(key) ==> key == "LANG"@ || key == "LANGUAGE"@ || (key.len() >= 3 && key
            == "LC_"@ + key.skip(3)) || (key.len() >= 4 && key == "XKB_"@ + key.skip(4)),
        greeter_value(value) <==> !value.contains('/') && !value.contains('\0') && encode_utf8(
            value,
        ).len() <= 64,
{
    reveal_strlit("LC_");
    reveal_strlit("XKB_");
    assert(("LC_"@ + rest).take(3) =~= "LC_"@);
    assert(("XKB_"@ + rest).take(4) =~= "XKB_"@);
    if starts_with(key, "LC_"@) {
        assert(key =~= key.take(3) + key.skip(3));
    }
    if starts_with(key, "XKB_"@) {
        assert(key =~= key.take(4) + key.skip(4));
    }
}

/// A session may be launched for a user who exists, whose uid is in the range, whose
/// shell permits it and who chose a session that has a command; and for nobody else.
/// The first of these that fails is the one that is reported.
pub proof fn law_who_may_have_a_session(
    session: SessionView,
    username: Seq<char>,
    account: Option<Account>,
    range: UidRange,
)
    ensures
        refusal(session, username, account, range) is None <==> (account matches Some(a)
            && range.min <= a.uid <= range.max && crate::users::login_shell(a.shell@) && (exists|
            i: int,
        |
            0 <= i < session.command.len() && !crate::text::is_space(
                #[trigger] session.command[i],
            ))),
        account is None ==> refusal(session, username, account, range) == Some(
            LaunchErrorView::NoSuchUser(username),
        ),
        account matches Some(a) ==> !(range.min <= a.uid <= range.max) ==> refusal(
            session,
            username,
            account,
            range,
        ) == Some(LaunchErrorView::NotLoginable(username)),
        account matches Some(a) ==> range.min <= a.uid <= range.max
            && !crate::users::login_shell(a.shell@) ==> refusal(session, username, account, range)
            == Some(LaunchErrorView::NoShell(username)),
        refusal(session, username, account, range) matches Some(LaunchErrorView::EmptyCommand(id))
            ==> id == session.id,
{
    crate::text::lemma_trimmed_is_empty(session.command);
}

/// The steps of the child in the order in which they are made: signals and session
/// first, then the groups, the gid and the uid, then the checks, and the home
/// directory last. Each waits for the one before it, and only the terminal may fail.
pub proof fn law_the_steps_of_the_child(results: Seq<bool>)
    requires
        forall|i: int| 0 <= i < results.len() && i != 2 ==> #[trigger] results[i],
    ensures
        results.len() == 0 ==> child_after(results) == Progress::Next(ChildStep::UnblockSignals),
        results.len() == 1 ==> child_after(results) == Progress::Next(ChildStep::NewSession),
        results.len() == 2 ==> child_after(results) == Progress::Next(ChildStep::TakeTerminal),
        results.len() == 3 ==> child_after(results) == Progress::Next(ChildStep::SetGroups),
        results.len() == 4 ==> child_after(results) == Progress::Next(ChildStep::SetGid),
        results.len() == 5 ==> child_after(results) == Progress::Next(ChildStep::SetUid),
        results.len() == 6 ==> child_after(results) == Progress::Next(ChildStep::CheckUid),
        results.len() == 7 ==> child_after(results) == Progress::Next(ChildStep::CheckGid),
        results.len() == 8 ==> child_after(results) == Progress::Next(ChildStep::EnterHome),
        results.len() >= 9 ==> child_after(results) == Progress::Run,
    decreases results.len(),
{
    if results.len() > 0 {
        let init = results.drop_last();
        assert forall|i: int| 0 <= i < init.len() && i != 2 implies #[trigger] init[i] by {
            assert(init[i] == results[i]);
        }
        law_the_steps_of_the_child(init);
        assert(results.last() == results[results.len() - 1]);
    }
}

/// What is launched is the session that was asked for, as the account that the user
/// database holds, in its groups, from its home, with its own shell, and on the
/// terminal that was meant.
pub proof fn law_what_is_launched(
    launch: Launch,
    session: SessionView,
    username: Seq<char>,
    vt: u32,
    account: Account,
    groups: Seq<u32>,
    pam: Seq<(Seq<char>, Seq<char>)>,
    extra: Seq<(Seq<char>, Seq<char>)>,
)
    requires
        launch.is_for(session, username, vt, account, groups, pam, extra),
    ensures
        launch.username@ == username,
        launch.uid == account.uid,
        launch.gid == account.gid,
        launch.groups@ == groups,
        launch.home@ == account.home@,
        launch.shell@ == account.shell@,
        launch.command@ == session.command,
        launch.vt == vt,
        pairs(launch.env@) == assembled(
            settings(session, username, lossy(account.home@), lossy(account.shell@), vt, pam, extra),
        ),
{
}

/// Whatever stops a launch is told with the user or the session that it is about.
pub proof fn law_launch_errors_name_their_cause(what: Seq<char>, cause: Seq<char>)
    ensures
        sentence(LaunchErrorView::NoSuchUser(what)) == "no such user: "@ + what,
        sentence(LaunchErrorView::NoShell(what)) == "user "@ + what
            + " has no valid login shell"@,
        sentence(LaunchErrorView::NotLoginable(what)) == "user "@ + what
            + " is outside the loginable uid range"@,
        sentence(LaunchErrorView::EmptyCommand(what)) == "session command for "@ + what
            + " is empty"@,
        sentence(LaunchErrorView::Groups(what, cause)) == "resolving groups for "@ + what + ": "@
            + cause,
        sentence(LaunchErrorView::NulInPath(what)) == "a path for "@ + what
            + " is not representable as a C string"@,
        sentence(LaunchErrorView::Spawn(cause)) == "spawning session: "@ + cause,
{
}

/// The login shell reads the profile and is replaced by the command, on the terminal
/// of the launch; a home that holds a zero byte is refused under the user's name.
pub proof fn law_how_a_session_is_run(
    launch: &Launch,
    tty: String,
    arguments: Vec<String>,
    home: Result<(), LaunchError>,
)
    requires
        call_ensures(Launch::tty, (launch,), tty),
        call_ensures(Launch::arguments, (launch,), arguments),
        call_ensures(Launch::check_home, (launch,), home),
    ensures
        tty@ == "/dev/tty"@ + decimal(launch.vt as nat),
        arguments@.len() == 3,
        arguments@[0]@ == "-l"@,
        arguments@[1]@ == "-c"@,
        arguments@[2]@ == "exec "@ + launch.command@,
        home is Err <==> exists|i: int| 0 <= i < launch.home@.len() && #[trigger] launch.home@[i]
            == 0,
        home matches Err(e) ==> e@ == LaunchErrorView::NulInPath(launch.username@),
{
}

} // verus!
