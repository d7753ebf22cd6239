//! The greeter's process: when it may start, what it is given, and what becomes of
//! it when it dies.
//!
//! The greeter is untrusted, so it runs as an unprivileged user without any device.
//! It is also expected to crash now and then, which must not leave the machine with
//! no way to log in: hence the backoff, and giving up with an explanation.
//!
//! Instants are nanoseconds on a clock that only goes forward.
use vstd::prelude::*;
use vstd::slice::slice_to_vec;
use vstd::utf8::encode_utf8;

use crate::session::ChildStep;
use crate::text::{
    from_chars, integer, push_integer, push_str, strings, to_chars, words, words_of,
};
use crate::users::Account;

verus! {

/// A greeter that exits sooner than this is treated as having failed to start,
/// rather than as one that ran and happened to crash.
pub const RAPID_FAILURE: u64 = 10_000_000_000;

/// Rapid failures in a row before wdm stops trying.
pub const MAX_RAPID_FAILURES: u32 = 3;

/// The exit code by which a greeter says that it gave up.
pub const GREETER_GAVE_UP_EXIT: i32 = 69;

/// Runtime directory for the greeter, and the home of the Wayland socket.
pub const RUNTIME_DIR: &'static str = "/run/wdm";

/// Cache directory for the greeter.
///
/// The greeter's home stays empty, so the toolkits' default place cannot be made,
/// and without one they recompile their shaders at every boot.
pub const CACHE_DIR: &'static str = "/var/cache/wdm";

/// Why a greeter could not be prepared or started.
#[derive(Debug)]
pub enum GreeterError {
    NoSuchUser(String),
    EmptyCommand,
    /// A directory could not be prepared, and why.
    RuntimeDir(String, String),
    CacheDir(String, String),
    Spawn(String),
    AlreadyRunning,
    GaveUp,
}

/// What a [`GreeterError`] says, with strings as character sequences.
#[verifier::ext_equal]
pub enum GreeterErrorView {
    NoSuchUser(Seq<char>),
    EmptyCommand,
    RuntimeDir(Seq<char>, Seq<char>),
    CacheDir(Seq<char>, Seq<char>),
    Spawn(Seq<char>),
    AlreadyRunning,
    GaveUp,
}

impl View for GreeterError {
    type V = GreeterErrorView;

    open spec fn view(&self) -> GreeterErrorView {
        match self {
            GreeterError::NoSuchUser(user) => GreeterErrorView::NoSuchUser(user@),
            GreeterError::EmptyCommand => GreeterErrorView::EmptyCommand,
            GreeterError::RuntimeDir(dir, cause) => GreeterErrorView::RuntimeDir(dir@, cause@),
            GreeterError::CacheDir(dir, cause) => GreeterErrorView::CacheDir(dir@, cause@),
            GreeterError::Spawn(cause) => GreeterErrorView::Spawn(cause@),
            GreeterError::AlreadyRunning => GreeterErrorView::AlreadyRunning,
            GreeterError::GaveUp => GreeterErrorView::GaveUp,
        }
    }
}

/// The sentence an error is shown as.
pub open spec fn complaint(e: GreeterErrorView) -> Seq<char> {
    match e {
        GreeterErrorView::NoSuchUser(user) => "greeter user "@ + user + " does not exist"@,
        GreeterErrorView::EmptyCommand => "greeter.command is empty"@,
        GreeterErrorView::RuntimeDir(dir, cause) => "preparing "@ + dir + ": "@ + cause,
        GreeterErrorView::CacheDir(dir, cause) => "preparing "@ + dir + ": "@ + cause,
        GreeterErrorView::Spawn(cause) => cause,
        GreeterErrorView::AlreadyRunning => "a greeter is already running"@,
        GreeterErrorView::GaveUp => "wdm has stopped trying to start a greeter"@,
    }
}

impl GreeterError {
    /// The sentence this error is shown as.
    pub fn message(&self) -> (r: String)
        ensures
            r@ == complaint(self@),
    {
        match self {
            GreeterError::NoSuchUser(user) => {
                let mut s = "greeter user ".to_owned();
                push_str(&mut s, user);
                push_str(&mut s, " does not exist");
                s
            },
            GreeterError::EmptyCommand => "greeter.command is empty".to_owned(),
            GreeterError::RuntimeDir(dir, cause) | GreeterError::CacheDir(dir, cause) => {
                let mut s = "preparing ".to_owned();
                push_str(&mut s, dir);
                push_str(&mut s, ": ");
                push_str(&mut s, cause);
                s
            },
            GreeterError::Spawn(cause) => cause.clone(),
            GreeterError::AlreadyRunning => "a greeter is already running".to_owned(),
            GreeterError::GaveUp => "wdm has stopped trying to start a greeter".to_owned(),
        }
    }
}

/// How a process ended.
#[derive(Debug, Clone, Copy, PartialEq, Eq, Structural)]
pub enum Exit {
    Signal(i32),
    Code(i32),
    Unknown,
}

/// How an exit reads.
pub open spec fn exit_text(exit: Exit) -> Seq<char> {
    match exit {
        Exit::Signal(signal) => "killed by signal "@ + integer(signal as int),
        Exit::Code(code) => if code == 0 {
            "exited cleanly"@
        } else if code == GREETER_GAVE_UP_EXIT {
            "stopped responding and gave up"@
        } else {
            "exited with status "@ + integer(code as int)
        },
        Exit::Unknown => "exited for an unknown reason"@,
    }
}

/// Human-readable exit description, naming the signal where there was one.
pub fn describe_exit(exit: Exit) -> (r: String)
    ensures
        r@ == exit_text(exit),
{
    match exit {
        Exit::Signal(signal) => {
            let mut s = "killed by signal ".to_owned();
            push_integer(&mut s, signal);
            s
        },
        Exit::Code(code) => if code == 0 {
            "exited cleanly".to_owned()
        } else if code == GREETER_GAVE_UP_EXIT {
            "stopped responding and gave up".to_owned()
        } else {
            let mut s = "exited with status ".to_owned();
            push_integer(&mut s, code);
            s
        },
        Exit::Unknown => "exited for an unknown reason".to_owned(),
    }
}

/// What to do after the greeter exited.
#[derive(Debug, PartialEq, Eq)]
pub enum Disposition {
    /// Restart after `delay`. The reason is for the new greeter to show.
    Restart { delay: u64, reason: String },
    /// Too many rapid failures; show the reason and stop.
    GaveUp { reason: String },
}

/// What a [`Disposition`] says, with strings as character sequences.
#[verifier::ext_equal]
pub enum DispositionView {
    Restart { delay: u64, reason: Seq<char> },
    GaveUp { reason: Seq<char> },
}

impl View for Disposition {
    type V = DispositionView;

    open spec fn view(&self) -> DispositionView {
        match self {
            Disposition::Restart { delay, reason } => DispositionView::Restart {
                delay: *delay,
                reason: reason@,
            },
            Disposition::GaveUp { reason } => DispositionView::GaveUp { reason: reason@ },
        }
    }
}

/// Whom the greeter runs as.
#[derive(Debug)]
pub struct Credentials {
    pub uid: u32,
    pub gid: u32,
    /// The primary group alone, whatever the account says: untrusted code must not
    /// gain a device by being put in a group.
    pub groups: Vec<u32>,
    /// A path as the user database holds it, which need not be text.
    pub home: Vec<u8>,
}

impl Credentials {
    /// These are an account's.
    pub open spec fn are_of(&self, account: Account) -> bool {
        &&& self.uid == account.uid
        &&& self.gid == account.gid
        &&& self.groups@ == seq![account.gid]
        &&& self.home@ == account.home@
    }
}

/// Variables with their values as the system has them.
pub open spec fn entries(v: Seq<(String, Vec<u8>)>) -> Seq<(Seq<char>, Seq<u8>)> {
    v.map_values(|e: (String, Vec<u8>)| (e.0@, e.1@))
}

/// A variable whose value is text.
fn entry(key: &str, value: &str) -> (r: (String, Vec<u8>))
    ensures
        r.0@ == key@,
        r.1@ == encode_utf8(value@),
{
    (key.to_owned(), slice_to_vec(value.as_bytes()))
}

/// The greeter process and its restart policy.
#[derive(Debug)]
pub struct Greeter {
    pub argv: Vec<String>,
    /// Whom to drop to, or `None` where wdm is not privileged.
    pub credentials: Option<Credentials>,
    pub socket: String,
    /// The process that runs, if one does.
    pub child: Option<u32>,
    /// The greeter's process group, which outlives its leader.
    pub pgid: Option<u32>,
    pub started: Option<u64>,
    pub rapid_failures: u32,
    pub gave_up: bool,
}

/// What the greeter's process does between the fork and the command, in order.
pub open spec fn greeter_plan(privileged: bool) -> Seq<ChildStep> {
    if privileged {
        seq![
            ChildStep::UnblockSignals,
            ChildStep::NewSession,
            ChildStep::SetGroups,
            ChildStep::SetGid,
            ChildStep::SetUid,
            ChildStep::CheckUid,
            ChildStep::CheckGid,
        ]
    } else {
        seq![ChildStep::UnblockSignals, ChildStep::NewSession]
    }
}

/// A greeter that has credentials to drop drops them: the groups and the gid while
/// its uid still allows that, and both ids are checked after the uid is set; one
/// that has none changes nothing of what it is.
pub proof fn law_the_greeter_drops_its_privileges(privileged: bool, i: int, j: int)
    requires
        0 <= i < greeter_plan(privileged).len(),
        0 <= j < greeter_plan(privileged).len(),
    ensures
        privileged <==> greeter_plan(privileged).contains(ChildStep::SetUid),
        privileged <==> greeter_plan(privileged).contains(ChildStep::SetGroups),
        privileged <==> greeter_plan(privileged).contains(ChildStep::SetGid),
        privileged <==> greeter_plan(privileged).contains(ChildStep::CheckUid),
        privileged <==> greeter_plan(privileged).contains(ChildStep::CheckGid),
        greeter_plan(privileged)[i] is SetUid ==> {
            &&& greeter_plan(privileged)[j] is SetGroups ==> j < i
            &&& greeter_plan(privileged)[j] is SetGid ==> j < i
            &&& greeter_plan(privileged)[j] is CheckUid ==> i < j
            &&& greeter_plan(privileged)[j] is CheckGid ==> i < j
        },
{
    let plan = greeter_plan(privileged);
    if privileged {
        assert(plan[2] is SetGroups);
        assert(plan[3] is SetGid);
        assert(plan[4] is SetUid);
        assert(plan[5] is CheckUid);
        assert(plan[6] is CheckGid);
    }
}

/// A step of preparing a directory.
#[derive(Debug, Clone, Copy, PartialEq, Eq, Structural)]
pub enum DirStep {
    /// Make the directories above it, as open as usual.
    CreateParents,
    /// Make it unless it is there, closed to everyone but its owner from the start.
    Create,
    /// Open it, which fails if it is a link. What follows is done to what was opened
    /// and not to whatever has the name.
    Open,
    /// Close it to everyone but its owner: one that was there keeps its mode.
    Restrict,
    /// Give it to a user, and to a group if there is one.
    Give { uid: u32, gid: Option<u32> },
}

/// How the runtime directory is made: wdm's own alone, even if an earlier run has
/// given it to the greeter. Unprivileged, the user's own directory serves.
pub open spec fn runtime_dir_plan(privileged: bool, own: u32) -> Seq<DirStep> {
    if privileged {
        seq![DirStep::Create, DirStep::Restrict, DirStep::Give { uid: own, gid: None }]
    } else {
        seq![]
    }
}

/// The steps of making the runtime directory, where `own` is the uid wdm acts as.
///
/// The greeter gets it only with [`hand_over_runtime_dir`].
pub fn create_runtime_dir(privileged: bool, own: u32) -> (r: Vec<DirStep>)
    ensures
        r@ == runtime_dir_plan(privileged, own),
{
    let mut r: Vec<DirStep> = Vec::new();
    if privileged {
        r.push(DirStep::Create);
        r.push(DirStep::Restrict);
        r.push(DirStep::Give { uid: own, gid: None });
    }
    assert(r@ =~= runtime_dir_plan(privileged, own));
    r
}

/// How the cache directory is made and given to the greeter, if it has an account of
/// its own.
pub open spec fn cache_dir_plan(owner: Option<(u32, u32)>) -> Seq<DirStep> {
    match owner {
        Some((uid, gid)) => seq![
            DirStep::CreateParents,
            DirStep::Create,
            DirStep::Open,
            DirStep::Restrict,
            DirStep::Give { uid, gid: Some(gid) },
        ],
        None => seq![],
    }
}

/// The steps of making the cache directory for its owner, a user and a group.
///
/// It outlives a boot and belongs to an unprivileged account for all of it, so that
/// something else may have taken its name.
pub fn create_cache_dir(owner: Option<(u32, u32)>) -> (r: Vec<DirStep>)
    ensures
        r@ == cache_dir_plan(owner),
{
    let mut r: Vec<DirStep> = Vec::new();
    if let Some((uid, gid)) = owner {
        r.push(DirStep::CreateParents);
        r.push(DirStep::Create);
        r.push(DirStep::Open);
        r.push(DirStep::Restrict);
        r.push(DirStep::Give { uid, gid: Some(gid) });
    }
    assert(r@ =~= cache_dir_plan(owner));
    r
}

/// The steps of giving the runtime directory to the greeter's account.
pub fn hand_over_runtime_dir(owner: Option<(u32, u32)>) -> (r: Vec<DirStep>)
    ensures
        r@ == (match owner {
            Some((uid, gid)) => seq![DirStep::Give { uid, gid: Some(gid) }],
            None => seq![],
        }),
{
    let mut r: Vec<DirStep> = Vec::new();
    if let Some((uid, gid)) = owner {
        r.push(DirStep::Give { uid, gid: Some(gid) });
    }
    assert(r@ =~= match owner {
        Some((uid, gid)) => seq![DirStep::Give { uid, gid: Some(gid) }],
        None => seq![],
    });
    r
}

/// A link in the cache directory's place is never followed: by the time its mode or
/// its owner changes, the directory has been opened.
pub proof fn law_no_link_is_followed(owner: Option<(u32, u32)>, i: int)
    requires
        0 <= i < cache_dir_plan(owner).len(),
        cache_dir_plan(owner)[i] is Restrict || cache_dir_plan(owner)[i] is Give,
    ensures
        cache_dir_plan(owner).take(i).contains(DirStep::Open),
{
    assert(cache_dir_plan(owner).take(i)[2] == DirStep::Open);
}

/// The runtime directory is closed and wdm's own before anything is put into it,
/// whatever an earlier run has left.
pub proof fn law_the_runtime_directory_starts_closed(own: u32)
    ensures
        runtime_dir_plan(true, own).contains(DirStep::Restrict),
        runtime_dir_plan(true, own).last() == (DirStep::Give { uid: own, gid: None }),
        crate::backend::socket_plan(true)[0] is CreateDirectory,
{
    assert(runtime_dir_plan(true, own)[1] == DirStep::Restrict);
}

/// How many failures count, once one more is counted.
pub open spec fn counted(failures: int, rapid: bool) -> int {
    if rapid {
        failures + 1
    } else {
        1
    }
}

/// How many failures count after these, each rapid or not.
pub open spec fn count_after(failures: Seq<bool>) -> int
    decreases failures.len(),
{
    if failures.len() == 0 {
        0
    } else {
        counted(count_after(failures.drop_last()), failures.last())
    }
}

/// wdm gives up after a failure exactly if it and the one before it were rapid and
/// it was not among the first two. One crash a day never gets there.
pub proof fn law_only_failures_in_quick_succession_exhaust_the_budget(failures: Seq<bool>)
    ensures
        count_after(failures) >= MAX_RAPID_FAILURES <==> failures.len() >= 3 && failures.last()
            && failures[failures.len() - 2],
        failures.len() > 0 ==> count_after(failures) >= 1,
        count_after(failures) >= 2 <==> failures.len() >= 2 && failures.last(),
    decreases failures.len(),
{
    if failures.len() > 0 {
        law_only_failures_in_quick_succession_exhaust_the_budget(failures.drop_last());
    }
}

/// What follows a failure that makes the count `count`.
pub open spec fn verdict(count: int, reason: Seq<char>) -> DispositionView {
    if count >= MAX_RAPID_FAILURES {
        DispositionView::GaveUp { reason: "greeter "@ + reason + " — switch to tty1"@ }
    } else {
        DispositionView::Restart {
            delay: if count <= 1 {
                1_000_000_000
            } else {
                2_000_000_000
            },
            reason: "greeter "@ + reason,
        }
    }
}

/// Whether an exit counts as a failure to start.
///
/// A greeter that says it gave up counts however long it ran: finding that out
/// takes it longer than a rapid failure lasts.
pub open spec fn is_rapid(exit: Exit, started: Option<u64>, now: u64) -> bool {
    ||| exit == Exit::Code(GREETER_GAVE_UP_EXIT)
    ||| match started {
        Some(t) => now < t + RAPID_FAILURE,
        None => true,
    }
}

/// What waiting for the greeter came to.
#[derive(Debug)]
pub enum Waited {
    Exited(Exit),
    StillRunning,
    /// A signal came first, in the system's words.
    Interrupted(String),
    Failed(String),
}

/// What is to be done once a wait has been looked at.
#[derive(Debug)]
pub struct Disposed {
    pub disposition: Option<Disposition>,
    /// The process group whose remains to kill.
    pub sweep: Option<u32>,
    /// The leader to reap, once its group has been killed.
    pub reap: Option<u32>,
}

impl Greeter {
    /// Nothing but the account of failures differs.
    pub open spec fn same_but_for_failures(&self, other: &Greeter) -> bool {
        &&& self.argv == other.argv
        &&& self.credentials == other.credentials
        &&& self.socket == other.socket
        &&& self.child == other.child
        &&& self.pgid == other.pgid
        &&& self.started == other.started
    }

    /// Resolve the greeter's command and account.
    ///
    /// `socket` is the Wayland socket to connect to, and `account` what the user
    /// database holds for `user`. The command is split at white space and not given
    /// to a shell, which a configuration file could have do anything.
    pub fn new(
        command: &str,
        user: &str,
        socket: &str,
        privileged: bool,
        account: &Option<Account>,
    ) -> (r: Result<Self, GreeterError>)
        ensures
            match r {
                Ok(g) => {
                    &&& words_of(command@).len() > 0
                    &&& privileged ==> *account is Some
                    &&& strings(g.argv@) == words_of(command@)
                    &&& privileged ==> (g.credentials matches Some(c) && c.are_of(account->0))
                    &&& !privileged ==> g.credentials is None
                    &&& g.socket@ == socket@
                    &&& g.child is None
                    &&& g.pgid is None
                    &&& g.started is None
                    &&& g.rapid_failures == 0
                    &&& !g.gave_up
                },
                Err(e) => if words_of(command@).len() == 0 {
                    e@ == GreeterErrorView::EmptyCommand
                } else {
                    privileged && *account is None && e@ == GreeterErrorView::NoSuchUser(user@)
                },
            },
    {
        let parts = words(&to_chars(command));
        let mut argv: Vec<String> = Vec::new();
        for i in 0..parts.len()
            invariant
                argv@.len() == i,
                forall|j: int| 0 <= j < i ==> (#[trigger] argv@[j])@ == parts@[j]@,
        {
            argv.push(from_chars(&parts[i]));
        }
        assert(strings(argv@) =~= words_of(command@));
        if argv.len() == 0 {
            return Err(GreeterError::EmptyCommand);
        }
        let credentials: Option<Credentials> = if privileged {
            match account {
                Some(account) => {
                    let mut groups: Vec<u32> = Vec::new();
                    groups.push(account.gid);
                    assert(groups@ =~= seq![account.gid]);
                    let home = account.home.clone();
                    assert(home@ =~= account.home@);
                    Some(
                        Credentials {
                            uid: account.uid,
                            gid: account.gid,
                            groups,
                            home,
                        },
                    )
                },
                None => return Err(GreeterError::NoSuchUser(user.to_owned())),
            }
        } else {
            None
        };
        Ok(
            Greeter {
                argv,
                credentials,
                socket: socket.to_owned(),
                child: None,
                pgid: None,
                started: None,
                rapid_failures: 0,
                gave_up: false,
            },
        )
    }

    /// Whether wdm has stopped trying to run a greeter.
    pub fn gave_up(&self) -> (r: bool)
        ensures
            r == self.gave_up,
    {
        self.gave_up
    }

    /// Whether a greeter process is currently running.
    pub fn is_running(&self) -> (r: bool)
        ensures
            r == (self.child is Some),
    {
        self.child.is_some()
    }

    /// Whether a greeter may be started.
    ///
    /// A second one would orphan the first: nothing would ever kill or reap it, and
    /// it would draw over the user's session.
    pub fn may_spawn(&self) -> (r: Result<(), GreeterError>)
        ensures
            match r {
                Ok(_) => !self.gave_up && self.child is None,
                Err(e) => if self.gave_up {
                    e@ == GreeterErrorView::GaveUp
                } else {
                    self.child is Some && e@ == GreeterErrorView::AlreadyRunning
                },
            },
    {
        if self.gave_up {
            return Err(GreeterError::GaveUp);
        }
        if self.child.is_some() {
            return Err(GreeterError::AlreadyRunning);
        }
        Ok(())
    }

    /// What the greeter's process does between the fork and the command, in order;
    /// the first failure ends it.
    ///
    /// It leads a session of its own, so that its helpers can be stopped with it.
    pub fn child_steps(&self) -> (r: Vec<ChildStep>)
        ensures
            r@ == greeter_plan(self.credentials is Some),
    {
        let mut r: Vec<ChildStep> = Vec::new();
        r.push(ChildStep::UnblockSignals);
        r.push(ChildStep::NewSession);
        if self.credentials.is_some() {
            r.push(ChildStep::SetGroups);
            r.push(ChildStep::SetGid);
            r.push(ChildStep::SetUid);
            r.push(ChildStep::CheckUid);
            r.push(ChildStep::CheckGid);
        }
        assert(r@ =~= greeter_plan(self.credentials is Some));
        r
    }

    /// The environment the greeter is given, and nothing else.
    ///
    /// `socket_variable` is the variable that greeters look for their socket in;
    /// `lang`, `runtime_dir` and `home` are wdm's own, where they are set. Without
    /// credentials the greeter runs as the developer and has their directories.
    pub fn environment(
        &self,
        socket_variable: &str,
        lang: Option<&str>,
        runtime_dir: Option<&str>,
        home: Option<&str>,
    ) -> (r: Vec<(String, Vec<u8>)>)
        ensures
            entries(r@) == self.given(
                socket_variable@,
                seen(lang),
                seen(runtime_dir),
                seen(home),
            ),
    {
        let ghost asked = seen(lang);
        let mut env: Vec<(String, Vec<u8>)> = Vec::new();
        env.push(entry(socket_variable, &self.socket));
        env.push(entry("PATH", "/usr/local/bin:/usr/bin:/bin"));
        let lang: &str = match lang {
            Some(lang) => lang,
            None => "C.UTF-8",
        };
        env.push(entry("LANG", lang));
        match &self.credentials {
            Some(credentials) => {
                env.push(entry("XDG_RUNTIME_DIR", RUNTIME_DIR));
                env.push(entry("XDG_CACHE_HOME", CACHE_DIR));
                let home = credentials.home.clone();
                assert(home@ =~= credentials.home@);
                env.push(("HOME".to_owned(), home));
            },
            None => {
                if let Some(dir) = runtime_dir {
                    env.push(entry("XDG_RUNTIME_DIR", dir));
                }
                if let Some(home) = home {
                    env.push(entry("HOME", home));
                }
            },
        }
        assert(entries(env@) =~= self.given(
            socket_variable@,
            asked,
            seen(runtime_dir),
            seen(home),
        ));
        env
    }

    /// The environment the greeter is given.
    pub open spec fn given(
        &self,
        socket_variable: Seq<char>,
        lang: Option<Seq<char>>,
        runtime_dir: Option<Seq<char>>,
        home: Option<Seq<char>>,
    ) -> Seq<(Seq<char>, Seq<u8>)> {
        seq![
            (socket_variable, encode_utf8(self.socket@)),
            ("PATH"@, encode_utf8("/usr/local/bin:/usr/bin:/bin"@)),
            (
                "LANG"@,
                match lang {
                    Some(lang) => encode_utf8(lang),
                    None => encode_utf8("C.UTF-8"@),
                },
            ),
        ] + match self.credentials {
            Some(credentials) => seq![
                ("XDG_RUNTIME_DIR"@, encode_utf8("/run/wdm"@)),
                ("XDG_CACHE_HOME"@, encode_utf8("/var/cache/wdm"@)),
                ("HOME"@, credentials.home@),
            ],
            None => (match runtime_dir {
                Some(dir) => seq![("XDG_RUNTIME_DIR"@, encode_utf8(dir))],
                None => seq![],
            }) + (match home {
                Some(home) => seq![("HOME"@, encode_utf8(home))],
                None => seq![],
            }),
        }
    }

    /// The greeter was started, as a process that leads its own group.
    pub fn spawned(&mut self, pid: u32, now: u64)
        ensures
            *final(self) == (Greeter {
                child: Some(pid),
                pgid: Some(pid),
                started: Some(now),
                ..*old(self)
            }),
    {
        self.child = Some(pid);
        self.pgid = Some(pid);
        self.started = Some(now);
    }

    /// Count a failure and decide what follows.
    ///
    /// A greeter that ran for a while and then died is a crash and starts the count
    /// afresh.
    fn record_failure(&mut self, rapid: bool, reason: &str) -> (r: Disposition)
        requires
            old(self).rapid_failures < u32::MAX,
        ensures
            final(self).rapid_failures == counted(old(self).rapid_failures as int, rapid),
            r@ == verdict(final(self).rapid_failures as int, reason@),
            final(self).gave_up == (old(self).gave_up || final(self).rapid_failures
                >= MAX_RAPID_FAILURES),
            final(self).same_but_for_failures(old(self)),
    {
        if rapid {
            self.rapid_failures = self.rapid_failures + 1;
        } else {
            self.rapid_failures = 1;
        }
        let mut text = "greeter ".to_owned();
        push_str(&mut text, reason);
        if self.rapid_failures >= MAX_RAPID_FAILURES {
            self.gave_up = true;
            push_str(&mut text, " — switch to tty1");
            return Disposition::GaveUp { reason: text };
        }
        let delay: u64 = if self.rapid_failures <= 1 {
            1_000_000_000
        } else {
            2_000_000_000
        };
        Disposition::Restart { delay, reason: text }
    }

    /// Record an exit and decide whether to restart.
    pub fn note_exit(&mut self, exit: Exit, now: u64) -> (r: Disposition)
        requires
            old(self).rapid_failures < u32::MAX,
            old(self).started matches Some(t) ==> t + RAPID_FAILURE <= u64::MAX,
        ensures
            final(self).rapid_failures == counted(
                old(self).rapid_failures as int,
                is_rapid(exit, old(self).started, now),
            ),
            r@ == verdict(final(self).rapid_failures as int, exit_text(exit)),
            final(self).gave_up == (old(self).gave_up || final(self).rapid_failures
                >= MAX_RAPID_FAILURES),
            final(self).started is None,
            final(self).same_but_for_failures(&Greeter { started: None, ..*old(self) }),
    {
        let rapid: bool = exit == Exit::Code(GREETER_GAVE_UP_EXIT) || match self.started {
            Some(t) => now < t + RAPID_FAILURE,
            None => true,
        };
        self.started = None;
        self.record_failure(rapid, &describe_exit(exit))
    }

    /// Record a greeter that could not be started at all.
    ///
    /// A broken command goes through the same backoff, so that the user ends up
    /// with an explanation rather than with nothing.
    pub fn note_spawn_failure(&mut self, error: &str) -> (r: Disposition)
        requires
            old(self).rapid_failures < u32::MAX,
        ensures
            final(self).rapid_failures == old(self).rapid_failures + 1,
            r@ == verdict(
                final(self).rapid_failures as int,
                "could not be started: "@ + error@,
            ),
            final(self).gave_up == (old(self).gave_up || final(self).rapid_failures
                >= MAX_RAPID_FAILURES),
            final(self).same_but_for_failures(&Greeter { started: None, ..*old(self) }),
    {
        self.started = None;
        let mut reason = "could not be started: ".to_owned();
        push_str(&mut reason, error);
        self.record_failure(true, &reason)
    }
}

/// The view of a text that may not be there.
pub open spec fn seen(s: Option<&str>) -> Option<Seq<char>> {
    match s {
        Some(s) => Some(s@),
        None => None,
    }
}

impl Greeter {
    /// Whether to wait once more: an interruption says nothing about the greeter.
    ///
    /// Once, not for ever; a handle that cannot be waited on must be found out.
    pub fn should_retry(waited: &Waited) -> (r: bool)
        ensures
            r == (*waited is Interrupted),
    {
        match waited {
            Waited::Interrupted(_) => true,
            _ => false,
        }
    }

    /// Turn the outcome of a wait into a disposition; none while the greeter runs.
    ///
    /// A greeter that dies leaves its helpers behind, so its group is swept on every
    /// way out. One that cannot be waited on is treated as gone, but no exit is made
    /// up for it: its uptime is not to be trusted either, so it counts as a rapid
    /// failure.
    pub fn dispose(&mut self, waited: Waited, now: u64) -> (r: Disposed)
        requires
            old(self).rapid_failures < u32::MAX,
            old(self).started matches Some(t) ==> t + RAPID_FAILURE <= u64::MAX,
        ensures
            match waited {
                Waited::StillRunning => {
                    &&& *final(self) == *old(self)
                    &&& r.disposition is None
                    &&& r.sweep is None
                    &&& r.reap is None
                },
                Waited::Exited(exit) => {
                    &&& final(self).rapid_failures == counted(
                        old(self).rapid_failures as int,
                        is_rapid(exit, old(self).started, now),
                    )
                    &&& r.disposition matches Some(d)
                    &&& d@ == verdict(final(self).rapid_failures as int, exit_text(exit))
                    &&& r.sweep == old(self).pgid
                    &&& r.reap is None
                    &&& final(self).is_over(old(self))
                },
                Waited::Interrupted(error) | Waited::Failed(error) => {
                    &&& final(self).rapid_failures == old(self).rapid_failures + 1
                    &&& r.disposition matches Some(d)
                    &&& d@ == verdict(
                        final(self).rapid_failures as int,
                        "could not be waited for: "@ + error@,
                    )
                    &&& r.sweep == old(self).pgid
                    &&& r.reap == old(self).child
                    &&& final(self).is_over(old(self))
                },
            },
    {
        match waited {
            Waited::StillRunning => Disposed { disposition: None, sweep: None, reap: None },
            Waited::Exited(exit) => {
                self.child = None;
                let sweep: Option<u32> = self.pgid;
                self.pgid = None;
                let disposition = self.note_exit(exit, now);
                Disposed { disposition: Some(disposition), sweep, reap: None }
            },
            Waited::Interrupted(error) | Waited::Failed(error) => {
                let reap: Option<u32> = self.child;
                self.child = None;
                let sweep: Option<u32> = self.pgid;
                self.pgid = None;
                self.started = None;
                let mut reason = "could not be waited for: ".to_owned();
                push_str(&mut reason, &error);
                let disposition = self.record_failure(true, &reason);
                Disposed { disposition: Some(disposition), sweep, reap }
            },
        }
    }

    /// No process is left of what another state knew, and the budget is kept.
    pub open spec fn is_over(&self, before: &Greeter) -> bool {
        &&& self.child is None
        &&& self.pgid is None
        &&& self.started is None
        &&& self.gave_up == (before.gave_up || self.rapid_failures >= MAX_RAPID_FAILURES)
        &&& self.argv == before.argv
        &&& self.credentials == before.credentials
        &&& self.socket == before.socket
    }

    /// Begin to stop the greeter, if there is one: its group is told to terminate
    /// and given some time.
    pub fn begin_kill(&mut self, now: u64) -> (r: Option<Shutdown>)
        requires
            now + GRACE <= u64::MAX,
        ensures
            match (old(self).pgid, r) {
                (None, None) => *final(self) == *old(self),
                (Some(pgid), Some(shutdown)) => {
                    &&& shutdown.pgid == pgid
                    &&& shutdown.leader == old(self).child
                    &&& shutdown.stage == KillStage::Reaping
                    &&& shutdown.deadline == now + GRACE
                    &&& *final(self) == (Greeter { child: None, pgid: None, ..*old(self) })
                },
                _ => false,
            },
    {
        match self.pgid {
            None => None,
            Some(pgid) => {
                let leader: Option<u32> = self.child;
                self.child = None;
                self.pgid = None;
                Some(
                    Shutdown { pgid, leader, stage: KillStage::Reaping, deadline: now + GRACE },
                )
            },
        }
    }
}

/// The time a greeter has to go once it is told to.
pub const GRACE: u64 = 2_000_000_000;

/// The time a killed group has to disappear.
pub const LAST_WAIT: u64 = 500_000_000;

/// How far the stopping of a greeter has come.
#[derive(Debug, Clone, Copy, PartialEq, Eq, Structural)]
pub enum KillStage {
    /// Waiting for the leader, so that it does not stay in the group as a zombie.
    Reaping,
    /// Waiting for the group to become empty.
    Emptying,
    /// Waiting for the killed group to disappear.
    Killed,
    Over,
}

/// A greeter that is being stopped.
///
/// What is waited for is that the group is empty, not that its leader is gone: a
/// helper that ignores the signal outlives its parent, and must not draw over the
/// user's session.
#[derive(Debug, Clone, Copy, PartialEq, Eq, Structural)]
pub struct Shutdown {
    pub pgid: u32,
    pub leader: Option<u32>,
    pub stage: KillStage,
    pub deadline: u64,
}

/// Something seen while a greeter is being stopped.
#[derive(Debug, Clone, Copy, PartialEq, Eq, Structural)]
pub enum KillSeen {
    /// The leader is gone, or there is none, or it cannot be waited on.
    LeaderGone,
    LeaderRuns,
    GroupEmpty,
    GroupAlive,
    /// A pause is over.
    Slept,
    /// The group was killed and its leader reaped.
    Signalled,
}

/// What to do next while a greeter is being stopped.
#[derive(Debug, Clone, Copy, PartialEq, Eq, Structural)]
pub enum KillAction {
    CheckLeader,
    ProbeGroup,
    /// Pause for so many nanoseconds.
    Sleep(u64),
    /// Kill the group and reap its leader.
    KillGroup,
    /// The group is empty.
    Done,
    /// The group survived being killed.
    Survived,
}

impl Shutdown {
    /// Probe the group while there is time, and kill it after.
    pub open spec fn probe_or_kill(self, now: u64) -> (Shutdown, KillAction) {
        if now < self.deadline {
            (Shutdown { stage: KillStage::Emptying, ..self }, KillAction::ProbeGroup)
        } else {
            (Shutdown { stage: KillStage::Killed, ..self }, KillAction::KillGroup)
        }
    }

    /// What follows from something seen.
    pub open spec fn after(self, seen: KillSeen, now: u64) -> (Shutdown, KillAction) {
        let over = Shutdown { stage: KillStage::Over, ..self };
        match (self.stage, seen) {
            (KillStage::Reaping, KillSeen::LeaderGone) => self.probe_or_kill(now),
            (KillStage::Reaping, KillSeen::LeaderRuns) => if now < self.deadline {
                (self, KillAction::Sleep(20_000_000))
            } else {
                self.probe_or_kill(now)
            },
            (KillStage::Reaping, _) => (self, KillAction::CheckLeader),
            (KillStage::Emptying, KillSeen::GroupEmpty) => (over, KillAction::Done),
            (KillStage::Emptying, KillSeen::GroupAlive) => (self, KillAction::Sleep(20_000_000)),
            (KillStage::Emptying, _) => self.probe_or_kill(now),
            (KillStage::Killed, KillSeen::Signalled) => (
                Shutdown { deadline: (now + LAST_WAIT) as u64, ..self },
                KillAction::ProbeGroup,
            ),
            (KillStage::Killed, KillSeen::GroupEmpty) => (over, KillAction::Done),
            (KillStage::Killed, KillSeen::GroupAlive) => (self, KillAction::Sleep(10_000_000)),
            (KillStage::Killed, _) => if now < self.deadline {
                (self, KillAction::ProbeGroup)
            } else {
                (over, KillAction::Survived)
            },
            (KillStage::Over, _) => (self, KillAction::Done),
        }
    }

    /// What to do next, given something seen.
    pub fn step(&mut self, seen: KillSeen, now: u64) -> (r: KillAction)
        requires
            now + LAST_WAIT <= u64::MAX,
        ensures
            (*final(self), r) == old(self).after(seen, now),
    {
        match (self.stage, seen) {
            (KillStage::Reaping, KillSeen::LeaderGone) => self.go_on(now),
            (KillStage::Reaping, KillSeen::LeaderRuns) => if now < self.deadline {
                KillAction::Sleep(20_000_000)
            } else {
                self.go_on(now)
            },
            (KillStage::Reaping, _) => KillAction::CheckLeader,
            (KillStage::Emptying, KillSeen::GroupEmpty) => {
                self.stage = KillStage::Over;
                KillAction::Done
            },
            (KillStage::Emptying, KillSeen::GroupAlive) => KillAction::Sleep(20_000_000),
            (KillStage::Emptying, _) => self.go_on(now),
            (KillStage::Killed, KillSeen::Signalled) => {
                self.deadline = now + LAST_WAIT;
                KillAction::ProbeGroup
            },
            (KillStage::Killed, KillSeen::GroupEmpty) => {
                self.stage = KillStage::Over;
                KillAction::Done
            },
            (KillStage::Killed, KillSeen::GroupAlive) => KillAction::Sleep(10_000_000),
            (KillStage::Killed, _) => if now < self.deadline {
                KillAction::ProbeGroup
            } else {
                self.stage = KillStage::Over;
                KillAction::Survived
            },
            (KillStage::Over, _) => KillAction::Done,
        }
    }

    /// Probe the group while there is time, and kill it after.
    fn go_on(&mut self, now: u64) -> (r: KillAction)
        ensures
            (*final(self), r) == old(self).probe_or_kill(now),
    {
        if now < self.deadline {
            self.stage = KillStage::Emptying;
            KillAction::ProbeGroup
        } else {
            self.stage = KillStage::Killed;
            KillAction::KillGroup
        }
    }
}

/// The display is handed over only to an empty screen: stopping a greeter is done
/// only once its whole group was seen empty, and a group is killed only after the
/// time it was given.
pub proof fn law_stopping_waits_for_the_whole_group(s: Shutdown, seen: KillSeen, now: u64)
    requires
        s.stage != KillStage::Over,
    ensures
        s.after(seen, now).1 == KillAction::Done ==> seen == KillSeen::GroupEmpty,
        s.after(seen, now).1 == KillAction::KillGroup ==> now >= s.deadline,
        s.after(seen, now).0.stage == KillStage::Over ==> s.after(seen, now).1 == KillAction::Done
            || s.after(seen, now).1 == KillAction::Survived,
{
}

/// An exit is told by its signal or its status; a clean one, and one by which the
/// greeter says that it gave up, are told in words.
pub proof fn law_how_an_exit_reads(signal: i32, code: i32)
    ensures
        exit_text(Exit::Signal(signal)) == "killed by signal "@ + integer(signal as int),
        exit_text(Exit::Code(0)) == "exited cleanly"@,
        exit_text(Exit::Code(69)) == "stopped responding and gave up"@,
        code != 0 && code != 69 ==> exit_text(Exit::Code(code)) == "exited with status "@ + integer(
            code as int,
        ),
        exit_text(Exit::Unknown) == "exited for an unknown reason"@,
{
}

/// A greeter failed to start if it says that it gave up, if it is not known to have
/// started, or if it lasted less than ten seconds; otherwise it crashed.
pub proof fn law_what_is_a_failure_to_start(exit: Exit, started: u64, now: u64)
    ensures
        is_rapid(exit, None, now),
        is_rapid(Exit::Code(69), Some(started), now),
        exit != Exit::Code(69) ==> (is_rapid(exit, Some(started), now) <==> now - started
            < 10_000_000_000),
{
}

/// The first failure is followed by a restart after one second, the second by one
/// after two, and the third by giving up; whatever follows, what happened is told.
pub proof fn law_what_follows_a_failure(count: int, reason: Seq<char>)
    requires
        count >= 1,
    ensures
        verdict(count, reason) is GaveUp <==> count >= 3,
        count < 3 ==> verdict(count, reason) == (DispositionView::Restart {
            delay: (count * 1_000_000_000) as u64,
            reason: "greeter "@ + reason,
        }),
        count >= 3 ==> verdict(count, reason) == (DispositionView::GaveUp {
            reason: "greeter "@ + reason + " — switch to tty1"@,
        }),
{
}

/// Every complaint names what it is about.
pub proof fn law_complaints_name_their_cause(what: Seq<char>, cause: Seq<char>)
    ensures
        complaint(GreeterErrorView::NoSuchUser(what)) == "greeter user "@ + what
            + " does not exist"@,
        complaint(GreeterErrorView::EmptyCommand) == "greeter.command is empty"@,
        complaint(GreeterErrorView::RuntimeDir(what, cause)) == "preparing "@ + what + ": "@
            + cause,
        complaint(GreeterErrorView::CacheDir(what, cause)) == "preparing "@ + what + ": "@ + cause,
        complaint(GreeterErrorView::Spawn(cause)) == cause,
        complaint(GreeterErrorView::AlreadyRunning) == "a greeter is already running"@,
        complaint(GreeterErrorView::GaveUp) == "wdm has stopped trying to start a greeter"@,
{
}

/// The greeter finds its socket and a path, and the language it is asked to speak or
/// else a neutral one. With an account of its own it has that account's home, and
/// wdm's directories whatever wdm's own environment holds; without one it has the
/// developer's, where they are set.
pub proof fn law_what_the_greeter_is_given(
    greeter: Greeter,
    variable: Seq<char>,
    lang: Option<Seq<char>>,
    runtime_dir: Option<Seq<char>>,
    home: Option<Seq<char>>,
)
    ensures
        ({
            let env = greeter.given(variable, lang, runtime_dir, home);
            &&& env[0] == (variable, encode_utf8(greeter.socket@))
            &&& env[1] == ("PATH"@, encode_utf8("/usr/local/bin:/usr/bin:/bin"@))
            &&& env[2].0 == "LANG"@
            &&& lang matches Some(lang) ==> env[2].1 == encode_utf8(lang)
            &&& lang is None ==> env[2].1 == encode_utf8("C.UTF-8"@)
            &&& greeter.credentials matches Some(c) ==> {
                &&& env.len() == 6
                &&& env[3] == ("XDG_RUNTIME_DIR"@, encode_utf8("/run/wdm"@))
                &&& env[4] == ("XDG_CACHE_HOME"@, encode_utf8("/var/cache/wdm"@))
                &&& env[5] == ("HOME"@, c.home@)
            }
            &&& greeter.credentials is None ==> {
                &&& env.len() == 3 + (if runtime_dir is Some {
                    1int
                } else {
                    0
                }) + (if home is Some {
                    1int
                } else {
                    0
                })
                &&& runtime_dir matches Some(dir) ==> env[3] == (
                    "XDG_RUNTIME_DIR"@,
                    encode_utf8(dir),
                )
                &&& home matches Some(home) ==> env.last() == ("HOME"@, encode_utf8(home))
            }
        }),
{
}

/// The greeter is in the group of its account and in no other, whatever groups the
/// account is in.
pub proof fn law_the_greeter_is_in_one_group(credentials: Credentials, account: Account)
    requires
        credentials.are_of(account),
    ensures
        credentials.uid == account.uid,
        credentials.gid == account.gid,
        credentials.groups@.len() == 1,
        credentials.groups@[0] == account.gid,
        credentials.home@ == account.home@,
{
}

/// Every greeter gets its signals back and leads a session of its own before it
/// drops anything, and does nothing twice.
pub proof fn law_every_greeter_leads_a_session(privileged: bool, i: int, j: int)
    requires
        0 <= i < j < greeter_plan(privileged).len(),
    ensures
        greeter_plan(privileged)[0] is UnblockSignals,
        greeter_plan(privileged)[1] is NewSession,
        greeter_plan(privileged)[i] != greeter_plan(privileged)[j],
        greeter_plan(privileged)[j] is SetGroups ==> !(greeter_plan(privileged)[i] is SetGid),
        greeter_plan(privileged).len() == if privileged {
            7int
        } else {
            2
        },
{
}

/// The directories are made before they are closed, and closed before they change
/// hands; the cache goes to its owner and to the owner's group, and without a
/// greeter's account no directory is touched.
pub proof fn law_how_directories_are_made(privileged: bool, own: u32, uid: u32, gid: u32)
    ensures
        ({
            let runtime = runtime_dir_plan(true, own);
            let cache = cache_dir_plan(Some((uid, gid)));
            &&& runtime_dir_plan(false, own).len() == 0
            &&& runtime.len() == 3
            &&& runtime[0] is Create
            &&& runtime[1] is Restrict
            &&& runtime[2] == (DirStep::Give { uid: own, gid: None })
            &&& cache_dir_plan(None).len() == 0
            &&& cache.len() == 5
            &&& cache[0] is CreateParents
            &&& cache[1] is Create
            &&& cache[2] is Open
            &&& cache[3] is Restrict
            &&& cache[4] == (DirStep::Give { uid, gid: Some(gid) })
        }),
{
}

/// How a greeter is stopped: its leader and then its group are looked at every fiftieth
/// of a second until the deadline, then the group is killed and has half a second
/// more. Which group it is never changes.
pub proof fn law_how_a_greeter_is_stopped(s: Shutdown, seen: KillSeen, now: u64)
    requires
        now + LAST_WAIT <= u64::MAX,
    ensures
        ({
            let (next, action) = s.after(seen, now);
            &&& next.pgid == s.pgid
            &&& next.leader == s.leader
            &&& s.stage == KillStage::Reaping && seen == KillSeen::LeaderRuns && now < s.deadline
                ==> next == s && action == KillAction::Sleep(20_000_000)
            &&& s.stage == KillStage::Reaping && seen == KillSeen::LeaderGone && now < s.deadline
                ==> next.stage == KillStage::Emptying && action == KillAction::ProbeGroup
            &&& s.stage == KillStage::Reaping && (seen == KillSeen::LeaderGone || seen
                == KillSeen::LeaderRuns) && now >= s.deadline ==> next.stage == KillStage::Killed
                && action == KillAction::KillGroup
            &&& s.stage == KillStage::Reaping && seen == KillSeen::Slept ==> next == s && action
                == KillAction::CheckLeader
            &&& s.stage == KillStage::Emptying && seen == KillSeen::GroupAlive ==> next == s
                && action == KillAction::Sleep(20_000_000)
            &&& s.stage == KillStage::Emptying && seen == KillSeen::Slept && now < s.deadline
                ==> next == s && action == KillAction::ProbeGroup
            &&& s.stage == KillStage::Emptying && seen == KillSeen::Slept && now >= s.deadline
                ==> next.stage == KillStage::Killed && action == KillAction::KillGroup
            &&& s.stage == KillStage::Killed && seen == KillSeen::Signalled ==> next.stage
                == KillStage::Killed && next.deadline == now + 500_000_000 && action
                == KillAction::ProbeGroup
            &&& s.stage == KillStage::Killed && seen == KillSeen::GroupAlive ==> next == s
                && action == KillAction::Sleep(10_000_000)
            &&& s.stage == KillStage::Killed && seen == KillSeen::Slept && now < s.deadline
                ==> next == s && action == KillAction::ProbeGroup
            &&& s.stage == KillStage::Killed && seen == KillSeen::Slept && now >= s.deadline
                ==> next.stage == KillStage::Over && action == KillAction::Survived
            &&& s.stage != KillStage::Over && s.stage != KillStage::Reaping && seen
                == KillSeen::GroupEmpty ==> next.stage == KillStage::Over && action
                == KillAction::Done
            &&& !(s.stage == KillStage::Killed && seen == KillSeen::Signalled) ==> next.deadline
                == s.deadline
            &&& s.stage == KillStage::Over ==> next == s && action == KillAction::Done
        }),
{
}

/// What is over has left nothing that runs, and has changed nothing of what is
/// started next.
pub proof fn law_what_is_over_can_start_again(after: Greeter, before: Greeter)
    requires
        after.is_over(&before),
    ensures
        after.child is None,
        after.pgid is None,
        after.started is None,
        after.argv == before.argv,
        after.credentials == before.credentials,
        after.socket == before.socket,
        after.gave_up <==> before.gave_up || after.rapid_failures >= 3,
{
}

/// A failure that is counted changes nothing of what runs.
pub proof fn law_counting_changes_nothing_else(after: Greeter, before: Greeter)
    requires
        after.same_but_for_failures(&before),
    ensures
        after.argv == before.argv,
        after.credentials == before.credentials,
        after.socket == before.socket,
        after.child == before.child,
        after.pgid == before.pgid,
        after.started == before.started,
{
}

/// The environment is seen variable by variable, with each value as it is.
pub proof fn law_the_environment_is_seen_as_it_is(env: Seq<(String, Vec<u8>)>, i: int)
    requires
        0 <= i < env.len(),
    ensures
        entries(env).len() == env.len(),
        entries(env)[i].0 == env[i].0@,
        entries(env)[i].1 == env[i].1@,
{
}

/// A greeter is started if and only if none runs and wdm has not given up, and giving
/// up is what is told first.
pub proof fn law_when_a_greeter_may_start(greeter: &Greeter, answer: Result<(), GreeterError>)
    requires
        call_ensures(Greeter::may_spawn, (greeter,), answer),
    ensures
        answer is Ok <==> !greeter.gave_up && greeter.child is None,
        greeter.gave_up ==> (answer matches Err(e) && e@ == GreeterErrorView::GaveUp),
        !greeter.gave_up && greeter.child is Some ==> (answer matches Err(e) && e@
            == GreeterErrorView::AlreadyRunning),
{
}

/// Only an interrupted wait is tried again, and the runtime directory is given away
/// only to an account.
pub proof fn law_when_to_wait_again(
    waited: Waited,
    again: bool,
    owner: Option<(u32, u32)>,
    steps: Vec<DirStep>,
)
    requires
        call_ensures(Greeter::should_retry, (&waited,), again),
        call_ensures(hand_over_runtime_dir, (owner,), steps),
    ensures
        again <==> waited is Interrupted,
        owner is None ==> steps@.len() == 0,
        owner matches Some((uid, gid)) ==> steps@ == seq![DirStep::Give { uid, gid: Some(gid) }],
{
}

/// A greeter is prepared from its command's words and its own account: it is refused
/// for want of a command first, then for want of the account it is to drop to, and
/// otherwise starts with nothing running and nothing counted.
pub proof fn law_how_a_greeter_is_prepared(
    command: &str,
    user: &str,
    socket: &str,
    privileged: bool,
    account: Option<Account>,
    prepared: Result<Greeter, GreeterError>,
)
    requires
        call_ensures(Greeter::new, (command, user, socket, privileged, &account), prepared),
    ensures
        prepared is Ok <==> words_of(command@).len() > 0 && (privileged ==> account is Some),
        words_of(command@).len() == 0 ==> (prepared matches Err(e) && e@
            == GreeterErrorView::EmptyCommand),
        words_of(command@).len() > 0 && privileged && account is None ==> (
        prepared matches Err(e) && e@ == GreeterErrorView::NoSuchUser(user@)),
        prepared matches Ok(g) ==> {
            &&& strings(g.argv@) == words_of(command@)
            &&& g.socket@ == socket@
            &&& g.credentials is Some <==> privileged
            &&& g.credentials matches Some(c) ==> c.uid == account->0.uid && c.gid
                == account->0.gid && c.groups@ == seq![account->0.gid]
            &&& g.child is None
            &&& g.pgid is None
            &&& g.started is None
            &&& g.rapid_failures == 0
            &&& !g.gave_up
        },
{
}

} // verus!
