//! The PAM helper: what `wdm --pam-helper` does, message by message.
//!
//! wdm runs PAM in a process of its own so that the modules which act on the
//! calling task act on the one that becomes the user's session, and so that the
//! session is closed on the handle that opened it. The helper is given one start
//! message, authenticates through a conversation that crosses the socket, waits to
//! be told to launch, opens the session, forks it and stays until it ends.
use vstd::prelude::*;

use crate::auth::{
    greeter_text, notice_to_greeter, to_greeter, Phase, PromptStyle, SessionDescription,
};
use crate::pamwire::{damage_shows, lossy, marked, text_of, Msg, MsgView};
use crate::session::{has_prefix, starts_with};
use crate::sessions::{Session, SessionType, SessionView};
use crate::text::{
    copy_pairs, decimal, find, integer, lemma_find, lines, lines_of, number, pairs, parse_signed,
    position, push_integer, push_str, signed, slice, to_chars, trim, trimmed, views,
};

pub use crate::auth::name_of;

verus! {

/// The descriptor the helper finds its socket on.
///
/// A fixed number and not an argument: there is nothing to get wrong and nothing
/// a shell could supply.
pub const SOCKET_FD: i32 = 3;

/// What the start message carried.
#[derive(Debug)]
pub struct Start {
    pub username: String,
    pub tty: String,
    pub session: SessionDescription,
    /// The first prompt id that is this helper's to use.
    pub id_base: u32,
}

impl Start {
    /// The message that this was carried by.
    pub open spec fn carrier(&self) -> MsgView {
        MsgView::Start {
            username: self.username@,
            tty: self.tty@,
            seat: self.session.seat@,
            vtnr: self.session.vtnr,
            session_type: self.session.session_type@,
            desktop: self.session.desktop@,
            id_base: self.id_base,
        }
    }

    /// What a start message carries; no other message starts an attempt.
    pub fn from_msg(msg: &Msg) -> (r: Option<Start>)
        ensures
            match r {
                Some(start) => msg@ == start.carrier(),
                None => !(msg@ is Start),
            },
    {
        match msg {
            Msg::Start { username, tty, seat, vtnr, session_type, desktop, id_base } => Some(
                Start {
                    username: username.clone(),
                    tty: tty.clone(),
                    session: SessionDescription {
                        seat: seat.clone(),
                        vtnr: *vtnr,
                        session_type: session_type.clone(),
                        desktop: desktop.clone(),
                    },
                    id_base: *id_base,
                },
            ),
            _ => None,
        }
    }
}

/// What the launch message carried.
#[derive(Debug)]
pub struct LaunchArgs {
    /// What goes into PAM's own environment before the session is opened, which
    /// is a different environment from the launched child's.
    pub session_type: String,
    pub desktop: String,
    pub session: Session,
    pub extra_env: Vec<(String, String)>,
    pub vt: u32,
}

/// What a [`LaunchArgs`] holds, with strings as character sequences.
#[verifier::ext_equal]
pub struct LaunchArgsView {
    pub session_type: Seq<char>,
    pub desktop: Seq<char>,
    pub session: SessionView,
    pub extra_env: Seq<(Seq<char>, Seq<char>)>,
    pub vt: u32,
}

impl View for LaunchArgs {
    type V = LaunchArgsView;

    open spec fn view(&self) -> LaunchArgsView {
        LaunchArgsView {
            session_type: self.session_type@,
            desktop: self.desktop@,
            session: self.session@,
            extra_env: pairs(self.extra_env@),
            vt: self.vt,
        }
    }
}

/// What a launch message carries.
///
/// The session's path is not among it: it serves diagnostics only, and only what
/// decides what runs crosses the socket.
pub open spec fn launch_args(m: MsgView) -> Option<LaunchArgsView> {
    match m {
        MsgView::Launch {
            session_type,
            desktop,
            session_id,
            session_name,
            session_exec,
            extra_env,
            vt,
        } => Some(
            LaunchArgsView {
                session_type,
                desktop,
                session: SessionView {
                    id: session_id,
                    name: session_name,
                    command: session_exec,
                    session_type: if session_type == "x11"@ {
                        SessionType::X11
                    } else {
                        SessionType::Wayland
                    },
                    path: seq![],
                },
                extra_env,
                vt,
            },
        ),
        _ => None,
    }
}

impl LaunchArgs {
    /// What a launch message carries; no other message launches anything.
    pub fn from_msg(msg: &Msg) -> (r: Option<LaunchArgs>)
        ensures
            match r {
                Some(args) => launch_args(msg@) == Some(args@),
                None => launch_args(msg@) is None,
            },
    {
        match msg {
            Msg::Launch {
                session_type,
                desktop,
                session_id,
                session_name,
                session_exec,
                extra_env,
                vt,
            } => {
                let args = LaunchArgs {
                    session_type: session_type.clone(),
                    desktop: desktop.clone(),
                    session: Session {
                        id: session_id.clone(),
                        name: session_name.clone(),
                        command: session_exec.clone(),
                        session_type: SessionType::from_xdg(session_type),
                        path: String::new(),
                    },
                    extra_env: copy_pairs(extra_env),
                    vt: *vt,
                };
                assert(args@.session.path =~= seq![]);
                Some(args)
            },
            _ => None,
        }
    }
}

/// A session that is told to the helper arrives as it was: everything but the path
/// survives the message, and what describes it to PAM agrees with it.
pub proof fn law_a_launch_survives_the_message(
    session: SessionView,
    extra_env: Seq<(Seq<char>, Seq<char>)>,
    vt: u32,
)
    ensures
        ({
            let m = MsgView::Launch {
                session_type: crate::sessions::xdg_type(session.session_type),
                desktop: crate::sessions::desktop_name(session.id),
                session_id: session.id,
                session_name: session.name,
                session_exec: session.command,
                extra_env,
                vt,
            };
            launch_args(m) == Some(
                LaunchArgsView {
                    session_type: crate::sessions::xdg_type(session.session_type),
                    desktop: crate::sessions::desktop_name(session.id),
                    session: SessionView { path: seq![], ..session },
                    extra_env,
                    vt,
                },
            )
        }),
{
    crate::sessions::law_session_type_survives(session.session_type);
}

/// A task's threading and identity, as its status file reports them.
///
/// `/proc/self` names the thread-group leader, so what PAM modules do through it
/// takes effect only from a leader; and `fork` copies only the calling thread. Both
/// are lost by starting a thread, silently, hence a check.
#[derive(Debug, Clone, Copy, PartialEq, Eq, Structural)]
pub struct TaskShape {
    pub threads: u32,
    pub pid: i32,
    pub tgid: i32,
}

/// The number that the first line of a field holds which holds one.
pub open spec fn status_field(lines: Seq<Seq<char>>, name: Seq<char>) -> Option<int>
    decreases lines.len(),
{
    if lines.len() == 0 {
        None
    } else if starts_with(lines[0], name) && signed(
        trimmed(lines[0].skip(name.len() as int)),
    ) is Some {
        signed(trimmed(lines[0].skip(name.len() as int)))
    } else {
        status_field(lines.skip(1), name)
    }
}

fn read_field(all: &Vec<Vec<char>>, name: &str) -> (r: Option<i64>)
    ensures
        match r {
            Some(n) => status_field(views(all@), name@) == Some(n as int),
            None => status_field(views(all@), name@) is None,
        },
{
    let ghost v = views(all@);
    let len = to_chars(name).len();
    assert(v.skip(0) =~= v);
    for i in 0..all.len()
        invariant
            v == views(all@),
            len == name@.len(),
            status_field(v, name@) == status_field(v.skip(i as int), name@),
    {
        proof {
            assert(v.skip(i as int).skip(1) =~= v.skip(i as int + 1));
            assert(v.skip(i as int)[0] == all@[i as int]@);
        }
        if has_prefix(&all[i], name) {
            let rest = slice(&all[i], len, all[i].len());
            proof {
                assert(rest@ =~= all@[i as int]@.skip(len as int));
            }
            let n = parse_signed(&trim(&rest));
            if n.is_some() {
                return n;
            }
        }
    }
    None
}

/// The shape that a status file tells of.
pub open spec fn shape_in(text: Seq<char>) -> Option<TaskShape> {
    let lines = lines_of(text);
    match (
        status_field(lines, "Threads:"@),
        status_field(lines, "Pid:"@),
        status_field(lines, "Tgid:"@),
    ) {
        (Some(threads), Some(pid), Some(tgid)) => if 0 <= threads <= u32::MAX && i32::MIN <= pid
            <= i32::MAX && i32::MIN <= tgid <= i32::MAX {
            Some(TaskShape { threads: threads as u32, pid: pid as i32, tgid: tgid as i32 })
        } else {
            None
        },
        _ => None,
    }
}

/// What the shape is refused for, if it is.
pub open spec fn misshapen(shape: TaskShape) -> Option<Seq<char>> {
    if shape.pid != shape.tgid {
        Some(
            "this is thread "@ + integer(shape.pid as int) + " of process "@ + integer(
                shape.tgid as int,
            ) + ", and /proc/self names the leader"@,
        )
    } else if shape.threads != 1 {
        Some(
            "this process has "@ + decimal(shape.threads as nat)
                + " threads, and fork copies only the calling one"@,
        )
    } else {
        None
    }
}

impl TaskShape {
    /// Pull `Threads`, `Pid` and `Tgid` out of a status file.
    ///
    /// The colon is part of a key, and a key begins its line: `Pid:` is neither
    /// `PPid:` nor `NSpid:`.
    pub fn parse(status: &str) -> (r: Option<TaskShape>)
        ensures
            r == shape_in(status@),
    {
        let all = lines(&to_chars(status));
        let threads = match read_field(&all, "Threads:") {
            Some(n) => n,
            None => return None,
        };
        let pid = match read_field(&all, "Pid:") {
            Some(n) => n,
            None => return None,
        };
        let tgid = match read_field(&all, "Tgid:") {
            Some(n) => n,
            None => return None,
        };
        if threads < 0 || threads > 4_294_967_295 || pid < -2_147_483_648 || pid > 2_147_483_647
            || tgid < -2_147_483_648 || tgid > 2_147_483_647 {
            return None;
        }
        Some(TaskShape { threads: threads as u32, pid: pid as i32, tgid: tgid as i32 })
    }

    /// Is this the shape PAM has to run in, and if not, why not?
    pub fn single_threaded_leader(self) -> (r: Result<(), String>)
        ensures
            match r {
                Ok(_) => misshapen(self) is None,
                Err(why) => misshapen(self) == Some(why@),
            },
    {
        if self.pid != self.tgid {
            let mut why = "this is thread ".to_owned();
            push_integer(&mut why, self.pid);
            push_str(&mut why, " of process ");
            push_integer(&mut why, self.tgid);
            push_str(&mut why, ", and /proc/self names the leader");
            return Err(why);
        }
        if self.threads != 1 {
            let mut why = "this process has ".to_owned();
            push_str(&mut why, &number(self.threads as u64));
            push_str(&mut why, " threads, and fork copies only the calling one");
            return Err(why);
        }
        Ok(())
    }
}

/// The calls that make an authentication, in the order they are made.
#[derive(Debug, Clone, Copy, PartialEq, Eq, Structural)]
pub enum PamCall {
    Authenticate,
    AcctMgmt,
    /// Change an expired password, which is the only way such an account gets in.
    Chauthtok,
}

/// What a call came to.
#[derive(Debug)]
pub enum PamResult {
    Done,
    /// The password is expired, in PAM's words.
    NewTokenRequired(String),
    /// Any other failure, in PAM's words.
    Failed(String),
}

/// What comes after a call.
#[derive(Debug)]
pub enum PamNext {
    Call(PamCall),
    Accepted,
    /// The attempt is refused, with what the greeter is told.
    Refused(String),
}

/// What a [`PamResult`] says, with strings as character sequences.
pub enum PamResultView {
    Done,
    NewTokenRequired(Seq<char>),
    Failed(Seq<char>),
}

impl View for PamResult {
    type V = PamResultView;

    open spec fn view(&self) -> PamResultView {
        match *self {
            PamResult::Done => PamResultView::Done,
            PamResult::NewTokenRequired(text) => PamResultView::NewTokenRequired(text@),
            PamResult::Failed(text) => PamResultView::Failed(text@),
        }
    }
}

/// What a [`PamNext`] says, with strings as character sequences.
#[verifier::ext_equal]
pub enum PamNextView {
    Call(PamCall),
    Accepted,
    Refused(Seq<char>),
}

impl View for PamNext {
    type V = PamNextView;

    open spec fn view(&self) -> PamNextView {
        match *self {
            PamNext::Call(call) => PamNextView::Call(call),
            PamNext::Accepted => PamNextView::Accepted,
            PamNext::Refused(text) => PamNextView::Refused(text@),
        }
    }
}

/// What comes after a call: the account is checked once the credential is, and an
/// expired password is changed through the same conversation.
pub open spec fn after_call(call: PamCall, result: PamResultView) -> PamNextView {
    match (call, result) {
        (PamCall::Authenticate, PamResultView::Done) => PamNextView::Call(PamCall::AcctMgmt),
        (PamCall::Authenticate, PamResultView::NewTokenRequired(text)) => PamNextView::Refused(
            greeter_text(Phase::Authenticate, text),
        ),
        (PamCall::Authenticate, PamResultView::Failed(text)) => PamNextView::Refused(
            greeter_text(Phase::Authenticate, text),
        ),
        (PamCall::AcctMgmt, PamResultView::Done) => PamNextView::Accepted,
        (PamCall::AcctMgmt, PamResultView::NewTokenRequired(_)) => PamNextView::Call(
            PamCall::Chauthtok,
        ),
        (PamCall::AcctMgmt, PamResultView::Failed(text)) => PamNextView::Refused(
            greeter_text(Phase::AcctMgmt, text),
        ),
        (PamCall::Chauthtok, PamResultView::Done) => PamNextView::Accepted,
        (PamCall::Chauthtok, PamResultView::NewTokenRequired(text)) => PamNextView::Refused(
            greeter_text(Phase::Chauthtok, text),
        ),
        (PamCall::Chauthtok, PamResultView::Failed(text)) => PamNextView::Refused(
            greeter_text(Phase::Chauthtok, text),
        ),
    }
}

impl PamCall {
    /// What comes after this call.
    pub fn after(self, result: &PamResult, username: &str) -> (r: PamNext)
        ensures
            r@ == after_call(self, result@),
    {
        match (self, result) {
            (PamCall::Authenticate, PamResult::Done) => PamNext::Call(PamCall::AcctMgmt),
            (PamCall::Authenticate, PamResult::NewTokenRequired(text)) => PamNext::Refused(
                to_greeter(Phase::Authenticate, username, text),
            ),
            (PamCall::Authenticate, PamResult::Failed(text)) => PamNext::Refused(
                to_greeter(Phase::Authenticate, username, text),
            ),
            (PamCall::AcctMgmt, PamResult::Done) => PamNext::Accepted,
            (PamCall::AcctMgmt, PamResult::NewTokenRequired(_)) => PamNext::Call(
                PamCall::Chauthtok,
            ),
            (PamCall::AcctMgmt, PamResult::Failed(text)) => PamNext::Refused(
                to_greeter(Phase::AcctMgmt, username, text),
            ),
            (PamCall::Chauthtok, PamResult::Done) => PamNext::Accepted,
            (PamCall::Chauthtok, PamResult::NewTokenRequired(text)) => PamNext::Refused(
                to_greeter(Phase::Chauthtok, username, text),
            ),
            (PamCall::Chauthtok, PamResult::Failed(text)) => PamNext::Refused(
                to_greeter(Phase::Chauthtok, username, text),
            ),
        }
    }
}

/// The login screen is no oracle: whatever made authentication fail, the words are
/// the same.
pub proof fn law_refused_credentials_read_the_same(one: PamResultView, other: PamResultView)
    requires
        !(one is Done),
        !(other is Done),
    ensures
        after_call(PamCall::Authenticate, one) == after_call(PamCall::Authenticate, other),
{
}

/// Nobody is accepted whose credential was refused: the account is checked only
/// after authentication has succeeded, and nothing else leads to acceptance.
pub proof fn law_acceptance_takes_a_credential(call: PamCall, result: PamResultView)
    ensures
        after_call(call, result) is Accepted ==> call != PamCall::Authenticate && result is Done,
        after_call(PamCall::Authenticate, result) is Call ==> result is Done,
{
}

/// What a read of the socket came to.
#[derive(Debug, Clone, Copy, PartialEq, Eq, Structural)]
pub enum ReadResult {
    /// So many bytes were read.
    Bytes(usize),
    /// Nothing came in the time there was.
    NothingYet,
    /// A signal came first, which says nothing about the peer or the time.
    Interrupted,
    Error,
}

/// What came off the socket.
#[derive(Debug)]
pub enum Recv {
    Message(Msg),
    /// The deadline passed with nothing readable.
    Timeout,
    /// A signal ended the read. The caller owns the deadline and reads again for as
    /// long as any time is left.
    Interrupted,
    /// The end, an error, or a datagram that did not decode: there is no useful
    /// conversation left.
    Closed,
}

/// What a [`Recv`] says, with strings as character sequences.
#[verifier::ext_equal]
pub enum RecvView {
    Message(MsgView),
    Timeout,
    Interrupted,
    Closed,
}

impl View for Recv {
    type V = RecvView;

    open spec fn view(&self) -> RecvView {
        match self {
            Recv::Message(m) => RecvView::Message(m@),
            Recv::Timeout => RecvView::Timeout,
            Recv::Interrupted => RecvView::Interrupted,
            Recv::Closed => RecvView::Closed,
        }
    }
}

/// What a read means.
pub open spec fn received(read: ReadResult, buffer: Seq<u8>) -> RecvView {
    match read {
        ReadResult::Bytes(n) => if n == 0 || n > buffer.len() {
            RecvView::Closed
        } else {
            match crate::pamwire::decoded(buffer.take(n as int)) {
                Some(m) => RecvView::Message(m),
                None => RecvView::Closed,
            }
        },
        ReadResult::NothingYet => RecvView::Timeout,
        ReadResult::Interrupted => RecvView::Interrupted,
        ReadResult::Error => RecvView::Closed,
    }
}

impl Recv {
    /// What a read into `buffer` means.
    ///
    /// A read of nothing is the peer closing, since no message is empty. The
    /// buffer may have held a password and is scrubbed.
    pub fn from_read(read: ReadResult, buffer: &mut Vec<u8>) -> (r: Recv)
        ensures
            r@ == received(read, old(buffer)@),
            match (read, r@) {
                (ReadResult::Bytes(n), RecvView::Message(m)) => damage_shows(
                    old(buffer)@.take(n as int),
                    m,
                ),
                _ => true,
            },
            final(buffer)@ == Seq::<u8>::empty(),
    {
        let r = match read {
            ReadResult::Bytes(n) => if n == 0 || n > buffer.len() {
                Recv::Closed
            } else {
                match Msg::decode(vstd::slice::slice_subrange(buffer.as_slice(), 0, n)) {
                    Some(m) => Recv::Message(m),
                    None => Recv::Closed,
                }
            },
            ReadResult::NothingYet => Recv::Timeout,
            ReadResult::Interrupted => Recv::Interrupted,
            ReadResult::Error => Recv::Closed,
        };
        assert(match read {
            ReadResult::Bytes(n) => n <= buffer@.len() ==> buffer@.subrange(0, n as int)
                =~= buffer@.take(n as int),
            _ => true,
        });
        crate::pamwire::scrub_bytes(buffer);
        r
    }
}

/// Whether to read the socket at all, given the time that is left: a deadline that
/// has passed is not an unlimited wait.
pub fn may_read(timeout: Option<u64>) -> (r: bool)
    ensures
        r == (timeout != Some(0u64)),
{
    match timeout {
        Some(t) => t != 0,
        None => true,
    }
}

/// What the timed-out prompt is explained with.
///
/// An error prompt is what tells a greeter that the failure was explained; without
/// one it would try again by itself until the account is locked.
pub const TIMED_OUT: &'static str = "The login attempt timed out waiting for a response.";

/// The helper's half of the conversation with the user.
#[derive(Debug)]
pub struct Conversation {
    /// The id of the next prompt.
    pub next_id: u32,
    /// How long a prompt may stay unanswered, in nanoseconds.
    pub timeout: u64,
    pub username: String,
    /// Whether the credential has been proven. Until then what modules say reaches
    /// the greeter as one fixed sentence; questions are always asked, because one
    /// that is not shown cannot be answered.
    pub authenticated: bool,
}

/// A question that waits for its answer.
#[derive(Debug, Clone, Copy, PartialEq, Eq, Structural)]
pub struct Question {
    pub id: u32,
    /// When the wait is over. Fixed when the question is asked.
    pub deadline: u64,
}

/// How a question goes on.
#[derive(Debug)]
pub enum Asked {
    /// Keep waiting.
    Wait,
    /// PAM gets this.
    Answer(String),
    /// The conversation fails, after this message if there is one.
    Fail(Option<Msg>),
}

/// What an [`Asked`] says, with strings as character sequences.
#[verifier::ext_equal]
pub enum AskedView {
    Wait,
    Answer(Seq<char>),
    Fail(Option<MsgView>),
}

impl View for Asked {
    type V = AskedView;

    open spec fn view(&self) -> AskedView {
        match self {
            Asked::Wait => AskedView::Wait,
            Asked::Answer(text) => AskedView::Answer(text@),
            Asked::Fail(Some(m)) => AskedView::Fail(Some(m@)),
            Asked::Fail(None) => AskedView::Fail(None),
        }
    }
}

/// The id after one.
pub open spec fn next_prompt_id(id: u32) -> u32 {
    if id == u32::MAX {
        0
    } else {
        (id + 1) as u32
    }
}

/// How a question goes on, given what came off the socket.
///
/// Only the answer to this very question counts; a stale one is dropped, as is
/// everything else, and a signal is no end. A password with a NUL in it cannot be
/// verified.
pub open spec fn on_reply(q: Question, next_id: u32, recv: RecvView) -> AskedView {
    match recv {
        RecvView::Message(MsgView::Response { id, secret }) => if id != q.id {
            AskedView::Wait
        } else if secret.contains('\0') {
            AskedView::Fail(None)
        } else {
            AskedView::Answer(secret)
        },
        RecvView::Message(_) => AskedView::Wait,
        RecvView::Interrupted => AskedView::Wait,
        RecvView::Timeout => AskedView::Fail(
            Some(MsgView::Prompt { id: next_id, text: TIMED_OUT@, style: PromptStyle::Error }),
        ),
        RecvView::Closed => AskedView::Fail(None),
    }
}

impl Conversation {
    /// The conversation of an attempt.
    pub fn new(start: &Start, timeout: u64) -> (r: Conversation)
        ensures
            r.next_id == start.id_base,
            r.timeout == timeout,
            r.username@ == start.username@,
            !r.authenticated,
    {
        Conversation {
            next_id: start.id_base,
            timeout,
            username: start.username.clone(),
            authenticated: false,
        }
    }

    /// Use up an id.
    fn take_id(&mut self) -> (id: u32)
        ensures
            id == old(self).next_id,
            *final(self) == (Conversation {
                next_id: next_prompt_id(old(self).next_id),
                ..*old(self)
            }),
    {
        let id: u32 = self.next_id;
        self.next_id = self.next_id.wrapping_add(1);
        id
    }

    /// Ask a question. What PAM asks need not be UTF-8.
    pub fn ask(&mut self, prompt: &[u8], style: PromptStyle, now: u64) -> (r: (Msg, Question))
        requires
            now + old(self).timeout <= u64::MAX,
        ensures
            r.0@ == (MsgView::Prompt { id: old(self).next_id, text: lossy(prompt@), style }),
            marked(prompt@, lossy(prompt@)),
            r.1 == (Question {
                id: old(self).next_id,
                deadline: (now + old(self).timeout) as u64,
            }),
            *final(self) == (Conversation {
                next_id: next_prompt_id(old(self).next_id),
                ..*old(self)
            }),
    {
        let deadline: u64 = now + self.timeout;
        let id = self.take_id();
        (Msg::Prompt { id, text: text_of(prompt), style }, Question { id, deadline })
    }

    /// How a question goes on, given what came off the socket.
    pub fn reply(&mut self, question: Question, recv: &Recv) -> (r: Asked)
        ensures
            r@ == on_reply(question, old(self).next_id, recv@),
            *final(self) == (Conversation {
                next_id: if recv@ is Timeout {
                    next_prompt_id(old(self).next_id)
                } else {
                    old(self).next_id
                },
                ..*old(self)
            }),
    {
        match recv {
            Recv::Message(msg) => match msg {
                Msg::Response { id, secret } => {
                    if *id != question.id {
                        return Asked::Wait;
                    }
                    let chars = to_chars(secret);
                    let nul = position(&chars, '\0');
                    proof {
                        lemma_find(chars@, '\0');
                        if chars@.contains('\0') {
                            let i = choose|i: int| 0 <= i < chars@.len() && chars@[i] == '\0';
                            assert(find(chars@, '\0') <= i);
                        }
                    }
                    if nul < chars.len() {
                        assert(chars@[nul as int] == '\0');
                        return Asked::Fail(None);
                    }
                    Asked::Answer(secret.clone())
                },
                _ => Asked::Wait,
            },
            Recv::Timeout => {
                let id = self.take_id();
                Asked::Fail(
                    Some(
                        Msg::Prompt { id, text: TIMED_OUT.to_owned(), style: PromptStyle::Error },
                    ),
                )
            },
            Recv::Interrupted => Asked::Wait,
            Recv::Closed => Asked::Fail(None),
        }
    }

    /// A call has come back. Once the credential is accepted, modules speak to
    /// someone who has proven who they are.
    pub fn note(&mut self, call: PamCall, result: &PamResult)
        ensures
            *final(self) == (Conversation {
                authenticated: old(self).authenticated || proves(call, result@),
                ..*old(self)
            }),
    {
        if let (PamCall::Authenticate, PamResult::Done) = (call, result) {
            self.authenticated = true;
        }
    }

    /// Tell the user something that is not answered.
    ///
    /// The style is kept even where the words are not: an error is what stops a
    /// greeter from trying again by itself.
    pub fn tell(&mut self, text: &[u8], style: PromptStyle) -> (r: Msg)
        ensures
            r@ == (MsgView::Prompt {
                id: old(self).next_id,
                text: told(old(self).authenticated, text@),
                style,
            }),
            marked(text@, lossy(text@)),
            *final(self) == (Conversation {
                next_id: next_prompt_id(old(self).next_id),
                ..*old(self)
            }),
    {
        let words = text_of(text);
        let shown = if self.authenticated {
            words
        } else {
            notice_to_greeter(&self.username, &words)
        };
        let id = self.take_id();
        Msg::Prompt { id, text: shown, style }
    }
}

/// A call that proves the credential when it comes back like this.
pub open spec fn proves(call: PamCall, result: PamResultView) -> bool {
    call == PamCall::Authenticate && result is Done
}

/// Whether the credential has been proven once these calls have come back.
pub open spec fn proven(calls: Seq<(PamCall, PamResultView)>) -> bool
    decreases calls.len(),
{
    calls.len() > 0 && (proven(calls.drop_last()) || proves(calls.last().0, calls.last().1))
}

/// What the user is shown of what a module says.
pub open spec fn told(authenticated: bool, text: Seq<u8>) -> Seq<char> {
    if authenticated {
        lossy(text)
    } else {
        "The login attempt could not be completed."@
    }
}

/// No module's own words are shown before the credential is accepted: whatever
/// calls have come back, as long as authentication is not among those that
/// succeeded, everything that modules say reads the same.
pub proof fn law_modules_are_not_quoted_before_the_credential(
    calls: Seq<(PamCall, PamResultView)>,
    text: Seq<u8>,
)
    requires
        forall|i: int| 0 <= i < calls.len() ==> !proves((#[trigger] calls[i]).0, calls[i].1),
    ensures
        !proven(calls),
        told(proven(calls), text) == "The login attempt could not be completed."@,
    decreases calls.len(),
{
    if calls.len() > 0 {
        let init = calls.drop_last();
        assert forall|i: int| 0 <= i < init.len() implies !proves(
            (#[trigger] init[i]).0,
            init[i].1,
        ) by {
            assert(init[i] == calls[i]);
        }
        law_modules_are_not_quoted_before_the_credential(init, text);
    }
}

/// From the acceptance of the credential on modules are quoted, and nothing takes
/// that back.
pub proof fn law_modules_are_quoted_after_the_credential(
    calls: Seq<(PamCall, PamResultView)>,
    i: int,
    text: Seq<u8>,
)
    requires
        0 <= i < calls.len(),
        proves(calls[i].0, calls[i].1),
    ensures
        proven(calls),
        told(proven(calls), text) == lossy(text),
    decreases calls.len(),
{
    if i < calls.len() - 1 {
        assert(calls.drop_last()[i] == calls[i]);
        law_modules_are_quoted_after_the_credential(calls.drop_last(), i, text);
    }
}

impl Question {
    /// The time that is left for the answer.
    pub open spec fn left(self, now: u64) -> u64 {
        if self.deadline > now {
            (self.deadline - now) as u64
        } else {
            0
        }
    }

    /// The time that is left for the answer.
    pub fn remaining(&self, now: u64) -> (r: u64)
        ensures
            r == self.left(now),
    {
        if self.deadline > now {
            self.deadline - now
        } else {
            0
        }
    }
}

/// A peer that sends anything but the answer gains no time: what does not answer
/// the question leaves it as it was, so that the wait still ends at its deadline.
pub proof fn law_stale_answers_gain_no_time(q: Question, asked_at: u64, timeout: u64, now: u64)
    requires
        q.deadline == asked_at + timeout,
        asked_at <= now,
    ensures
        q.left(now) <= timeout,
        now >= asked_at + timeout ==> q.left(now) == 0,
        q.left(now) > 0 ==> now + q.left(now) == asked_at + timeout,
{
}

/// The wait for an answer goes on through signals, stale answers and whatever else
/// comes: nothing ends it but an answer to this very question, the deadline and the
/// end of the socket. Only the deadline is explained to the user.
pub proof fn law_only_an_answer_or_the_deadline_ends_the_wait(
    q: Question,
    next_id: u32,
    read: ReadResult,
    buffer: Seq<u8>,
)
    ensures
        ({
            let recv = received(read, buffer);
            let answers = recv matches RecvView::Message(MsgView::Response { id, .. }) && id
                == q.id;
            let asked = on_reply(q, next_id, recv);
            &&& !(asked is Wait) <==> answers || recv is Timeout || recv is Closed
            &&& read is Interrupted ==> asked is Wait
            &&& recv is Timeout <==> read is NothingYet
            &&& (asked matches AskedView::Fail(Some(_))) <==> read is NothingYet
        }),
{
}

/// How a question ends, given everything that came off the socket in turn; it still
/// waits where nothing of that ended it.
pub open spec fn ends(q: Question, next_id: u32, recvs: Seq<RecvView>) -> AskedView
    decreases recvs.len(),
{
    if recvs.len() == 0 {
        AskedView::Wait
    } else {
        match on_reply(q, next_id, recvs[0]) {
            AskedView::Wait => ends(q, next_id, recvs.skip(1)),
            end => end,
        }
    }
}

/// An answer gets through, whatever signals and stale answers come before it: PAM is
/// given just what the user wrote.
pub proof fn law_the_answer_gets_through(
    q: Question,
    next_id: u32,
    before: Seq<RecvView>,
    secret: Seq<char>,
)
    requires
        forall|i: int|
            0 <= i < before.len() ==> match #[trigger] before[i] {
                RecvView::Interrupted => true,
                RecvView::Message(MsgView::Response { id, .. }) => id != q.id,
                RecvView::Message(_) => true,
                _ => false,
            },
        !secret.contains('\0'),
    ensures
        ends(
            q,
            next_id,
            before.push(RecvView::Message(MsgView::Response { id: q.id, secret })),
        ) == AskedView::Answer(secret),
    decreases before.len(),
{
    let last = RecvView::Message(MsgView::Response { id: q.id, secret });
    let all = before.push(last);
    if before.len() > 0 {
        assert(all[0] == before[0]);
        assert(all.skip(1) =~= before.skip(1).push(last));
        assert forall|i: int| 0 <= i < before.skip(1).len() implies #[trigger] before.skip(1)[i]
            == before[i + 1] by {}
        law_the_answer_gets_through(q, next_id, before.skip(1), secret);
    } else {
        assert(all[0] == last);
    }
}

/// PAM gets an answer only if the user gave it to this very question, and gets it
/// unchanged.
pub proof fn law_answers_are_the_users(q: Question, next_id: u32, recv: RecvView)
    ensures
        on_reply(q, next_id, recv) matches AskedView::Answer(text) ==> recv == RecvView::Message(
            MsgView::Response { id: q.id, secret: text },
        ) && !text.contains('\0'),
{
}

/// Where the helper is.
#[derive(Debug, Clone, Copy, PartialEq, Eq, Structural)]
pub enum Stage {
    /// PAM is deciding on the credential.
    Authenticating,
    /// Waiting to be told to launch.
    Waiting,
    /// The PAM session is being opened.
    Opening,
    /// The PAM session is open and the user's session is being forked.
    Spawning,
    /// The user's session runs.
    Running,
    /// The helper is done.
    Finished,
}

/// Something the helper learns.
#[derive(Debug)]
pub enum HelperEvent {
    Authenticated,
    /// Authentication failed, with what the greeter is told.
    Refused(String),
    Received(Recv),
    /// The PAM session is open, with the environment it produced.
    Opened(Vec<(String, String)>),
    /// The PAM session could not be opened, in the greeter's words.
    NotOpened(String),
    Spawned { pid: u32 },
    NotSpawned(String),
    /// The user's session ended.
    Ended { status: String, ran_for_ms: u64 },
}

/// What a [`HelperEvent`] says, with strings as character sequences.
#[verifier::ext_equal]
pub enum HelperEventView {
    Authenticated,
    Refused(Seq<char>),
    Received(RecvView),
    Opened(Seq<(Seq<char>, Seq<char>)>),
    NotOpened(Seq<char>),
    Spawned { pid: u32 },
    NotSpawned(Seq<char>),
    Ended { status: Seq<char>, ran_for_ms: u64 },
}

impl View for HelperEvent {
    type V = HelperEventView;

    open spec fn view(&self) -> HelperEventView {
        match self {
            HelperEvent::Authenticated => HelperEventView::Authenticated,
            HelperEvent::Refused(reason) => HelperEventView::Refused(reason@),
            HelperEvent::Received(recv) => HelperEventView::Received(recv@),
            HelperEvent::Opened(env) => HelperEventView::Opened(pairs(env@)),
            HelperEvent::NotOpened(reason) => HelperEventView::NotOpened(reason@),
            HelperEvent::Spawned { pid } => HelperEventView::Spawned { pid: *pid },
            HelperEvent::NotSpawned(reason) => HelperEventView::NotSpawned(reason@),
            HelperEvent::Ended { status, ran_for_ms } => HelperEventView::Ended {
                status: status@,
                ran_for_ms: *ran_for_ms,
            },
        }
    }
}

/// What the helper does next.
#[derive(Debug)]
pub enum HelperAction {
    /// Authenticate through PAM.
    Authenticate,
    /// Wait for a message.
    Receive,
    /// Open the PAM session, its environment describing what was chosen.
    Open(LaunchArgs),
    /// Fork the user's session with PAM's environment.
    Spawn(Vec<(String, String)>),
    /// Wait for the user's session to end.
    AwaitSession,
    /// Close the PAM session and stop.
    Close,
    /// Stop.
    Stop,
}

/// What a [`HelperAction`] says, with strings as character sequences.
#[verifier::ext_equal]
pub enum HelperActionView {
    Authenticate,
    Receive,
    Open(LaunchArgsView),
    Spawn(Seq<(Seq<char>, Seq<char>)>),
    AwaitSession,
    Close,
    Stop,
}

impl View for HelperAction {
    type V = HelperActionView;

    open spec fn view(&self) -> HelperActionView {
        match self {
            HelperAction::Authenticate => HelperActionView::Authenticate,
            HelperAction::Receive => HelperActionView::Receive,
            HelperAction::Open(args) => HelperActionView::Open(args@),
            HelperAction::Spawn(env) => HelperActionView::Spawn(pairs(env@)),
            HelperAction::AwaitSession => HelperActionView::AwaitSession,
            HelperAction::Close => HelperActionView::Close,
            HelperAction::Stop => HelperActionView::Stop,
        }
    }
}

/// One step of the helper: where it is then, what it sends and what it does next.
///
/// An event that does not belong to the stage ends the helper: closing the session
/// if one is open.
pub open spec fn serve(stage: Stage, event: HelperEventView) -> (
    Stage,
    Option<MsgView>,
    HelperActionView,
) {
    match (stage, event) {
        (Stage::Authenticating, HelperEventView::Authenticated) => (
            Stage::Waiting,
            Some(MsgView::Accepted),
            HelperActionView::Receive,
        ),
        (Stage::Authenticating, HelperEventView::Refused(reason)) => (
            Stage::Finished,
            Some(MsgView::Failed(reason)),
            HelperActionView::Stop,
        ),
        (Stage::Waiting, HelperEventView::Received(RecvView::Message(m))) => match launch_args(m) {
            Some(args) => (Stage::Opening, None, HelperActionView::Open(args)),
            None => (Stage::Waiting, None, HelperActionView::Receive),
        },
        (Stage::Waiting, HelperEventView::Received(RecvView::Interrupted)) => (
            Stage::Waiting,
            None,
            HelperActionView::Receive,
        ),
        (Stage::Opening, HelperEventView::Opened(env)) => (
            Stage::Spawning,
            None,
            HelperActionView::Spawn(env),
        ),
        (Stage::Opening, HelperEventView::NotOpened(reason)) => (
            Stage::Finished,
            Some(MsgView::SessionFailed(reason)),
            HelperActionView::Stop,
        ),
        (Stage::Spawning, HelperEventView::Spawned { pid }) => (
            Stage::Running,
            Some(MsgView::SessionStarted { pid }),
            HelperActionView::AwaitSession,
        ),
        (Stage::Spawning, HelperEventView::NotSpawned(reason)) => (
            Stage::Finished,
            Some(MsgView::SessionFailed(reason)),
            HelperActionView::Close,
        ),
        (Stage::Running, HelperEventView::Ended { status, ran_for_ms }) => (
            Stage::Finished,
            Some(MsgView::SessionEnded { status, ran_for_ms }),
            HelperActionView::Close,
        ),
        (Stage::Spawning, _) => (Stage::Finished, None, HelperActionView::Close),
        (Stage::Running, _) => (Stage::Finished, None, HelperActionView::Close),
        _ => (Stage::Finished, None, HelperActionView::Stop),
    }
}

/// The helper's progress.
#[derive(Debug)]
pub struct Helper {
    pub stage: Stage,
}

/// The view of a message that may not be there.
pub open spec fn maybe_msg(m: Option<Msg>) -> Option<MsgView> {
    match m {
        Some(m) => Some(m@),
        None => None,
    }
}

impl Helper {
    /// A helper that has been told whom to authenticate.
    pub fn new() -> (r: Helper)
        ensures
            r.stage == Stage::Authenticating,
    {
        Helper { stage: Stage::Authenticating }
    }

    /// The first thing the helper does.
    pub fn first(&self) -> (r: HelperAction)
        ensures
            r@ is Authenticate,
    {
        HelperAction::Authenticate
    }

    /// Take one step.
    ///
    /// Once the session runs nothing reads the socket: a display manager that
    /// vanishes is no reason to end the user's session.
    pub fn step(&mut self, event: HelperEvent) -> (r: (Option<Msg>, HelperAction))
        ensures
            (final(self).stage, maybe_msg(r.0), r.1@) == serve(old(self).stage, event@),
    {
        match (self.stage, event) {
            (Stage::Authenticating, HelperEvent::Authenticated) => {
                self.stage = Stage::Waiting;
                (Some(Msg::Accepted), HelperAction::Receive)
            },
            (Stage::Authenticating, HelperEvent::Refused(reason)) => {
                self.stage = Stage::Finished;
                (Some(Msg::Failed(reason)), HelperAction::Stop)
            },
            (Stage::Waiting, HelperEvent::Received(Recv::Message(msg))) => {
                match LaunchArgs::from_msg(&msg) {
                    Some(args) => {
                        self.stage = Stage::Opening;
                        (None, HelperAction::Open(args))
                    },
                    None => (None, HelperAction::Receive),
                }
            },
            (Stage::Waiting, HelperEvent::Received(Recv::Interrupted)) => {
                (None, HelperAction::Receive)
            },
            (Stage::Opening, HelperEvent::Opened(env)) => {
                self.stage = Stage::Spawning;
                (None, HelperAction::Spawn(env))
            },
            (Stage::Opening, HelperEvent::NotOpened(reason)) => {
                self.stage = Stage::Finished;
                (Some(Msg::SessionFailed(reason)), HelperAction::Stop)
            },
            (Stage::Spawning, HelperEvent::Spawned { pid }) => {
                self.stage = Stage::Running;
                (Some(Msg::SessionStarted { pid }), HelperAction::AwaitSession)
            },
            (Stage::Spawning, HelperEvent::NotSpawned(reason)) => {
                self.stage = Stage::Finished;
                (Some(Msg::SessionFailed(reason)), HelperAction::Close)
            },
            (Stage::Running, HelperEvent::Ended { status, ran_for_ms }) => {
                self.stage = Stage::Finished;
                (Some(Msg::SessionEnded { status, ran_for_ms }), HelperAction::Close)
            },
            (Stage::Spawning, _) => {
                self.stage = Stage::Finished;
                (None, HelperAction::Close)
            },
            (Stage::Running, _) => {
                self.stage = Stage::Finished;
                (None, HelperAction::Close)
            },
            _ => {
                self.stage = Stage::Finished;
                (None, HelperAction::Stop)
            },
        }
    }
}

/// Where the helper is after these events.
pub open spec fn stage_after(events: Seq<HelperEventView>) -> Stage
    decreases events.len(),
{
    if events.len() == 0 {
        Stage::Authenticating
    } else {
        serve(stage_after(events.drop_last()), events.last()).0
    }
}

/// Everything the helper sent over these events.
pub open spec fn sent(events: Seq<HelperEventView>) -> Seq<MsgView>
    decreases events.len(),
{
    if events.len() == 0 {
        seq![]
    } else {
        let before = sent(events.drop_last());
        match serve(stage_after(events.drop_last()), events.last()).1 {
            Some(m) => before.push(m),
            None => before,
        }
    }
}

/// Everything the helper did over these events.
pub open spec fn done(events: Seq<HelperEventView>) -> Seq<HelperActionView>
    decreases events.len(),
{
    if events.len() == 0 {
        seq![]
    } else {
        done(events.drop_last()).push(
            serve(stage_after(events.drop_last()), events.last()).2,
        )
    }
}

/// A launch message was received.
pub open spec fn told_to_launch(event: HelperEventView) -> bool {
    event matches HelperEventView::Received(RecvView::Message(m)) && launch_args(m) is Some
}

/// What must have happened for the helper to be at a stage.
pub open spec fn reached(events: Seq<HelperEventView>) -> bool {
    let stage = stage_after(events);
    let past_authentication = stage == Stage::Waiting || stage == Stage::Opening || stage
        == Stage::Spawning || stage == Stage::Running;
    let past_launch = stage == Stage::Opening || stage == Stage::Spawning || stage
        == Stage::Running;
    let open = stage == Stage::Spawning || stage == Stage::Running;
    &&& past_authentication ==> events.contains(HelperEventView::Authenticated)
    &&& past_launch ==> exists|i: int| 0 <= i < events.len() && told_to_launch(#[trigger] events[i])
    &&& open ==> exists|i: int| 0 <= i < events.len() && (#[trigger] events[i]) is Opened
}

proof fn lemma_reached(events: Seq<HelperEventView>)
    ensures
        reached(events),
    decreases events.len(),
{
    if events.len() > 0 {
        let init = events.drop_last();
        let n = events.len() - 1;
        lemma_reached(init);
        let stage = stage_after(init);
        if init.contains(HelperEventView::Authenticated) {
            let i = choose|i: int|
                0 <= i < init.len() && init[i] == HelperEventView::Authenticated;
            assert(events[i] == HelperEventView::Authenticated);
        }
        assert(events[n] == events.last());
        if exists|i: int| 0 <= i < init.len() && told_to_launch(#[trigger] init[i]) {
            let i = choose|i: int| 0 <= i < init.len() && told_to_launch(#[trigger] init[i]);
            assert(told_to_launch(events[i]));
        }
        if exists|i: int| 0 <= i < init.len() && (#[trigger] init[i]) is Opened {
            let i = choose|i: int| 0 <= i < init.len() && (#[trigger] init[i]) is Opened;
            assert(events[i] is Opened);
        }
    }
}

/// A PAM session is opened only for a user who authenticated, and only once the
/// helper has been told to launch.
pub proof fn law_sessions_open_only_when_told(events: Seq<HelperEventView>)
    requires
        events.len() > 0,
        done(events).last() is Open,
    ensures
        events.contains(HelperEventView::Authenticated),
        told_to_launch(events.last()),
{
    let init = events.drop_last();
    lemma_reached(init);
    let i = choose|i: int| 0 <= i < init.len() && init[i] == HelperEventView::Authenticated;
    assert(events[i] == HelperEventView::Authenticated);
}

/// Whoever's authentication failed gets no session: the refusal is the last the
/// helper says and does.
pub proof fn law_a_refusal_is_final(reason: Seq<char>, events: Seq<HelperEventView>)
    requires
        events.len() > 0,
        events[0] == HelperEventView::Refused(reason),
    ensures
        stage_after(events) == Stage::Finished,
        sent(events) == seq![MsgView::Failed(reason)],
        done(events).last() is Stop,
    decreases events.len(),
{
    let init = events.drop_last();
    if init.len() > 0 {
        assert(init[0] == events[0]);
        law_a_refusal_is_final(reason, init);
    } else {
        assert(events.last() == events[0]);
        assert(stage_after(init) == Stage::Authenticating);
        assert(sent(init) =~= seq![]);
        assert(sent(events) =~= seq![MsgView::Failed(reason)]);
    }
}

/// A PAM session that was opened is closed: when the helper finishes, its last act
/// is to close the session exactly if one was open.
pub proof fn law_open_sessions_are_closed(events: Seq<HelperEventView>)
    requires
        events.len() > 0,
        stage_after(events) == Stage::Finished,
        stage_after(events.drop_last()) != Stage::Finished,
    ensures
        done(events).last() is Close <==> stage_after(events.drop_last()) == Stage::Spawning
            || stage_after(events.drop_last()) == Stage::Running,
        done(events).last() is Close || done(events).last() is Stop,
{
}

/// How often a message of the session's life was sent.
pub open spec fn started(msgs: Seq<MsgView>) -> nat
    decreases msgs.len(),
{
    if msgs.len() == 0 {
        0
    } else {
        started(msgs.drop_last()) + if msgs.last() is SessionStarted {
            1nat
        } else {
            0nat
        }
    }
}

/// How often the end of the session was reported.
pub open spec fn ended(msgs: Seq<MsgView>) -> nat
    decreases msgs.len(),
{
    if msgs.len() == 0 {
        0
    } else {
        ended(msgs.drop_last()) + if msgs.last() is SessionEnded {
            1nat
        } else {
            0nat
        }
    }
}

/// The end of a session is reported only after its start, and each at most once.
pub proof fn law_an_end_follows_a_start(events: Seq<HelperEventView>)
    ensures
        ended(sent(events)) <= started(sent(events)) <= 1,
        stage_after(events) == Stage::Running ==> started(sent(events)) == 1 && ended(sent(events))
            == 0,
        stage_after(events) != Stage::Running && stage_after(events) != Stage::Finished ==> started(
            sent(events),
        ) == 0,
    decreases events.len(),
{
    if events.len() > 0 {
        let init = events.drop_last();
        law_an_end_follows_a_start(init);
        let before = sent(init);
        match serve(stage_after(init), events.last()).1 {
            Some(m) => {
                assert(before.push(m).drop_last() =~= before);
            },
            None => {},
        }
    }
}

/// What becomes of the helper's first read.
#[derive(Debug)]
pub enum First {
    /// The attempt starts.
    Begin(Start),
    /// A signal came first.
    ReadAgain,
    /// Something else came, or nothing will: there is no attempt.
    Refuse,
}

/// What becomes of the helper's first read: a start message and no other begins an
/// attempt, and a signal decides nothing.
pub fn first_message(recv: &Recv) -> (r: First)
    ensures
        match r {
            First::Begin(start) => recv@ == RecvView::Message(start.carrier()),
            First::ReadAgain => recv@ is Interrupted,
            First::Refuse => !(recv@ is Interrupted) && !(recv@ matches RecvView::Message(m)
                && m is Start),
        },
{
    match recv {
        Recv::Message(msg) => match Start::from_msg(msg) {
            Some(start) => First::Begin(start),
            None => First::Refuse,
        },
        Recv::Interrupted => First::ReadAgain,
        _ => First::Refuse,
    }
}

/// A login is accepted without another call once the credential and the account are
/// in order, and a password is changed if and only if the account check says that
/// it has to be.
pub proof fn law_a_password_is_changed_only_when_it_must_be(call: PamCall, result: PamResultView)
    ensures
        after_call(call, result) == PamNextView::Call(PamCall::Chauthtok) <==> call
            == PamCall::AcctMgmt && result is NewTokenRequired,
        after_call(call, result) == PamNextView::Call(PamCall::AcctMgmt) <==> call
            == PamCall::Authenticate && result is Done,
        after_call(call, result) is Accepted <==> call != PamCall::Authenticate && result is Done,
        after_call(call, result) != PamNextView::Call(PamCall::Authenticate),
{
}

/// Whoever is let in has the right password and an account in order, or one whose
/// expired password they have just changed; nobody else is, and nobody of them is
/// kept out.
pub proof fn law_who_is_let_in(
    credential: PamResultView,
    account: PamResultView,
    change: PamResultView,
)
    ensures
        ({
            let first = after_call(PamCall::Authenticate, credential);
            let second = after_call(PamCall::AcctMgmt, account);
            let third = after_call(PamCall::Chauthtok, change);
            let in_at_once = first == PamNextView::Call(PamCall::AcctMgmt) && second is Accepted;
            let in_after_change = first == PamNextView::Call(PamCall::AcctMgmt) && second
                == PamNextView::Call(PamCall::Chauthtok) && third is Accepted;
            &&& in_at_once <==> credential is Done && account is Done
            &&& in_after_change <==> credential is Done && account is NewTokenRequired && change
                is Done
        }),
{
}

/// Whoever is kept out is told why: with one fixed sentence where the credential
/// was refused, and in PAM's own words where anything later was.
pub proof fn law_refusals_are_explained(call: PamCall, result: PamResultView, cause: Seq<char>)
    requires
        result == PamResultView::Failed(cause) || result == PamResultView::NewTokenRequired(cause),
        !(call == PamCall::AcctMgmt && result is NewTokenRequired),
    ensures
        call == PamCall::Authenticate ==> after_call(call, result) == PamNextView::Refused(
            "Authentication failure"@,
        ),
        call != PamCall::Authenticate ==> after_call(call, result) == PamNextView::Refused(cause),
{
}

/// A line that names a field and holds a number gives the field its value, if no
/// line before it names the field; a field that no line names has none.
pub proof fn law_the_first_line_of_a_field_counts(lines: Seq<Seq<char>>, name: Seq<char>, k: int)
    requires
        0 <= k <= lines.len(),
        forall|i: int|
            0 <= i < k ==> !(name.len() <= (#[trigger] lines[i]).len() && lines[i].take(
                name.len() as int,
            ) == name),
    ensures
        k == lines.len() ==> status_field(lines, name) is None,
        k < lines.len() ==> forall|value: Seq<char>|
            lines[k] == name + value && signed(#[trigger] trimmed(value)) is Some ==> status_field(
                lines,
                name,
            ) == signed(trimmed(value)),
    decreases lines.len(),
{
    if lines.len() > 0 {
        let rest = lines.skip(1);
        if k > 0 {
            assert(!(name.len() <= lines[0].len() && lines[0].take(name.len() as int) == name));
            assert forall|i: int| 0 <= i < k - 1 implies !(name.len() <= (#[trigger] rest[i]).len()
                && rest[i].take(name.len() as int) == name) by {
                assert(rest[i] == lines[i + 1]);
            }
            law_the_first_line_of_a_field_counts(rest, name, k - 1);
            if k < lines.len() {
                assert(rest[k - 1] == lines[k]);
            }
        } else {
            assert forall|value: Seq<char>|
                lines[k] == name + value && signed(#[trigger] trimmed(value))
                    is Some implies status_field(lines, name) == signed(trimmed(value)) by {
                assert(lines[0].take(name.len() as int) =~= name);
                assert(lines[0].skip(name.len() as int) =~= value);
            }
        }
    }
}

/// PAM may run in the one thread of a process and in no other task.
pub proof fn law_pam_runs_in_a_single_thread(shape: TaskShape)
    ensures
        misshapen(shape) is None <==> shape.pid == shape.tgid && shape.threads == 1,
{
}

/// What the peer sent is what is received, whatever lies behind it in the buffer.
pub proof fn law_what_was_sent_is_received(m: MsgView, buffer: Seq<u8>, n: usize)
    requires
        crate::pamwire::fits(m),
        n == crate::pamwire::encoded(m).len(),
        n <= buffer.len(),
        buffer.take(n as int) == crate::pamwire::encoded(m),
    ensures
        received(ReadResult::Bytes(n), buffer) == RecvView::Message(m),
{
    crate::pamwire::law_round_trip(m);
}

/// A read that brings no message ends the conversation, except where only time
/// passed or a signal came.
pub proof fn law_what_is_no_message_closes(read: ReadResult, buffer: Seq<u8>)
    ensures
        received(read, buffer) is Timeout <==> read == ReadResult::NothingYet,
        received(read, buffer) is Interrupted <==> read == ReadResult::Interrupted,
        received(read, buffer) matches RecvView::Message(m) ==> {
            &&& read matches ReadResult::Bytes(n)
            &&& 0 < n <= buffer.len()
            &&& crate::pamwire::decoded(buffer.take(n as int)) == Some(m)
        },
        read matches ReadResult::Bytes(n) ==> 0 < n <= buffer.len() && crate::pamwire::decoded(
            buffer.take(n as int),
        ) is Some ==> received(read, buffer) is Message,
{
}

/// The ids of a conversation follow one another, so that none comes twice before
/// all have come.
pub proof fn law_prompt_ids_follow_one_another(id: u32)
    ensures
        id < u32::MAX ==> next_prompt_id(id) == id + 1,
        id == u32::MAX ==> next_prompt_id(id) == 0,
{
}

/// What the helper waits through before it is told to launch: signals, and messages
/// that are not the one it waits for.
pub open spec fn is_idle_event(event: HelperEventView) -> bool {
    event matches HelperEventView::Received(recv) && (recv is Interrupted || (
    recv matches RecvView::Message(m) && !(m is Launch)))
}

proof fn lemma_idle_events_change_nothing(events: Seq<HelperEventView>)
    requires
        events.len() > 0,
        events[0] == HelperEventView::Authenticated,
        forall|i: int| 1 <= i < events.len() ==> is_idle_event(#[trigger] events[i]),
    ensures
        stage_after(events) == Stage::Waiting,
        sent(events) == seq![MsgView::Accepted],
        done(events).last() is Receive,
    decreases events.len(),
{
    let init = events.drop_last();
    if events.len() == 1 {
        assert(stage_after(init) == Stage::Authenticating);
        assert(sent(init) =~= seq![]);
        assert(sent(events) =~= seq![MsgView::Accepted]);
    } else {
        assert forall|i: int| 1 <= i < init.len() implies is_idle_event(#[trigger] init[i]) by {
            assert(init[i] == events[i]);
        }
        assert(init[0] == events[0]);
        lemma_idle_events_change_nothing(init);
        assert(is_idle_event(events[events.len() - 1]));
    }
}

/// A login from the acceptance to the end of the session: after any wait the helper
/// opens what it was told to launch, forks with PAM's environment, and reports the
/// acceptance, the start and the end as they were, in this order and nothing else.
pub proof fn law_a_session_is_run_and_reported(
    wait: Seq<HelperEventView>,
    launch: MsgView,
    env: Seq<(Seq<char>, Seq<char>)>,
    pid: u32,
    status: Seq<char>,
    ran_for_ms: u64,
)
    requires
        forall|i: int| 0 <= i < wait.len() ==> is_idle_event(#[trigger] wait[i]),
        launch is Launch,
    ensures
        ({
            let told = (seq![HelperEventView::Authenticated] + wait).push(
                HelperEventView::Received(RecvView::Message(launch)),
            );
            let opened = told.push(HelperEventView::Opened(env));
            let running = opened.push(HelperEventView::Spawned { pid });
            let over = running.push(HelperEventView::Ended { status, ran_for_ms });
            &&& done(told).last() matches HelperActionView::Open(args)
            &&& launch_args(launch) == Some(args)
            &&& done(opened).last() == HelperActionView::Spawn(env)
            &&& done(running).last() is AwaitSession
            &&& done(over).last() is Close
            &&& sent(over) == seq![
                MsgView::Accepted,
                MsgView::SessionStarted { pid },
                MsgView::SessionEnded { status, ran_for_ms },
            ]
        }),
{
    let waiting = seq![HelperEventView::Authenticated] + wait;
    let told = waiting.push(HelperEventView::Received(RecvView::Message(launch)));
    let opened = told.push(HelperEventView::Opened(env));
    let running = opened.push(HelperEventView::Spawned { pid });
    let over = running.push(HelperEventView::Ended { status, ran_for_ms });
    assert forall|i: int| 1 <= i < waiting.len() implies is_idle_event(#[trigger] waiting[i]) by {
        assert(waiting[i] == wait[i - 1]);
    }
    lemma_idle_events_change_nothing(waiting);
    assert(told.drop_last() =~= waiting);
    assert(opened.drop_last() =~= told);
    assert(running.drop_last() =~= opened);
    assert(over.drop_last() =~= running);
    assert(sent(told) == sent(waiting));
    assert(sent(opened) == sent(told));
    assert(sent(running) == sent(opened).push(MsgView::SessionStarted { pid }));
    assert(sent(over) == sent(running).push(MsgView::SessionEnded { status, ran_for_ms }));
    assert(sent(over) =~= seq![
        MsgView::Accepted,
        MsgView::SessionStarted { pid },
        MsgView::SessionEnded { status, ran_for_ms },
    ]);
}

/// A session that cannot be opened or forked is reported with the reason, and the
/// PAM session is closed if it was open.
pub proof fn law_a_session_that_fails_is_reported(
    wait: Seq<HelperEventView>,
    launch: MsgView,
    env: Seq<(Seq<char>, Seq<char>)>,
    reason: Seq<char>,
)
    requires
        forall|i: int| 0 <= i < wait.len() ==> is_idle_event(#[trigger] wait[i]),
        launch is Launch,
    ensures
        ({
            let told = (seq![HelperEventView::Authenticated] + wait).push(
                HelperEventView::Received(RecvView::Message(launch)),
            );
            let not_opened = told.push(HelperEventView::NotOpened(reason));
            let not_spawned = told.push(HelperEventView::Opened(env)).push(
                HelperEventView::NotSpawned(reason),
            );
            let report = seq![MsgView::Accepted, MsgView::SessionFailed(reason)];
            &&& sent(not_opened) == report
            &&& done(not_opened).last() is Stop
            &&& sent(not_spawned) == report
            &&& done(not_spawned).last() is Close
        }),
{
    let waiting = seq![HelperEventView::Authenticated] + wait;
    let told = waiting.push(HelperEventView::Received(RecvView::Message(launch)));
    let opened = told.push(HelperEventView::Opened(env));
    let not_opened = told.push(HelperEventView::NotOpened(reason));
    let not_spawned = opened.push(HelperEventView::NotSpawned(reason));
    assert forall|i: int| 1 <= i < waiting.len() implies is_idle_event(#[trigger] waiting[i]) by {
        assert(waiting[i] == wait[i - 1]);
    }
    lemma_idle_events_change_nothing(waiting);
    assert(told.drop_last() =~= waiting);
    assert(opened.drop_last() =~= told);
    assert(not_opened.drop_last() =~= told);
    assert(not_spawned.drop_last() =~= opened);
    assert(sent(told) == sent(waiting));
    assert(sent(opened) == sent(told));
    assert(sent(not_opened) == sent(told).push(MsgView::SessionFailed(reason)));
    assert(sent(not_spawned) == sent(opened).push(MsgView::SessionFailed(reason)));
    let report = seq![MsgView::Accepted, MsgView::SessionFailed(reason)];
    assert(sent(not_opened) =~= report);
    assert(sent(not_spawned) =~= report);
}

/// Only a launch message launches, and what it launches is what it names; a type
/// that is not `x11` is a Wayland session.
pub proof fn law_only_a_launch_message_launches(m: MsgView)
    ensures
        launch_args(m) is Some <==> m is Launch,
        m matches MsgView::Launch {
            session_type,
            desktop,
            session_id,
            session_name,
            session_exec,
            extra_env,
            vt,
        } ==> {
            &&& launch_args(m) matches Some(args)
            &&& args.session.id == session_id
            &&& args.session.name == session_name
            &&& args.session.command == session_exec
            &&& args.session_type == session_type
            &&& args.desktop == desktop
            &&& args.extra_env == extra_env
            &&& args.vt == vt
            &&& args.session.session_type == SessionType::X11 <==> session_type == "x11"@
        },
{
}

/// What starts an attempt is what the message says, field by field.
pub proof fn law_what_a_start_carries(start: Start)
    ensures
        start.carrier() matches MsgView::Start {
            username,
            tty,
            seat,
            vtnr,
            session_type,
            desktop,
            id_base,
        } && username == start.username@ && tty == start.tty@ && seat == start.session.seat@
            && vtnr == start.session.vtnr && session_type == start.session.session_type@ && desktop
            == start.session.desktop@ && id_base == start.id_base,
{
}

/// The shape of the process is what the three fields of its status say, and unknown
/// where one is missing or out of range.
pub proof fn law_the_shape_is_read_from_the_status(text: Seq<char>)
    ensures
        ({
            let lines = lines_of(text);
            let threads = status_field(lines, "Threads:"@);
            let pid = status_field(lines, "Pid:"@);
            let tgid = status_field(lines, "Tgid:"@);
            &&& shape_in(text) matches Some(shape) ==> threads == Some(shape.threads as int) && pid
                == Some(shape.pid as int) && tgid == Some(shape.tgid as int)
            &&& (threads matches Some(n) && 0 <= n <= u32::MAX) && (
            pid matches Some(n) && i32::MIN <= n <= i32::MAX) && (
            tgid matches Some(n) && i32::MIN <= n <= i32::MAX) ==> shape_in(text) is Some
        }),
{
}

/// A process that may not fork is told why, with the numbers that are in the way; a
/// wrong thread is told before too many of them.
pub proof fn law_why_a_shape_is_refused(shape: TaskShape)
    ensures
        shape.pid != shape.tgid ==> misshapen(shape) == Some(
            "this is thread "@ + integer(shape.pid as int) + " of process "@ + integer(
                shape.tgid as int,
            ) + ", and /proc/self names the leader"@,
        ),
        shape.pid == shape.tgid && shape.threads != 1 ==> misshapen(shape) == Some(
            "this process has "@ + decimal(shape.threads as nat)
                + " threads, and fork copies only the calling one"@,
        ),
{
}

/// A module is quoted once a credential has been proven, and before that one sentence
/// stands for whatever it says.
pub proof fn law_what_a_module_says(text: Seq<u8>)
    ensures
        told(true, text) == lossy(text),
        told(false, text) == "The login attempt could not be completed."@,
{
}

/// What is left of a wait reaches to its deadline and no further.
pub proof fn law_what_is_left_of_a_wait(q: Question, now: u64)
    ensures
        now < q.deadline ==> now + q.left(now) == q.deadline,
        now >= q.deadline ==> q.left(now) == 0,
{
}

/// Which replies end a question, and how: the answer to it, unless it could not be
/// verified, the end of its time, which the user is told, and the end of the socket.
pub proof fn law_how_a_question_ends(q: Question, next_id: u32, id: u32, secret: Seq<char>)
    ensures
        ({
            let reply = on_reply(
                q,
                next_id,
                RecvView::Message(MsgView::Response { id, secret }),
            );
            &&& id == q.id && !secret.contains('\0') ==> reply == AskedView::Answer(secret)
            &&& id == q.id && secret.contains('\0') ==> reply == AskedView::Fail(None)
            &&& id != q.id ==> reply == AskedView::Wait
        }),
        on_reply(q, next_id, RecvView::Interrupted) == AskedView::Wait,
        on_reply(q, next_id, RecvView::Closed) == AskedView::Fail(None),
        on_reply(q, next_id, RecvView::Timeout) == AskedView::Fail(
            Some(
                MsgView::Prompt {
                    id: next_id,
                    text: "The login attempt timed out waiting for a response."@,
                    style: PromptStyle::Error,
                },
            ),
        ),
{
}

/// A credential is proven by an authentication that succeeded, and by no other call.
pub proof fn law_what_proves_a_credential(call: PamCall, result: PamResultView)
    ensures
        proves(call, result) ==> call == PamCall::Authenticate,
        proves(call, result) ==> result is Done,
        call == PamCall::Authenticate && result is Done ==> proves(call, result),
{
}

} // verus!
