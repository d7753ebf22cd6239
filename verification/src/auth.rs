//! wdm's end of the conversation with the PAM helper.
//!
//! PAM does not run in wdm's own process. A freshly started helper does, and what
//! is left here is what wdm tells it, what wdm makes of what it says, and which of
//! PAM's words an untrusted greeter may see.
use vstd::prelude::*;

use crate::pamwire::{damage_shows, decoded, Msg, MsgView};
use crate::sessions::{desktop_name, xdg_type, Session};
use crate::text::{decimal, number, pairs, push_str, strings};

verus! {

/// PAM service name; wdm ships `/etc/pam.d/wdm`.
pub const SERVICE: &'static str = "wdm";

/// How many prompt ids one attempt is given.
///
/// A block rather than one id at a time, because the ids are allocated in a
/// process that cannot reach wdm's counter. A PAM conversation asks a handful of
/// questions, so this is not a limit anything real approaches.
pub const PROMPT_ID_BLOCK: u32 = 4096;

/// How long a prompt may go unanswered before the attempt is abandoned, in
/// nanoseconds: half an hour.
///
/// A leak guard, not a patience limit: ending a conversation fails it, and PAM
/// records a failed login. Only a greeter that is genuinely stuck may get here.
pub const RESPONSE_TIMEOUT: u64 = 1_800_000_000_000;

/// How a prompt should be presented, mirroring PAM's message styles.
#[derive(Debug, Clone, Copy, PartialEq, Eq, Structural)]
pub enum PromptStyle {
    /// Expects a response that must not be echoed.
    Secret,
    /// Expects a response that may be echoed.
    Visible,
    /// Informational; no response expected.
    Info,
    /// Error text; no response expected.
    Error,
}

impl PromptStyle {
    /// The styles that ask for an answer.
    pub open spec fn asks(self) -> bool {
        self is Secret || self is Visible
    }

    /// Whether the greeter is expected to answer.
    pub fn expects_response(self) -> (r: bool)
        ensures
            r == self.asks(),
    {
        matches!(self, PromptStyle::Secret | PromptStyle::Visible)
    }
}

/// Source of prompt ids, shared by every attempt of the process.
///
/// An id must identify the question it was issued for, so it may not be reused: a
/// late answer from a cancelled conversation must not match a prompt of the next
/// one, or one user's secret is fed to another user's PAM stack. The ids are
/// minted in the helper, which does not outlive an attempt, so the counter lives
/// here: each attempt is handed a block, and the helper counts up from it.
pub struct PromptIds {
    next: u32,
}

impl View for PromptIds {
    type V = u32;

    closed spec fn view(&self) -> u32 {
        self.next
    }
}

impl PromptIds {
    /// A counter that has issued nothing.
    pub fn new() -> (r: Self)
        ensures
            r@ == 0,
    {
        PromptIds { next: 0 }
    }

    /// Reserve one attempt's block of prompt ids, returning its first id.
    pub fn reserve_prompt_ids(&mut self) -> (first: u32)
        ensures
            first == old(self)@,
            final(self)@ as int == (old(self)@ + PROMPT_ID_BLOCK) % 0x1_0000_0000,
    {
        let first = self.next;
        self.next = first.wrapping_add(PROMPT_ID_BLOCK);
        first
    }

    /// Note that `id` has been issued, so no later block can contain it.
    pub fn observe_prompt_id(&mut self, id: u32)
        ensures
            final(self)@ as int == after_observing(old(self)@ as int, id),
    {
        let above: u32 = id.saturating_add(1);
        if above > self.next {
            self.next = above;
        }
    }
}

/// The counter once `id` has been seen: raised past it, as far as it goes.
pub open spec fn after_observing(next: int, id: u32) -> int {
    let above = if id == u32::MAX {
        u32::MAX as int
    } else {
        id + 1
    };
    if above > next {
        above
    } else {
        next
    }
}

/// Something that happens to the counter.
pub enum IdEvent {
    /// A block is reserved.
    Reserve,
    /// An id is seen on the wire.
    Observe(u32),
}

/// The counter after a history of events, if it never ran over.
pub open spec fn counter_after(start: int, events: Seq<IdEvent>) -> int
    decreases events.len(),
{
    if events.len() == 0 {
        start
    } else {
        let before = counter_after(start, events.drop_last());
        match events.last() {
            IdEvent::Reserve => before + PROMPT_ID_BLOCK,
            IdEvent::Observe(id) => after_observing(before, id),
        }
    }
}

proof fn lemma_counter_grows(start: int, events: Seq<IdEvent>, i: int)
    requires
        0 <= i <= events.len(),
    ensures
        counter_after(start, events.take(i)) <= counter_after(start, events),
    decreases events.len() - i,
{
    if i < events.len() {
        lemma_counter_grows(start, events, i + 1);
        assert(events.take(i + 1).drop_last() =~= events.take(i));
    } else {
        assert(events.take(i) =~= events);
    }
}

/// A block that is reserved later starts past every id of an earlier block and
/// past every id seen in between, as long as the block has its ids left: the last
/// one may end with the largest id there is.
pub proof fn law_prompt_ids_are_never_reused(start: int, events: Seq<IdEvent>, i: int, j: int)
    requires
        0 <= i < j < events.len(),
        events[j] is Reserve,
        counter_after(start, events.take(j)) + PROMPT_ID_BLOCK <= 0x1_0000_0000,
    ensures
        events[i] is Reserve ==> counter_after(start, events.take(j)) >= counter_after(
            start,
            events.take(i),
        ) + PROMPT_ID_BLOCK,
        events[i] matches IdEvent::Observe(id) ==> counter_after(start, events.take(j)) > id,
{
    let upto_j = events.take(j);
    lemma_counter_grows(start, upto_j, i + 1);
    assert(upto_j.take(i + 1) =~= events.take(i + 1));
    assert(events.take(i + 1).drop_last() =~= events.take(i));
    assert(events.take(i + 1).last() == events[i]);
}

/// What wdm tells pam_systemd about the seat before opening a session.
///
/// These have to reach PAM's own environment before the session is opened;
/// putting them only in the launched child's environment is too late.
#[derive(Debug)]
pub struct SessionDescription {
    pub seat: String,
    pub vtnr: u32,
    /// `wayland` or `x11`. Provisional: the greeter has not chosen a session when
    /// authentication starts.
    pub session_type: String,
    /// The desktop id, without the `.desktop` suffix. Empty until the greeter has
    /// chosen one.
    pub desktop: String,
}

impl Clone for SessionDescription {
    fn clone(&self) -> (r: Self)
        ensures
            r == *self,
    {
        SessionDescription {
            seat: self.seat.clone(),
            vtnr: self.vtnr,
            session_type: self.session_type.clone(),
            desktop: self.desktop.clone(),
        }
    }
}

/// The views of a sequence of constant keys and their values.
pub open spec fn items(v: Seq<(&'static str, String)>) -> Seq<(Seq<char>, Seq<char>)> {
    Seq::new(v.len(), |i: int| (v[i].0@, v[i].1@))
}

impl SessionDescription {
    /// What is known of the session when a login begins: the session is not chosen
    /// yet, and what is chosen replaces its type and desktop before it is opened.
    pub fn for_login(vt: u32) -> (r: SessionDescription)
        ensures
            r.seat@ == "seat0"@,
            r.vtnr == vt,
            r.session_type@ == "wayland"@,
            r.desktop@.len() == 0,
    {
        SessionDescription {
            seat: "seat0".to_owned(),
            vtnr: vt,
            session_type: "wayland".to_owned(),
            desktop: String::new(),
        }
    }

    /// The environment that describes the seat to PAM.
    pub open spec fn items_view(&self) -> Seq<(Seq<char>, Seq<char>)> {
        let always = seq![
            ("XDG_SEAT"@, self.seat@),
            ("XDG_VTNR"@, decimal(self.vtnr as nat)),
            ("XDG_SESSION_CLASS"@, "user"@),
            ("XDG_SESSION_TYPE"@, self.session_type@),
        ];
        if self.desktop@.len() == 0 {
            always
        } else {
            always.push(("XDG_SESSION_DESKTOP"@, self.desktop@))
        }
    }

    /// The environment that describes the seat to PAM.
    ///
    /// A session with no desktop leaves `XDG_SESSION_DESKTOP` unset: an empty
    /// string is a value that everything reading it would believe.
    pub fn pam_items(&self) -> (r: Vec<(&'static str, String)>)
        ensures
            items(r@) == self.items_view(),
    {
        let mut list: Vec<(&'static str, String)> = Vec::new();
        list.push(("XDG_SEAT", self.seat.clone()));
        list.push(("XDG_VTNR", number(self.vtnr as u64)));
        list.push(("XDG_SESSION_CLASS", "user".to_owned()));
        list.push(("XDG_SESSION_TYPE", self.session_type.clone()));
        if !self.desktop.as_str().is_empty() {
            list.push(("XDG_SESSION_DESKTOP", self.desktop.clone()));
        }
        proof {
            assert(items(list@) =~= self.items_view());
        }
        list
    }
}

/// `key=value`.
pub open spec fn assignment(key: Seq<char>, value: Seq<char>) -> Seq<char> {
    key.push('=') + value
}

/// The `KEY=VALUE` pairs to push into PAM's environment before the session is
/// opened.
pub open spec fn session_env(session_type: Seq<char>, desktop: Seq<char>) -> Seq<Seq<char>> {
    let first = if session_type.len() == 0 {
        Seq::<Seq<char>>::empty()
    } else {
        seq![assignment("XDG_SESSION_TYPE"@, session_type)]
    };
    if desktop.len() == 0 {
        first
    } else {
        first.push(assignment("XDG_SESSION_DESKTOP"@, desktop))
    }
}

/// `key=value`.
fn assign(key: &str, value: &str) -> (r: String)
    ensures
        r@ == assignment(key@, value@),
{
    let mut r: String = key.to_owned();
    r.push('=');
    push_str(&mut r, value);
    r
}

/// The `KEY=VALUE` pairs to push into PAM's environment before the session is
/// opened.
///
/// An empty value yields no pair at all rather than `KEY=`: unset and empty are
/// different to logind.
pub fn pam_session_env(session_type: &str, desktop: &str) -> (r: Vec<String>)
    ensures
        strings(r@) == session_env(session_type@, desktop@),
{
    let mut r: Vec<String> = Vec::new();
    if !session_type.is_empty() {
        r.push(assign("XDG_SESSION_TYPE", session_type));
    }
    if !desktop.is_empty() {
        r.push(assign("XDG_SESSION_DESKTOP", desktop));
    }
    proof {
        assert(strings(r@) =~= session_env(session_type@, desktop@));
    }
    r
}

/// Which of PAM's phases a failure came out of.
///
/// A value, because the choice is the security property: `Authenticate` runs
/// before any credential has been proven and must tell the greeter nothing, while
/// every phase after it runs on behalf of someone who has shown they own the
/// account.
#[derive(Debug, Clone, Copy, PartialEq, Eq, Structural)]
pub enum Phase {
    /// `pam_start`. Service configuration only.
    Start,
    /// `pam_authenticate`. The one flattened phase.
    Authenticate,
    /// `pam_acct_mgmt`: "account expired".
    AcctMgmt,
    /// `pam_chauthtok`, the expired-password change: "password too short".
    Chauthtok,
    /// `pam_open_session`.
    OpenSession,
}

impl Phase {
    /// How the journal names this phase.
    pub open spec fn journal_name(self) -> Seq<char> {
        match self {
            Phase::Start => "opening the PAM context"@,
            Phase::Authenticate => "authentication"@,
            Phase::AcctMgmt => "account management"@,
            Phase::Chauthtok => "the password change"@,
            Phase::OpenSession => "opening the session"@,
        }
    }

    /// How the journal names this phase.
    pub fn what(self) -> (r: &'static str)
        ensures
            r@ == self.journal_name(),
    {
        match self {
            Phase::Start => "opening the PAM context",
            Phase::Authenticate => "authentication",
            Phase::AcctMgmt => "account management",
            Phase::Chauthtok => "the password change",
            Phase::OpenSession => "opening the session",
        }
    }
}

/// What the greeter is told when `pam_authenticate` fails: always this.
///
/// The greeter is untrusted and anyone standing at the login screen can drive it.
/// A message that told "no such user" from "wrong password" would turn the login
/// screen into an account oracle.
pub const AUTH_FAILED: &'static str = "Authentication failure";

/// What the greeter is shown in place of a module's own text before a credential
/// has been proven.
pub const NOTICE: &'static str = "The login attempt could not be completed.";

/// The text a greeter sees for a failure.
pub open spec fn greeter_text(phase: Phase, cause: Seq<char>) -> Seq<char> {
    if phase == Phase::Authenticate {
        "Authentication failure"@
    } else {
        cause
    }
}

/// The greeter-facing text for a PAM failure in `phase`.
///
/// `Phase::Authenticate` is flattened to one string; every other phase returns
/// PAM's own words. Neither depends on `username`.
#[must_use]
pub fn to_greeter(phase: Phase, username: &str, cause: &str) -> (r: String)
    ensures
        r@ == greeter_text(phase, cause@),
{
    match phase {
        Phase::Authenticate => AUTH_FAILED.to_owned(),
        _ => cause.to_owned(),
    }
}

/// The greeter-facing text for something a module said before `pam_authenticate`
/// returned: one fixed sentence, whatever was said and of whom.
///
/// A sentence rather than nothing, because it is also what tells a greeter that
/// the failure was explained and stops it from trying again by itself.
#[must_use]
pub fn notice_to_greeter(username: &str, text: &str) -> (r: String)
    ensures
        r@ == "The login attempt could not be completed."@,
{
    NOTICE.to_owned()
}

/// No two causes of a failed authentication can be told apart by what the greeter
/// is shown, while every later phase keeps PAM's own words.
pub proof fn law_only_authentication_is_flattened(phase: Phase, one: Seq<char>, other: Seq<char>)
    ensures
        greeter_text(Phase::Authenticate, one) == greeter_text(Phase::Authenticate, other),
        phase != Phase::Authenticate ==> greeter_text(phase, one) == one,
{
}

/// Something the helper reports, as the event loop hears it.
#[derive(Debug, PartialEq, Eq)]
pub enum AuthEvent {
    /// PAM is asking something.
    Prompt { id: u32, text: String, style: PromptStyle },
    /// Authentication and account management both succeeded.
    Accepted,
    /// The attempt failed.
    Failed(String),
    /// The user's session is running, as a child of the helper.
    SessionStarted { pid: u32 },
    /// The user's session exited.
    SessionEnded { status: String, ran_for_ms: u64 },
    /// No session could be opened or launched.
    SessionFailed(String),
}

/// What an [`AuthEvent`] says, with strings as character sequences.
#[verifier::ext_equal]
pub enum AuthEventView {
    Prompt { id: u32, text: Seq<char>, style: PromptStyle },
    Accepted,
    Failed(Seq<char>),
    SessionStarted { pid: u32 },
    SessionEnded { status: Seq<char>, ran_for_ms: u64 },
    SessionFailed(Seq<char>),
}

impl View for AuthEvent {
    type V = AuthEventView;

    open spec fn view(&self) -> AuthEventView {
        match *self {
            AuthEvent::Prompt { id, text, style } => AuthEventView::Prompt { id, text: text@, style },
            AuthEvent::Accepted => AuthEventView::Accepted,
            AuthEvent::Failed(reason) => AuthEventView::Failed(reason@),
            AuthEvent::SessionStarted { pid } => AuthEventView::SessionStarted { pid },
            AuthEvent::SessionEnded { status, ran_for_ms } => AuthEventView::SessionEnded {
                status: status@,
                ran_for_ms,
            },
            AuthEvent::SessionFailed(reason) => AuthEventView::SessionFailed(reason@),
        }
    }
}

/// The view of an event that may not be there.
pub open spec fn maybe_event(e: Option<AuthEvent>) -> Option<AuthEventView> {
    match e {
        Some(e) => Some(e@),
        None => None,
    }
}

/// The message that starts an attempt. It is sent before anything else: the
/// helper reads exactly one and refuses whatever else arrives first.
pub fn start_message(username: &str, tty: &str, session: &SessionDescription, id_base: u32) -> (r: Msg)
    ensures
        r@ == (MsgView::Start {
            username: username@,
            tty: tty@,
            seat: session.seat@,
            vtnr: session.vtnr,
            session_type: session.session_type@,
            desktop: session.desktop@,
            id_base,
        }),
{
    Msg::Start {
        username: username.to_owned(),
        tty: tty.to_owned(),
        seat: session.seat.clone(),
        vtnr: session.vtnr,
        session_type: session.session_type.clone(),
        desktop: session.desktop.clone(),
        id_base,
    }
}

/// The message that has a session opened and run.
///
/// The type and the desktop travel on their own as well as being derivable from
/// the session, because they go into PAM's own environment, which is a different
/// place from the launched child's.
pub fn launch_message(session: &Session, extra_env: Vec<(String, String)>, vt: u32) -> (r: Msg)
    ensures
        r@ == (MsgView::Launch {
            session_type: xdg_type(session.session_type),
            desktop: desktop_name(session.id@),
            session_id: session.id@,
            session_name: session.name@,
            session_exec: session.command@,
            extra_env: pairs(extra_env@),
            vt,
        }),
{
    Msg::Launch {
        session_type: session.xdg_session_type().to_owned(),
        desktop: session.xdg_session_desktop(),
        session_id: session.id.clone(),
        session_name: session.name.clone(),
        session_exec: session.command.clone(),
        extra_env,
        vt,
    }
}

/// The word that logs use for a message.
pub open spec fn message_name(m: MsgView) -> Seq<char> {
    match m {
        MsgView::Start { .. } => "start"@,
        MsgView::Response { .. } => "response"@,
        MsgView::Launch { .. } => "launch"@,
        MsgView::Prompt { .. } => "prompt"@,
        MsgView::Accepted => "ok"@,
        MsgView::Failed(_) => "failed"@,
        MsgView::SessionStarted { .. } => "session_started"@,
        MsgView::SessionFailed(_) => "session_failed"@,
        MsgView::SessionEnded { .. } => "session_ended"@,
    }
}

/// A message's variant name, for logs. It never holds any of the message's
/// fields, and so never a secret.
pub fn name_of(msg: &Msg) -> (r: &'static str)
    ensures
        r@ == message_name(msg@),
{
    match msg {
        Msg::Start { .. } => "start",
        Msg::Response { .. } => "response",
        Msg::Launch { .. } => "launch",
        Msg::Prompt { .. } => "prompt",
        Msg::Accepted => "ok",
        Msg::Failed(_) => "failed",
        Msg::SessionStarted { .. } => "session_started",
        Msg::SessionFailed(_) => "session_failed",
        Msg::SessionEnded { .. } => "session_ended",
    }
}

/// How the socket ended, from the point of view of what the greeter has heard.
#[derive(Debug, Clone, Copy, PartialEq, Eq, Structural)]
pub enum Outcome {
    /// A terminal message crossed the wire; the greeter has been told.
    Reported,
    /// The socket ended with no verdict at all.
    BeforeVerdict,
    /// Authentication succeeded, then the socket ended without a session.
    AfterVerdict,
}

/// What reading the socket produced.
pub enum Received<'a> {
    /// One datagram. The codec never produces an empty one: no bytes mean that
    /// the peer closed.
    Datagram(&'a [u8]),
    /// A signal interrupted the read; nothing was received.
    Interrupted,
    /// The read failed.
    Failed,
}

/// What wdm makes of one read: an event to pass on, and whether the conversation
/// is over.
pub struct Relayed {
    pub event: Option<AuthEvent>,
    pub outcome: Option<Outcome>,
}

/// The event that a message from the helper stands for; `None` for the messages
/// that only wdm sends.
pub open spec fn event_of(m: MsgView) -> Option<AuthEventView> {
    match m {
        MsgView::Prompt { id, text, style } => Some(AuthEventView::Prompt { id, text, style }),
        MsgView::Accepted => Some(AuthEventView::Accepted),
        MsgView::Failed(reason) => Some(AuthEventView::Failed(reason)),
        MsgView::SessionStarted { pid } => Some(AuthEventView::SessionStarted { pid }),
        MsgView::SessionEnded { status, ran_for_ms } => Some(
            AuthEventView::SessionEnded { status, ran_for_ms },
        ),
        MsgView::SessionFailed(reason) => Some(AuthEventView::SessionFailed(reason)),
        MsgView::Start { .. } => None,
        MsgView::Response { .. } => None,
        MsgView::Launch { .. } => None,
    }
}

/// The messages after which the helper has nothing more to say.
pub open spec fn is_last_word(m: MsgView) -> bool {
    m is Failed || m is SessionEnded || m is SessionFailed
}

/// How the socket ended without a last word.
pub open spec fn cut_off(authenticated: bool) -> Outcome {
    if authenticated {
        Outcome::AfterVerdict
    } else {
        Outcome::BeforeVerdict
    }
}

/// wdm's reading of one helper: whether it has said that the user is who they
/// claim.
pub struct Relay {
    authenticated: bool,
}

impl View for Relay {
    type V = bool;

    closed spec fn view(&self) -> bool {
        self.authenticated
    }
}

impl Relay {
    /// A conversation that has only begun.
    pub fn new() -> (r: Self)
        ensures
            !r@,
    {
        Relay { authenticated: false }
    }

    /// Turn one read of the socket into an event, and say when the conversation
    /// is over.
    ///
    /// An id that a prompt carries is noted before the prompt is passed on: from
    /// then on an answer can carry it, so no later attempt may be handed it.
    pub fn forward(&mut self, received: Received, ids: &mut PromptIds) -> (r: Relayed)
        ensures
            match received {
                Received::Datagram(bytes) => match decoded(bytes@) {
                    Some(m) => {
                        &&& maybe_event(r.event) == event_of(m)
                        &&& damage_shows(bytes@, m)
                        &&& r.outcome == (if is_last_word(m) {
                            Some(Outcome::Reported)
                        } else {
                            None
                        })
                        &&& final(self)@ == (old(self)@ || m is Accepted)
                        &&& final(ids)@ as int == (match m {
                            MsgView::Prompt { id, .. } => after_observing(old(ids)@ as int, id),
                            _ => old(ids)@ as int,
                        })
                    },
                    None => {
                        &&& r.event is None
                        &&& r.outcome == Some(cut_off(old(self)@))
                        &&& final(self)@ == old(self)@
                        &&& final(ids)@ == old(ids)@
                    },
                },
                Received::Interrupted => {
                    &&& r.event is None
                    &&& r.outcome is None
                    &&& final(self)@ == old(self)@
                    &&& final(ids)@ == old(ids)@
                },
                Received::Failed => {
                    &&& r.event is None
                    &&& r.outcome == Some(cut_off(old(self)@))
                    &&& final(self)@ == old(self)@
                    &&& final(ids)@ == old(ids)@
                },
            },
    {
        let bytes = match received {
            Received::Datagram(bytes) => bytes,
            Received::Interrupted => {
                return Relayed { event: None, outcome: None };
            },
            Received::Failed => {
                return Relayed { event: None, outcome: Some(self.end()) };
            },
        };
        let msg = match Msg::decode(bytes) {
            Some(msg) => msg,
            None => {
                return Relayed { event: None, outcome: Some(self.end()) };
            },
        };
        match &msg {
            Msg::Prompt { id, text, style } => {
                ids.observe_prompt_id(*id);
                Relayed {
                    event: Some(AuthEvent::Prompt { id: *id, text: text.clone(), style: *style }),
                    outcome: None,
                }
            },
            Msg::Accepted => {
                self.authenticated = true;
                Relayed { event: Some(AuthEvent::Accepted), outcome: None }
            },
            Msg::Failed(reason) => Relayed {
                event: Some(AuthEvent::Failed(reason.clone())),
                outcome: Some(Outcome::Reported),
            },
            Msg::SessionStarted { pid } => Relayed {
                event: Some(AuthEvent::SessionStarted { pid: *pid }),
                outcome: None,
            },
            // The helper's very next acts are to close the PAM session and exit,
            // which close the socket: without this being the last word, a session
            // that ended normally would also be reported as failed.
            Msg::SessionEnded { status, ran_for_ms } => Relayed {
                event: Some(
                    AuthEvent::SessionEnded { status: status.clone(), ran_for_ms: *ran_for_ms },
                ),
                outcome: Some(Outcome::Reported),
            },
            Msg::SessionFailed(reason) => Relayed {
                event: Some(AuthEvent::SessionFailed(reason.clone())),
                outcome: Some(Outcome::Reported),
            },
            // wdm's own direction: nothing here acts on it.
            Msg::Start { .. } => Relayed { event: None, outcome: None },
            Msg::Response { .. } => Relayed { event: None, outcome: None },
            Msg::Launch { .. } => Relayed { event: None, outcome: None },
        }
    }

    /// How a socket that ends now has ended.
    fn end(&self) -> (r: Outcome)
        ensures
            r == cut_off(self@),
    {
        if self.authenticated {
            Outcome::AfterVerdict
        } else {
            Outcome::BeforeVerdict
        }
    }
}

/// What is left to report once the helper is gone.
pub open spec fn parting_event(outcome: Outcome, closing: bool) -> Option<AuthEventView> {
    if closing {
        None
    } else {
        match outcome {
            Outcome::Reported => None,
            Outcome::BeforeVerdict => Some(
                AuthEventView::Failed("the authentication helper exited"@),
            ),
            Outcome::AfterVerdict => Some(
                AuthEventView::SessionFailed("the authentication helper exited"@),
            ),
        }
    }
}

/// The event to report once the helper is gone, given how the socket ended and
/// whether wdm closed it itself.
///
/// A helper that vanished with the greeter still waiting must be reported, or the
/// login screen sits on its prompt for ever; one that wdm dismissed must not be.
pub fn parting(outcome: Outcome, closing: bool) -> (r: Option<AuthEvent>)
    ensures
        maybe_event(r) == parting_event(outcome, closing),
{
    if closing {
        return None;
    }
    match outcome {
        Outcome::Reported => None,
        Outcome::BeforeVerdict => Some(
            AuthEvent::Failed("the authentication helper exited".to_owned()),
        ),
        Outcome::AfterVerdict => Some(
            AuthEvent::SessionFailed("the authentication helper exited".to_owned()),
        ),
    }
}

/// The event to report when the thread that reads the helper cannot be started.
pub fn unstartable() -> (r: AuthEvent)
    ensures
        r@ == AuthEventView::Failed("the authentication helper could not be started"@),
{
    AuthEvent::Failed("the authentication helper could not be started".to_owned())
}

/// Every event of a conversation in which the helper sent `msgs` and then the
/// socket ended.
pub open spec fn conversation(authenticated: bool, msgs: Seq<MsgView>, closing: bool) -> Seq<
    AuthEventView,
>
    decreases msgs.len(),
{
    if msgs.len() == 0 {
        match parting_event(cut_off(authenticated), closing) {
            Some(e) => seq![e],
            None => seq![],
        }
    } else {
        let first = match event_of(msgs[0]) {
            Some(e) => seq![e],
            None => seq![],
        };
        if is_last_word(msgs[0]) {
            first
        } else {
            first + conversation(authenticated || msgs[0] is Accepted, msgs.skip(1), closing)
        }
    }
}

/// The events that tell whoever waits that nothing more will come.
pub open spec fn is_final(e: AuthEventView) -> bool {
    e is Failed || e is SessionEnded || e is SessionFailed
}

/// A helper that wdm did not dismiss is always accounted for: whatever it sent,
/// its conversation ends in one final event, and there is no other.
pub proof fn law_every_conversation_is_concluded(authenticated: bool, msgs: Seq<MsgView>)
    ensures
        ({
            let events = conversation(authenticated, msgs, false);
            &&& events.len() > 0
            &&& is_final(events.last())
            &&& forall|i: int| 0 <= i < events.len() - 1 ==> !is_final(#[trigger] events[i])
        }),
    decreases msgs.len(),
{
    if msgs.len() > 0 && !is_last_word(msgs[0]) {
        let auth = authenticated || msgs[0] is Accepted;
        law_every_conversation_is_concluded(auth, msgs.skip(1));
        let tail = conversation(auth, msgs.skip(1), false);
        let events = conversation(authenticated, msgs, false);
        assert(events.last() == tail.last());
        let shift = events.len() - tail.len();
        assert forall|i: int| 0 <= i < events.len() - 1 implies !is_final(#[trigger] events[i]) by {
            if i >= shift {
                assert(events[i] == tail[i - shift]);
            }
        }
    }
}

/// A conversation that wdm itself ended brings no failure of its own making: every
/// event is one the helper's messages stood for.
pub proof fn law_dismissal_is_silent(authenticated: bool, msgs: Seq<MsgView>, i: int)
    requires
        0 <= i < conversation(authenticated, msgs, true).len(),
    ensures
        exists|k: int|
            0 <= k < msgs.len() && event_of(#[trigger] msgs[k]) == Some(
                conversation(authenticated, msgs, true)[i],
            ),
    decreases msgs.len(),
{
    let events = conversation(authenticated, msgs, true);
    if event_of(msgs[0]) is Some && i == 0 {
        assert(event_of(msgs[0]) == Some(events[0]));
    } else {
        let auth = authenticated || msgs[0] is Accepted;
        let tail = conversation(auth, msgs.skip(1), true);
        let j = if event_of(msgs[0]) is Some {
            i - 1
        } else {
            i
        };
        assert(events[i] == tail[j]);
        law_dismissal_is_silent(auth, msgs.skip(1), j);
        let k = choose|k: int|
            0 <= k < msgs.skip(1).len() && event_of(#[trigger] msgs.skip(1)[k]) == Some(tail[j]);
        assert(msgs.skip(1)[k] == msgs[k + 1]);
    }
}

/// After the user has been authenticated, a helper that vanishes fails the
/// session, never the attempt.
pub proof fn law_no_failed_attempt_after_acceptance(authenticated: bool, msgs: Seq<MsgView>)
    requires
        forall|k: int| 0 <= k < msgs.len() ==> !is_last_word(#[trigger] msgs[k]),
        authenticated || exists|k: int| 0 <= k < msgs.len() && (#[trigger] msgs[k]) is Accepted,
    ensures
        conversation(authenticated, msgs, false).last() == AuthEventView::SessionFailed(
            "the authentication helper exited"@,
        ),
    decreases msgs.len(),
{
    if msgs.len() > 0 {
        let auth = authenticated || msgs[0] is Accepted;
        let rest = msgs.skip(1);
        assert forall|k: int| 0 <= k < rest.len() implies !is_last_word(#[trigger] rest[k]) by {
            assert(rest[k] == msgs[k + 1]);
        }
        if !auth {
            let k = choose|k: int| 0 <= k < msgs.len() && (#[trigger] msgs[k]) is Accepted;
            assert(rest[k - 1] == msgs[k]);
        }
        assert(!is_last_word(msgs[0]));
        law_no_failed_attempt_after_acceptance(auth, rest);
        law_every_conversation_is_concluded(auth, rest);
    }
}

/// The greeter answers the questions and no other message: a style asks if and only
/// if PAM waits for what is typed.
pub proof fn law_only_questions_ask(style: PromptStyle)
    ensures
        style.asks() <==> style != PromptStyle::Info && style != PromptStyle::Error,
{
}

/// Every report of the helper reaches the event loop with what it says, and what
/// only wdm sends is no event.
pub proof fn law_reports_are_passed_on_as_they_are(m: MsgView)
    ensures
        event_of(m) is None <==> m is Start || m is Response || m is Launch,
        event_of(m) matches Some(AuthEventView::Prompt { id, text, style }) ==> m
            == (MsgView::Prompt { id, text, style }),
        event_of(m) matches Some(AuthEventView::Accepted) ==> m == MsgView::Accepted,
        event_of(m) matches Some(AuthEventView::Failed(reason)) ==> m == MsgView::Failed(reason),
        event_of(m) matches Some(AuthEventView::SessionStarted { pid }) ==> m
            == (MsgView::SessionStarted { pid }),
        event_of(m) matches Some(AuthEventView::SessionEnded { status, ran_for_ms }) ==> m
            == (MsgView::SessionEnded { status, ran_for_ms }),
        event_of(m) matches Some(AuthEventView::SessionFailed(reason)) ==> m
            == MsgView::SessionFailed(reason),
{
}

/// A helper that vanishes before its verdict fails the attempt, and says so.
pub proof fn law_a_helper_that_vanishes_fails_the_attempt(msgs: Seq<MsgView>)
    requires
        forall|k: int|
            0 <= k < msgs.len() ==> !((#[trigger] msgs[k]) is Accepted || msgs[k] is Failed
                || msgs[k] is SessionEnded || msgs[k] is SessionFailed),
    ensures
        conversation(false, msgs, false).len() > 0,
        conversation(false, msgs, false).last() == AuthEventView::Failed(
            "the authentication helper exited"@,
        ),
    decreases msgs.len(),
{
    if msgs.len() > 0 {
        let rest = msgs.skip(1);
        assert forall|k: int| 0 <= k < rest.len() implies !((#[trigger] rest[k]) is Accepted
            || rest[k] is Failed || rest[k] is SessionEnded || rest[k] is SessionFailed) by {
            assert(rest[k] == msgs[k + 1]);
        }
        assert(!(msgs[0] is Accepted));
        law_a_helper_that_vanishes_fails_the_attempt(rest);
        law_every_conversation_is_concluded(false, rest);
    }
}

/// A prompt of the helper is heard exactly where it stands among its messages: the
/// events up to it are those of the messages before it.
pub proof fn law_messages_are_heard_in_order(
    authenticated: bool,
    first: MsgView,
    rest: Seq<MsgView>,
    closing: bool,
)
    requires
        first is Prompt || first is Accepted || first is SessionStarted,
    ensures
        ({
            let events = conversation(authenticated, seq![first] + rest, closing);
            let later = conversation(authenticated || first is Accepted, rest, closing);
            &&& events.len() == later.len() + 1
            &&& event_of(first) == Some(events[0])
            &&& forall|i: int| 0 <= i < later.len() ==> events[i + 1] == #[trigger] later[i]
        }),
{
    assert((seq![first] + rest).skip(1) =~= rest);
}

/// A failure, an end or the failure of a session is the last that is heard of a
/// helper.
pub proof fn law_the_last_word_is_the_last(
    authenticated: bool,
    last: MsgView,
    rest: Seq<MsgView>,
    closing: bool,
)
    requires
        last is Failed || last is SessionEnded || last is SessionFailed,
    ensures
        ({
            let events = conversation(authenticated, seq![last] + rest, closing);
            events.len() == 1 && event_of(last) == Some(events[0])
        }),
{
}

/// PAM is told the seat, the terminal and the class of every session, and its
/// desktop if and only if it has one.
pub proof fn law_the_seat_is_described(d: SessionDescription)
    ensures
        d.items_view().contains(("XDG_SEAT"@, d.seat@)),
        d.items_view().contains(("XDG_VTNR"@, decimal(d.vtnr as nat))),
        d.items_view().contains(("XDG_SESSION_CLASS"@, "user"@)),
        d.items_view().contains(("XDG_SESSION_TYPE"@, d.session_type@)),
        d.desktop@.len() > 0 ==> d.items_view().contains(("XDG_SESSION_DESKTOP"@, d.desktop@)),
        d.items_view().len() == (if d.desktop@.len() > 0 {
            5nat
        } else {
            4nat
        }),
{
    let v = d.items_view();
    assert(v[0] == ("XDG_SEAT"@, d.seat@));
    assert(v[1] == ("XDG_VTNR"@, decimal(d.vtnr as nat)));
    assert(v[2] == ("XDG_SESSION_CLASS"@, "user"@));
    assert(v[3] == ("XDG_SESSION_TYPE"@, d.session_type@));
    if d.desktop@.len() > 0 {
        assert(v[4] == ("XDG_SESSION_DESKTOP"@, d.desktop@));
    }
}

/// What was chosen is told to PAM as an assignment of the value, and what is empty
/// is not told at all.
pub proof fn law_what_was_chosen_is_told_to_pam(session_type: Seq<char>, desktop: Seq<char>)
    ensures
        session_type.len() > 0 <==> session_env(session_type, desktop).contains(
            "XDG_SESSION_TYPE="@ + session_type,
        ),
        desktop.len() > 0 <==> session_env(session_type, desktop).contains(
            "XDG_SESSION_DESKTOP="@ + desktop,
        ),
        session_env(session_type, desktop).len() == (if session_type.len() > 0 {
            1nat
        } else {
            0nat
        }) + (if desktop.len() > 0 {
            1nat
        } else {
            0nat
        }),
{
    reveal_strlit("XDG_SESSION_TYPE");
    reveal_strlit("XDG_SESSION_TYPE=");
    reveal_strlit("XDG_SESSION_DESKTOP");
    reveal_strlit("XDG_SESSION_DESKTOP=");
    let v = session_env(session_type, desktop);
    let t = "XDG_SESSION_TYPE="@ + session_type;
    let d = "XDG_SESSION_DESKTOP="@ + desktop;
    assert(assignment("XDG_SESSION_TYPE"@, session_type) =~= t);
    assert(assignment("XDG_SESSION_DESKTOP"@, desktop) =~= d);
    assert(t[12] == 'T' && d[12] == 'D');
    assert(t != d);
    if session_type.len() > 0 {
        assert(v[0] == t);
    }
    if desktop.len() > 0 {
        assert(v[v.len() - 1] == d);
    }
}

/// An id that was seen is never handed out again, and nothing but that raises the
/// counter.
pub proof fn law_the_counter_passes_what_it_saw(next: int, id: u32)
    requires
        0 <= next <= u32::MAX,
    ensures
        id < u32::MAX ==> after_observing(next, id) > id,
        next <= after_observing(next, id) <= u32::MAX,
        id < next ==> after_observing(next, id) == next,
        next <= id < u32::MAX ==> after_observing(next, id) == id + 1,
{
}

/// A failed authentication is told in one sentence, and any other failure in the
/// words it came in.
pub proof fn law_what_the_greeter_is_told(phase: Phase, cause: Seq<char>)
    ensures
        phase == Phase::Authenticate ==> greeter_text(phase, cause) == "Authentication failure"@,
        phase != Phase::Authenticate ==> greeter_text(phase, cause) == cause,
{
}

/// The journal tells phases apart, and calls each what it is.
pub proof fn law_phases_are_named()
    ensures
        Phase::Start.journal_name() == "opening the PAM context"@,
        Phase::Authenticate.journal_name() == "authentication"@,
        Phase::AcctMgmt.journal_name() == "account management"@,
        Phase::Chauthtok.journal_name() == "the password change"@,
        Phase::OpenSession.journal_name() == "opening the session"@,
{
}

/// What the journal says of a message is which it is, and nothing that it holds.
pub proof fn law_messages_are_named(m: MsgView)
    ensures
        m is Start ==> message_name(m) == "start"@,
        m is Response ==> message_name(m) == "response"@,
        m is Launch ==> message_name(m) == "launch"@,
        m is Prompt ==> message_name(m) == "prompt"@,
        m is Accepted ==> message_name(m) == "ok"@,
        m is Failed ==> message_name(m) == "failed"@,
        m is SessionStarted ==> message_name(m) == "session_started"@,
        m is SessionFailed ==> message_name(m) == "session_failed"@,
        m is SessionEnded ==> message_name(m) == "session_ended"@,
{
}

/// A helper that was dismissed, or that has reported how it ended, leaves nothing to
/// report; one that vanished fails the attempt before its verdict and the session
/// after it.
pub proof fn law_what_is_left_to_report(authenticated: bool, outcome: Outcome)
    ensures
        parting_event(outcome, true) is None,
        parting_event(Outcome::Reported, false) is None,
        parting_event(cut_off(false), false) == Some(
            AuthEventView::Failed("the authentication helper exited"@),
        ),
        parting_event(cut_off(true), false) == Some(
            AuthEventView::SessionFailed("the authentication helper exited"@),
        ),
        cut_off(false) == Outcome::BeforeVerdict,
        cut_off(true) == Outcome::AfterVerdict,
{
}

/// What is told to PAM, and what is heard of the helper, is seen as it is.
pub proof fn law_items_are_seen_as_they_are(
    list: Seq<(&'static str, String)>,
    event: AuthEvent,
    i: int,
)
    ensures
        items(list).len() == list.len(),
        0 <= i < list.len() ==> items(list)[i].0 == list[i].0@ && items(list)[i].1 == list[i].1@,
        maybe_event(None) is None,
        maybe_event(Some(event)) == Some(event@),
        event matches AuthEvent::Prompt { id, text, style } ==> event@ == (AuthEventView::Prompt {
            id,
            text: text@,
            style,
        }),
        event matches AuthEvent::Accepted ==> event@ == AuthEventView::Accepted,
        event matches AuthEvent::Failed(reason) ==> event@ == AuthEventView::Failed(reason@),
        event matches AuthEvent::SessionStarted { pid } ==> event@
            == (AuthEventView::SessionStarted { pid }),
        event matches AuthEvent::SessionEnded { status, ran_for_ms } ==> event@
            == (AuthEventView::SessionEnded { status: status@, ran_for_ms }),
        event matches AuthEvent::SessionFailed(reason) ==> event@ == AuthEventView::SessionFailed(
            reason@,
        ),
{
}

/// A login begins on the first seat as a Wayland session without a desktop, a helper
/// that cannot be heard fails the attempt, and what a module says too early is one
/// sentence, of whomever it says it.
pub proof fn law_how_a_login_begins(
    vt: u32,
    description: SessionDescription,
    event: AuthEvent,
    username: &str,
    text: &str,
    notice: String,
    phase: Phase,
    shown: String,
)
    requires
        call_ensures(SessionDescription::for_login, (vt,), description),
        call_ensures(unstartable, (), event),
        call_ensures(notice_to_greeter, (username, text), notice),
        call_ensures(to_greeter, (phase, username, text), shown),
    ensures
        description.seat@ == "seat0"@,
        description.vtnr == vt,
        description.session_type@ == "wayland"@,
        description.desktop@.len() == 0,
        event@ == AuthEventView::Failed("the authentication helper could not be started"@),
        notice@ == "The login attempt could not be completed."@,
        phase == Phase::Authenticate ==> shown@ == "Authentication failure"@,
        phase != Phase::Authenticate ==> shown@ == text@,
{
}

} // verus!
