//! The login state machine: the server side of `wdm_greeter_v1`.
//!
//! The greeter is untrusted. Every request is validated against the phase the
//! conversation is actually in, prompts are id-tagged so a slow greeter cannot
//! answer a superseded question, and failed attempts are rate limited here rather
//! than in the greeter.
//!
//! Nothing is done here: each step changes the state and says in its [`Reply`]
//! what to tell the greeter, what to tell the PAM helper and which timer to arm.
//! Instants are nanoseconds on a clock that only goes forward.
use vstd::prelude::*;

use crate::auth::{AuthEvent, AuthEventView, PromptStyle};
use crate::session::{refusal, sentence, Launch};
use crate::sessions::{session_views, Session, SessionType, SessionView};
use crate::text::{decimal, maybe, number, pairs, push_str, same};
use crate::users::{discover, is_user_list, Account, LastSessions, UidRange, User, UserView};

verus! {

/// Highest `wdm_greeter_v1` version that is spoken.
///
/// Version 2 added `default_session`. Greeters are separate binaries, and one
/// built against version 1 is served the version 1 contract.
pub const INTERFACE_VERSION: u32 = 2;

/// The version at which `default_session` became available.
pub const DEFAULT_SESSION_SINCE: u32 = 2;

/// One second, in nanoseconds.
pub const SECOND: u64 = 1_000_000_000;

/// The least time a failed attempt may appear to take.
///
/// A stack that verifies a password hash answers later than one that gives up
/// before hashing, which would tell whether an account exists. Failures are
/// therefore reported at a deadline measured from when PAM was given something to
/// work on, and this is the floor under that deadline.
pub const FAILURE_FLOOR: u64 = 2_000_000_000;

/// The least time between two accepted attempts.
///
/// Charged by every accepted attempt, cancelled or not, because each one starts a
/// privileged helper.
pub const MIN_ATTEMPT_INTERVAL: u64 = 1_000_000_000;

/// The longest backoff.
pub const MAX_BACKOFF: u64 = 10_000_000_000;

/// The latest instant there may be; adding any delay to it still fits.
pub const LATEST: u64 = 18_000_000_000_000_000_000;

/// The number a session type is sent as.
pub fn wire_session_type(t: SessionType) -> (r: u32)
    ensures
        r == (match t {
            SessionType::Wayland => 0u32,
            SessionType::X11 => 1u32,
        }),
{
    match t {
        SessionType::Wayland => 0,
        SessionType::X11 => 1,
    }
}

/// The number a prompt style is sent as.
pub fn wire_prompt_style(style: PromptStyle) -> (r: u32)
    ensures
        r == (match style {
            PromptStyle::Secret => 0u32,
            PromptStyle::Visible => 1u32,
            PromptStyle::Info => 2u32,
            PromptStyle::Error => 3u32,
        }),
{
    match style {
        PromptStyle::Secret => 0,
        PromptStyle::Visible => 1,
        PromptStyle::Info => 2,
        PromptStyle::Error => 3,
    }
}

/// The session a peer of some version is told as a user's last one.
pub open spec fn reported_session(
    version: u32,
    history: Seq<char>,
    default: Option<Seq<char>>,
) -> Seq<char> {
    if version >= DEFAULT_SESSION_SINCE || history.len() > 0 {
        history
    } else {
        match default {
            Some(id) => id,
            None => seq![],
        }
    }
}

/// What to put in a `user` event's `last_session` for a peer at `version`.
///
/// From version 2 the field is the user's own history: the machine-wide default
/// travels on its own event. A version 1 peer has no other way to learn the
/// default, so for it the default takes the place of an empty history.
pub fn last_session_for(version: u32, history: &str, default: Option<&str>) -> (r: String)
    ensures
        r@ == reported_session(
            version,
            history@,
            match default {
                Some(id) => Some(id@),
                None => None,
            },
        ),
{
    if version >= DEFAULT_SESSION_SINCE || !history.is_empty() {
        history.to_owned()
    } else {
        match default {
            Some(id) => id.to_owned(),
            None => String::new(),
        }
    }
}

/// The backoff after so many failures in a row.
///
/// The first failure is not slowed down, which is [`FAILURE_FLOOR`]'s business;
/// the cap keeps a user who mistyped from being locked out for minutes.
pub open spec fn backoff(failures: nat) -> u64 {
    if failures == 0 {
        0
    } else if failures == 1 {
        SECOND
    } else if failures == 2 {
        2_000_000_000
    } else if failures == 3 {
        4_000_000_000
    } else if failures == 4 {
        8_000_000_000
    } else {
        MAX_BACKOFF
    }
}

/// More failures never wait less, and no number of them waits longer than the cap.
pub proof fn law_backoff_grows_and_is_capped(less: nat, more: nat)
    requires
        less <= more,
    ensures
        backoff(less) <= backoff(more) <= MAX_BACKOFF,
{
}

/// The delay that a failure makes a greeter wait for.
pub open spec fn delay_of(anchor: Option<u64>, backoff: u64, now: u64) -> int {
    let from = match anchor {
        Some(t) => t,
        None => now,
    };
    let span = if backoff > FAILURE_FLOOR {
        backoff
    } else {
        FAILURE_FLOOR
    };
    if from + span > now {
        from + span - now
    } else {
        0
    }
}

/// How long to wait before a failure is reported, so that the attempt costs a
/// constant time.
///
/// `anchor` is when PAM was last given something to work on. An answer that comes
/// after the deadline has paid the floor already and is not delayed further. A
/// missing anchor pays the full floor, because the safe error is the slow one.
pub fn failure_delay(anchor: Option<u64>, backoff: u64, now: u64) -> (r: u64)
    requires
        (match anchor {
            Some(t) => t,
            None => now,
        }) + (if backoff > FAILURE_FLOOR {
            backoff
        } else {
            FAILURE_FLOOR
        }) <= u64::MAX,
    ensures
        r == delay_of(anchor, backoff, now),
{
    let from: u64 = match anchor {
        Some(t) => t,
        None => now,
    };
    let span: u64 = if backoff > FAILURE_FLOOR {
        backoff
    } else {
        FAILURE_FLOOR
    };
    let deadline: u64 = from + span;
    if deadline > now {
        deadline - now
    } else {
        0
    }
}

/// Two refusals of one attempt that come by the deadline, which is the longer of the
/// floor and the backoff after the anchor, are reported at the same instant, however
/// long PAM took over either.
pub proof fn law_failures_take_constant_time(anchor: u64, backoff: u64, fast: u64, slow: u64)
    requires
        fast <= anchor + FAILURE_FLOOR || fast <= anchor + backoff,
        slow <= anchor + FAILURE_FLOOR || slow <= anchor + backoff,
    ensures
        fast + delay_of(Some(anchor), backoff, fast) == slow + delay_of(
            Some(anchor),
            backoff,
            slow,
        ),
        fast + delay_of(Some(anchor), backoff, fast) >= anchor + FAILURE_FLOOR,
        fast + delay_of(Some(anchor), backoff, fast) >= anchor + backoff,
{
}

/// Where the conversation currently is.
#[derive(Debug, Clone, Copy, PartialEq, Eq, Structural)]
pub enum Phase {
    /// No conversation; a new one may be opened.
    Idle,
    /// PAM is running; it may be answered or cancelled.
    Authenticating,
    /// Authenticated; a session may be started.
    Authenticated,
    /// A failure is being reported after its delay.
    ///
    /// This is not itself the rate limit, which survives what a greeter can do to
    /// leave this phase.
    Cooldown,
    /// A session is being launched; the greeter is about to be torn down.
    Launching,
}

/// What the event loop must do after a greeter's request or the helper's event.
///
/// Launching needs the display released and the greeter torn down, which only the
/// backend can do.
#[derive(Debug)]
pub enum Action {
    /// Nothing to do.
    Nothing,
    /// The account and the session are validated; the display must be released.
    Launch { username: String },
    /// The greeter should be restarted, optionally told why.
    RestartGreeter { error: Option<String> },
}

/// What an [`Action`] says, with strings as character sequences.
#[verifier::ext_equal]
pub enum ActionView {
    Nothing,
    Launch { username: Seq<char> },
    RestartGreeter { error: Option<Seq<char>> },
}

impl View for Action {
    type V = ActionView;

    open spec fn view(&self) -> ActionView {
        match *self {
            Action::Nothing => ActionView::Nothing,
            Action::Launch { username } => ActionView::Launch { username: username@ },
            Action::RestartGreeter { error } => ActionView::RestartGreeter { error: maybe(error) },
        }
    }
}

/// How the user's session ended, once the helper has said so.
#[derive(Debug)]
pub enum SessionOutcome {
    /// The session ran and exited; `status` renders the wait status.
    Ended { status: String, ran_for_ms: u64 },
    /// No session ever ran.
    Failed(String),
}

/// What a [`SessionOutcome`] says, with strings as character sequences.
#[verifier::ext_equal]
pub enum SessionOutcomeView {
    Ended { status: Seq<char>, ran_for_ms: u64 },
    Failed(Seq<char>),
}

impl View for SessionOutcome {
    type V = SessionOutcomeView;

    open spec fn view(&self) -> SessionOutcomeView {
        match *self {
            SessionOutcome::Ended { status, ran_for_ms } => SessionOutcomeView::Ended {
                status: status@,
                ran_for_ms,
            },
            SessionOutcome::Failed(reason) => SessionOutcomeView::Failed(reason@),
        }
    }
}

/// The text that a duration of so many milliseconds is shown as.
pub uninterp spec fn duration_text(ms: u64) -> Seq<char>;

/// Wraps the `Debug` rendering of `std::time::Duration`.
///
/// Claims only that the text depends on nothing but the duration.
#[verifier::external_body]
pub(crate) fn show_duration(ms: u64) -> (r: String)
    ensures
        r@ == duration_text(ms),
{
    format!("{:?}", std::time::Duration::from_millis(ms))
}

/// How an outcome reads in the journal.
pub open spec fn outcome_text(outcome: SessionOutcomeView) -> Seq<char> {
    match outcome {
        SessionOutcomeView::Ended { status, ran_for_ms } => status + " after "@ + duration_text(
            ran_for_ms,
        ),
        SessionOutcomeView::Failed(reason) => "never started: "@ + reason,
    }
}

impl SessionOutcome {
    /// How the outcome reads in the journal.
    pub fn describe(&self) -> (r: String)
        ensures
            r@ == outcome_text(self@),
    {
        match self {
            SessionOutcome::Ended { status, ran_for_ms } => {
                let mut s = status.clone();
                push_str(&mut s, " after ");
                push_str(&mut s, &show_duration(*ran_for_ms));
                s
            },
            SessionOutcome::Failed(reason) => {
                let mut s = "never started: ".to_owned();
                push_str(&mut s, reason);
                s
            },
        }
    }
}

/// What a greeter is told of the conversation.
#[derive(Debug)]
pub enum GreeterEvent {
    Prompt { id: u32, text: String, style: PromptStyle },
    AuthOk,
    AuthFailed { reason: String },
}

/// The protocol errors a greeter can commit.
#[derive(Debug, Clone, Copy, PartialEq, Eq, Structural)]
pub enum ErrorCode {
    AlreadyBound,
    AuthInProgress,
    NoAuth,
    StalePrompt,
    InvalidSession,
    InvalidEnv,
}

/// Something to be done outside, in order.
#[derive(Debug)]
pub enum Effect {
    /// Tell every bound greeter.
    Broadcast(GreeterEvent),
    /// Refuse the request that is being handled.
    PostError { code: ErrorCode, text: String },
    /// Start a PAM helper for a user, on a terminal; its answer goes to
    /// [`Login::helper_answered`].
    StartHelper { username: String, tty: String, vt: u32 },
    /// Hand the helper an answer.
    Respond { id: u32, response: String },
    /// Let go of the helper, which cancels whatever it is doing.
    DropHelper,
    /// Tell the helper to open the session and run it.
    SendLaunch { session: Session, extra_env: Vec<(String, String)>, vt: u32 },
    /// Arm the timer for a failure; it is handed back to [`Login::timer_fired`].
    ArmTimer { delay: u64, generation: u64, reason: String },
    /// Disarm the timer for a failure.
    DisarmTimer,
    /// Record the session a user chose.
    Remember { username: String, session_id: String },
}

/// What a [`GreeterEvent`] says, with strings as character sequences.
#[verifier::ext_equal]
pub enum GreeterEventView {
    Prompt { id: u32, text: Seq<char>, style: PromptStyle },
    AuthOk,
    AuthFailed { reason: Seq<char> },
}

impl View for GreeterEvent {
    type V = GreeterEventView;

    open spec fn view(&self) -> GreeterEventView {
        match *self {
            GreeterEvent::Prompt { id, text, style } => GreeterEventView::Prompt {
                id,
                text: text@,
                style,
            },
            GreeterEvent::AuthOk => GreeterEventView::AuthOk,
            GreeterEvent::AuthFailed { reason } => GreeterEventView::AuthFailed {
                reason: reason@,
            },
        }
    }
}

/// What an [`Effect`] says, with strings as character sequences.
#[verifier::ext_equal]
pub enum EffectView {
    Broadcast(GreeterEventView),
    PostError { code: ErrorCode, text: Seq<char> },
    StartHelper { username: Seq<char>, tty: Seq<char>, vt: u32 },
    Respond { id: u32, response: Seq<char> },
    DropHelper,
    SendLaunch { session: SessionView, extra_env: Seq<(Seq<char>, Seq<char>)>, vt: u32 },
    ArmTimer { delay: u64, generation: u64, reason: Seq<char> },
    DisarmTimer,
    Remember { username: Seq<char>, session_id: Seq<char> },
}

impl View for Effect {
    type V = EffectView;

    open spec fn view(&self) -> EffectView {
        match *self {
            Effect::Broadcast(event) => EffectView::Broadcast(event@),
            Effect::PostError { code, text } => EffectView::PostError { code, text: text@ },
            Effect::StartHelper { username, tty, vt } => EffectView::StartHelper {
                username: username@,
                tty: tty@,
                vt,
            },
            Effect::Respond { id, response } => EffectView::Respond { id, response: response@ },
            Effect::DropHelper => EffectView::DropHelper,
            Effect::SendLaunch { session, extra_env, vt } => EffectView::SendLaunch {
                session: session@,
                extra_env: pairs(extra_env@),
                vt,
            },
            Effect::ArmTimer { delay, generation, reason } => EffectView::ArmTimer {
                delay,
                generation,
                reason: reason@,
            },
            Effect::DisarmTimer => EffectView::DisarmTimer,
            Effect::Remember { username, session_id } => EffectView::Remember {
                username: username@,
                session_id: session_id@,
            },
        }
    }
}

/// What is to be done after a step.
#[derive(Debug)]
pub struct Reply {
    pub action: Action,
    pub effects: Vec<Effect>,
}

/// What a [`Reply`] says, with strings as character sequences.
#[verifier::ext_equal]
pub struct ReplyView {
    pub action: ActionView,
    pub effects: Seq<EffectView>,
}

/// The views of effects.
pub open spec fn effect_views(v: Seq<Effect>) -> Seq<EffectView> {
    Seq::new(v.len(), |i: int| v[i]@)
}

impl View for Reply {
    type V = ReplyView;

    open spec fn view(&self) -> ReplyView {
        ReplyView { action: self.action@, effects: effect_views(self.effects@) }
    }
}

/// The login state machine and the data that is advertised to a greeter.
#[derive(Debug)]
pub struct Login {
    pub users: Vec<User>,
    pub sessions: Vec<Session>,
    pub default_session: Option<String>,
    /// Why the previous launch failed, for the next greeter to show.
    pub last_error: Option<String>,
    pub vt: u32,
    /// Greeter objects currently bound.
    pub bound: Vec<u64>,
    /// Outputs in rank order.
    pub ranked_outputs: Vec<u64>,
    pub phase: Phase,
    /// Whom the helper in flight is for.
    pub auth: Option<String>,
    /// The prompt the greeter is expected to answer.
    pub pending_prompt: Option<u32>,
    /// Failures in a row. A greeter that dies and comes back gets no fresh budget.
    pub failures: usize,
    /// No attempt may start before this instant.
    pub cooldown_until: Option<u64>,
    /// When an attempt was last accepted.
    pub last_attempt: Option<u64>,
    /// When PAM was last given something to work on.
    pub attempt_started: Option<u64>,
    /// Changes with every attempt, so that a timer armed for one cannot act on a
    /// later one.
    pub generation: u64,
    /// The generation that the pending report of a failure was armed for.
    pub failure_timer: Option<u64>,
    /// The session that was chosen, held until the display has been released.
    pub chosen: Option<(Session, Vec<(String, String)>)>,
    /// Set once the helper has been told to launch.
    ///
    /// Decides where a failure to start is reported: before it there is still a
    /// greeter, after it the backend waits for an outcome.
    pub handed_off: bool,
    /// How the session ended, once the helper has said.
    pub session_outcome: Option<SessionOutcome>,
}

/// What a [`Login`] holds, with strings as character sequences.
#[verifier::ext_equal]
pub struct LoginView {
    pub users: Seq<UserView>,
    pub sessions: Seq<SessionView>,
    pub default_session: Option<Seq<char>>,
    pub last_error: Option<Seq<char>>,
    pub vt: u32,
    pub bound: Seq<u64>,
    pub ranked_outputs: Seq<u64>,
    pub phase: Phase,
    pub auth: Option<Seq<char>>,
    pub pending_prompt: Option<u32>,
    pub failures: usize,
    pub cooldown_until: Option<u64>,
    pub last_attempt: Option<u64>,
    pub attempt_started: Option<u64>,
    pub generation: u64,
    pub failure_timer: Option<u64>,
    pub chosen: Option<(SessionView, Seq<(Seq<char>, Seq<char>)>)>,
    pub handed_off: bool,
    pub session_outcome: Option<SessionOutcomeView>,
}

/// The views of users.
pub open spec fn user_views(v: Seq<User>) -> Seq<UserView> {
    Seq::new(v.len(), |i: int| v[i]@)
}

/// The view of a choice that may not be there.
pub open spec fn choice(c: Option<(Session, Vec<(String, String)>)>) -> Option<
    (SessionView, Seq<(Seq<char>, Seq<char>)>),
> {
    match c {
        Some((session, env)) => Some((session@, pairs(env@))),
        None => None,
    }
}

/// The view of an outcome that may not be there.
pub open spec fn maybe_outcome(o: Option<SessionOutcome>) -> Option<SessionOutcomeView> {
    match o {
        Some(o) => Some(o@),
        None => None,
    }
}

impl View for Login {
    type V = LoginView;

    open spec fn view(&self) -> LoginView {
        LoginView {
            users: user_views(self.users@),
            sessions: session_views(self.sessions@),
            default_session: maybe(self.default_session),
            last_error: maybe(self.last_error),
            vt: self.vt,
            bound: self.bound@,
            ranked_outputs: self.ranked_outputs@,
            phase: self.phase,
            auth: maybe(self.auth),
            pending_prompt: self.pending_prompt,
            failures: self.failures,
            cooldown_until: self.cooldown_until,
            last_attempt: self.last_attempt,
            attempt_started: self.attempt_started,
            generation: self.generation,
            failure_timer: self.failure_timer,
            chosen: choice(self.chosen),
            handed_off: self.handed_off,
            session_outcome: maybe_outcome(self.session_outcome),
        }
    }
}

/// An instant that may not be there, no later than a limit.
pub open spec fn no_later(t: Option<u64>, limit: int) -> bool {
    t matches Some(t) ==> t <= limit
}

impl LoginView {
    /// The instants on record leave room for the delays that are added to them.
    pub open spec fn wf(self) -> bool {
        &&& no_later(self.last_attempt, LATEST as int)
        &&& no_later(self.attempt_started, LATEST as int)
        &&& no_later(self.cooldown_until, LATEST + MAX_BACKOFF)
    }

    /// A greeter that waits for the report of a failure will get it: the timer is
    /// armed, and for the attempt that is current.
    pub open spec fn will_be_told(self) -> bool {
        self.phase == Phase::Cooldown ==> self.failure_timer == Some(self.generation)
    }

    /// There is a helper wherever the phase needs one.
    pub open spec fn has_helper(self) -> bool {
        self.phase == Phase::Authenticating || self.phase == Phase::Authenticated
            ==> self.auth is Some
    }

    /// The conversation abandoned. What limits the rate is kept.
    pub open spec fn after_reset(self) -> LoginView {
        LoginView {
            phase: Phase::Idle,
            generation: next_generation(self.generation),
            auth: None,
            pending_prompt: None,
            chosen: None,
            handed_off: false,
            session_outcome: None,
            failure_timer: None,
            ..self
        }
    }

    /// What abandoning the conversation takes.
    pub open spec fn reset_effects(self) -> Seq<EffectView> {
        (if self.auth is Some {
            seq![EffectView::DropHelper]
        } else {
            seq![]
        }) + self.disarm()
    }

    /// What disarming the timer takes.
    pub open spec fn disarm(self) -> Seq<EffectView> {
        if self.failure_timer is Some {
            seq![EffectView::DisarmTimer]
        } else {
            seq![]
        }
    }

    /// A failure is to be reported.
    pub open spec fn awaiting_report(self) -> LoginView {
        LoginView { phase: Phase::Cooldown, failure_timer: Some(self.generation), ..self }
    }

    /// What reporting a failure after a delay takes.
    pub open spec fn report_effects(self, reason: Seq<char>, delay: u64) -> Seq<EffectView> {
        self.disarm().push(
            EffectView::ArmTimer { delay, generation: self.generation, reason },
        )
    }

    /// The delay that a failure now would be reported after.
    pub open spec fn delay(self, now: u64) -> u64 {
        delay_of(self.attempt_started, backoff(self.failures as nat), now) as u64
    }

    /// A new attempt is starting.
    pub open spec fn attempting(self, now: u64) -> LoginView {
        LoginView {
            generation: next_generation(self.generation),
            last_error: None,
            last_attempt: Some(now),
            attempt_started: Some(now),
            ..self
        }
    }
}

/// The generation after one.
pub open spec fn next_generation(generation: u64) -> u64 {
    if generation == u64::MAX {
        0
    } else {
        (generation + 1) as u64
    }
}

/// A reply that asks for nothing.
pub open spec fn silence() -> ReplyView {
    ReplyView { action: ActionView::Nothing, effects: seq![] }
}

/// A reply that only has effects.
pub open spec fn only(effects: Seq<EffectView>) -> ReplyView {
    ReplyView { action: ActionView::Nothing, effects }
}

/// What the helper's event makes of the state, and what is to be done.
///
/// An event of an attempt that was abandoned changes nothing: letting go of the
/// helper is how an attempt is cancelled, and the helper reports that as a failure.
pub open spec fn on_event(l: LoginView, event: AuthEventView, now: u64) -> (LoginView, ReplyView) {
    match event {
        AuthEventView::Prompt { id, text, style } => if l.auth is None {
            (l, silence())
        } else {
            (
                LoginView {
                    pending_prompt: if style.asks() {
                        Some(id)
                    } else {
                        l.pending_prompt
                    },
                    ..l
                },
                only(
                    seq![EffectView::Broadcast(GreeterEventView::Prompt { id, text, style })],
                ),
            )
        },
        AuthEventView::Accepted => if l.auth is None {
            (l, silence())
        } else {
            (
                LoginView {
                    phase: Phase::Authenticated,
                    pending_prompt: None,
                    failures: 0,
                    cooldown_until: None,
                    ..l
                },
                only(seq![EffectView::Broadcast(GreeterEventView::AuthOk)]),
            )
        },
        AuthEventView::Failed(reason) => if l.auth is None {
            (l, silence())
        } else {
            let delay = l.delay(now);
            (
                LoginView {
                    auth: None,
                    pending_prompt: None,
                    failures: if l.failures == usize::MAX {
                        usize::MAX
                    } else {
                        (l.failures + 1) as usize
                    },
                    cooldown_until: Some((now + delay) as u64),
                    ..l
                }.awaiting_report(),
                only(seq![EffectView::DropHelper] + l.report_effects(reason, delay)),
            )
        },
        AuthEventView::SessionStarted { pid: _ } => (l, silence()),
        AuthEventView::SessionEnded { status, ran_for_ms } => (
            LoginView {
                session_outcome: Some(SessionOutcomeView::Ended { status, ran_for_ms }),
                ..l
            },
            silence(),
        ),
        AuthEventView::SessionFailed(reason) => if l.handed_off {
            (
                LoginView { session_outcome: Some(SessionOutcomeView::Failed(reason)), ..l },
                silence(),
            )
        } else {
            (
                LoginView { auth: None, chosen: None, phase: Phase::Idle, ..l },
                ReplyView {
                    action: ActionView::RestartGreeter { error: Some(reason) },
                    effects: if l.auth is Some {
                        seq![EffectView::DropHelper]
                    } else {
                        seq![]
                    },
                },
            )
        },
    }
}

/// A reply without effects or action.
fn quiet() -> (r: Reply)
    ensures
        r@ == silence(),
{
    let r = Reply { action: Action::Nothing, effects: Vec::new() };
    assert(r@ =~= silence());
    r
}

/// A reply with effects only.
fn just(effects: Vec<Effect>) -> (r: Reply)
    ensures
        r@ == only(effect_views(effects@)),
{
    Reply { action: Action::Nothing, effects }
}

/// A reply with one effect only.
fn just_one(effect: Effect) -> (r: Reply)
    ensures
        r@ == only(seq![effect@]),
{
    let mut effects: Vec<Effect> = Vec::new();
    effects.push(effect);
    assert(effect_views(effects@) =~= seq![effect@]);
    just(effects)
}

impl Login {
    /// A login state before any greeter has connected.
    pub fn new(
        users: Vec<User>,
        sessions: Vec<Session>,
        default_session: Option<String>,
        vt: u32,
    ) -> (r: Self)
        ensures
            r@ == (LoginView {
                users: user_views(users@),
                sessions: session_views(sessions@),
                default_session: maybe(default_session),
                last_error: None,
                vt,
                bound: seq![],
                ranked_outputs: seq![],
                phase: Phase::Idle,
                auth: None,
                pending_prompt: None,
                failures: 0,
                cooldown_until: None,
                last_attempt: None,
                attempt_started: None,
                generation: 0,
                failure_timer: None,
                chosen: None,
                handed_off: false,
                session_outcome: None,
            }),
            r@.wf(),
            r@.will_be_told(),
            r@.has_helper(),
    {
        let r = Login {
            users,
            sessions,
            default_session,
            last_error: None,
            vt,
            bound: Vec::new(),
            ranked_outputs: Vec::new(),
            phase: Phase::Idle,
            auth: None,
            pending_prompt: None,
            failures: 0,
            cooldown_until: None,
            last_attempt: None,
            attempt_started: None,
            generation: 0,
            failure_timer: None,
            chosen: None,
            handed_off: false,
            session_outcome: None,
        };
        assert(r@.bound =~= seq![]);
        assert(r@.ranked_outputs =~= seq![]);
        r
    }

    /// Record why the previous launch failed, for the next greeter to show.
    ///
    /// There is no way to clear it from here: only a new attempt does, which is
    /// when the user has visibly moved on.
    pub fn set_last_error(&mut self, error: String)
        ensures
            final(self)@ == (LoginView { last_error: Some(error@), ..old(self)@ }),
    {
        self.last_error = Some(error);
    }

    /// Forget every bound object, used when the greeter process is gone.
    pub fn clear_bindings(&mut self)
        ensures
            final(self)@ == (LoginView { bound: seq![], ..old(self)@ }),
    {
        self.bound = Vec::new();
        assert(self@.bound =~= seq![]);
    }

    /// Refresh the list of users, picking up new accounts and session history.
    pub fn refresh_users(
        &mut self,
        accounts: &Vec<Account>,
        range: UidRange,
        history: &LastSessions,
    )
        ensures
            is_user_list(final(self).users@, accounts@, range, history@),
            final(self)@ == (LoginView { users: user_views(final(self).users@), ..old(self)@ }),
    {
        self.users = discover(accounts, range, history);
    }

    /// Push the effect of disarming the timer, if one is armed.
    fn push_disarm(&self, effects: &mut Vec<Effect>)
        ensures
            effect_views(final(effects)@) == effect_views(old(effects)@) + self@.disarm(),
    {
        let ghost before = effects@;
        if self.failure_timer.is_some() {
            effects.push(Effect::DisarmTimer);
        }
        assert(effect_views(effects@) =~= effect_views(before) + self@.disarm());
    }

    /// Abandon the conversation.
    ///
    /// Keeps what limits the rate: everything a greeter can do to get here,
    /// destroying its object or dying, would otherwise clear the limit. A timer
    /// that is already on its way finds another generation.
    pub fn reset(&mut self) -> (effects: Vec<Effect>)
        ensures
            final(self)@ == old(self)@.after_reset(),
            effect_views(effects@) == old(self)@.reset_effects(),
    {
        let mut effects: Vec<Effect> = Vec::new();
        if self.auth.is_some() {
            effects.push(Effect::DropHelper);
        }
        let ghost first = effects@;
        assert(effect_views(first) =~= if self@.auth is Some {
            seq![EffectView::DropHelper]
        } else {
            seq![]
        });
        self.push_disarm(&mut effects);
        self.phase = Phase::Idle;
        self.generation = self.generation.wrapping_add(1);
        self.auth = None;
        self.pending_prompt = None;
        self.chosen = None;
        self.handed_off = false;
        self.session_outcome = None;
        self.failure_timer = None;
        effects
    }

    /// The backoff that the next failure is reported with.
    pub fn next_backoff(&self) -> (r: u64)
        ensures
            r == backoff(self.failures as nat),
    {
        match self.failures {
            0 => 0,
            1 => SECOND,
            2 => 2_000_000_000,
            3 => 4_000_000_000,
            4 => 8_000_000_000,
            _ => MAX_BACKOFF,
        }
    }

    /// The delay that a failure now is reported after.
    fn current_delay(&self, now: u64) -> (r: u64)
        requires
            self@.wf(),
            now <= LATEST,
        ensures
            r == self@.delay(now),
            r == delay_of(self.attempt_started, backoff(self.failures as nat), now),
            now + r <= LATEST + MAX_BACKOFF,
    {
        failure_delay(self.attempt_started, self.next_backoff(), now)
    }

    /// Report a failure once `delay` has elapsed.
    ///
    /// Reporting late is the rate limit: a greeter cannot tell a cooldown from an
    /// attempt until it hears how the last one went. There is one pending report
    /// at a time, and it is tagged with the attempt it is for.
    pub fn report_failure_after(&mut self, reason: String, delay: u64) -> (effects: Vec<Effect>)
        ensures
            final(self)@ == old(self)@.awaiting_report(),
            effect_views(effects@) == old(self)@.report_effects(reason@, delay),
    {
        let mut effects: Vec<Effect> = Vec::new();
        self.push_disarm(&mut effects);
        let ghost before = effects@;
        effects.push(Effect::ArmTimer { delay, generation: self.generation, reason });
        assert(effect_views(effects@) =~= self@.report_effects(reason@, delay));
        self.phase = Phase::Cooldown;
        self.failure_timer = Some(self.generation);
        effects
    }

    /// Handle an event from the PAM helper.
    pub fn handle_auth_event(&mut self, event: AuthEvent, now: u64) -> (r: Reply)
        requires
            old(self)@.wf(),
            now <= LATEST,
        ensures
            (final(self)@, r@) == on_event(old(self)@, event@, now),
            final(self)@.wf(),
    {
        match event {
            AuthEvent::Prompt { id, text, style } => {
                if self.auth.is_none() {
                    return quiet();
                }
                if style.expects_response() {
                    self.pending_prompt = Some(id);
                }
                just_one(Effect::Broadcast(GreeterEvent::Prompt { id, text, style }))
            },
            AuthEvent::Accepted => {
                if self.auth.is_none() {
                    return quiet();
                }
                self.phase = Phase::Authenticated;
                self.pending_prompt = None;
                self.failures = 0;
                self.cooldown_until = None;
                just_one(Effect::Broadcast(GreeterEvent::AuthOk))
            },
            AuthEvent::Failed(reason) => self.attempt_failed(reason, now),
            AuthEvent::SessionStarted { pid: _ } => quiet(),
            AuthEvent::SessionEnded { status, ran_for_ms } => {
                self.session_outcome = Some(SessionOutcome::Ended { status, ran_for_ms });
                quiet()
            },
            AuthEvent::SessionFailed(reason) => self.session_failed(reason),
        }
    }

    fn attempt_failed(&mut self, reason: String, now: u64) -> (r: Reply)
        requires
            old(self)@.wf(),
            now <= LATEST,
        ensures
            (final(self)@, r@) == on_event(old(self)@, AuthEventView::Failed(reason@), now),
            final(self)@.wf(),
    {
        if self.auth.is_none() {
            return quiet();
        }
        let ghost before = self@;
        let delay = self.current_delay(now);
        self.auth = None;
        self.pending_prompt = None;
        self.failures = self.failures.saturating_add(1);
        self.cooldown_until = Some(now + delay);
        let mut effects: Vec<Effect> = Vec::new();
        effects.push(Effect::DropHelper);
        let ghost first = effects@;
        let mut report = self.report_failure_after(reason, delay);
        let ghost second = report@;
        effects.append(&mut report);
        assert(effect_views(effects@) =~= seq![EffectView::DropHelper] + before.report_effects(
            reason@,
            delay,
        )) by {
            assert(effect_views(effects@) =~= effect_views(first) + effect_views(second));
            assert(effect_views(first) =~= seq![EffectView::DropHelper]);
        }
        just(effects)
    }

    fn session_failed(&mut self, reason: String) -> (r: Reply)
        ensures
            (final(self)@, r@) == on_event(old(self)@, AuthEventView::SessionFailed(reason@), 0),
    {
        if self.handed_off {
            self.session_outcome = Some(SessionOutcome::Failed(reason));
            return quiet();
        }
        let mut effects: Vec<Effect> = Vec::new();
        if self.auth.is_some() {
            effects.push(Effect::DropHelper);
        }
        let r = Reply { action: Action::RestartGreeter { error: Some(reason) }, effects };
        assert(effect_views(r.effects@) =~= if self@.auth is Some {
            seq![EffectView::DropHelper]
        } else {
            seq![]
        });
        self.auth = None;
        self.chosen = None;
        self.phase = Phase::Idle;
        r
    }
}

/// What is left of a wait that began at an instant, if it is not over.
pub open spec fn remaining(from: Option<u64>, span: u64, now: u64) -> Option<u64> {
    match from {
        Some(t) => if now <= t + span {
            Some((t + span - now) as u64)
        } else {
            None
        },
        None => None,
    }
}

/// The longer of two waits.
pub open spec fn longer(a: Option<u64>, b: Option<u64>) -> Option<u64> {
    match (a, b) {
        (Some(x), Some(y)) => if x >= y {
            Some(x)
        } else {
            Some(y)
        },
        (Some(x), None) => Some(x),
        (None, b) => b,
    }
}

impl LoginView {
    /// How long a new attempt has to wait, if it has to.
    pub open spec fn must_wait(self, now: u64) -> Option<u64> {
        longer(
            remaining(self.cooldown_until, 0, now),
            remaining(self.last_attempt, MIN_ATTEMPT_INTERVAL, now),
        )
    }
}

impl Login {
    /// How long an attempt must wait, if failures limit the rate.
    pub fn rate_limited(&self, now: u64) -> (r: Option<u64>)
        ensures
            r == remaining(self.cooldown_until, 0, now),
    {
        match self.cooldown_until {
            Some(until) => if now <= until {
                Some(until - now)
            } else {
                None
            },
            None => None,
        }
    }

    /// How long until another attempt may be accepted, if the last was too recent.
    ///
    /// The limit a cancelled attempt pays, which nothing but waiting escapes.
    pub fn too_soon(&self, now: u64) -> (r: Option<u64>)
        requires
            self@.wf(),
        ensures
            r == remaining(self.last_attempt, MIN_ATTEMPT_INTERVAL, now),
    {
        match self.last_attempt {
            Some(t) => if now <= t + MIN_ATTEMPT_INTERVAL {
                Some(t + MIN_ATTEMPT_INTERVAL - now)
            } else {
                None
            },
            None => None,
        }
    }

    /// Both limits together.
    fn wait(&self, now: u64) -> (r: Option<u64>)
        requires
            self@.wf(),
        ensures
            r == self@.must_wait(now),
    {
        match (self.rate_limited(now), self.too_soon(now)) {
            (Some(x), Some(y)) => if x >= y {
                Some(x)
            } else {
                Some(y)
            },
            (Some(x), None) => Some(x),
            (None, b) => b,
        }
    }

    /// Note that a new attempt is starting.
    ///
    /// Whatever was armed for the previous attempt becomes void, the error the
    /// user has moved on from is cleared, the minimum interval is charged, and the
    /// clock a failure is reported against starts.
    pub fn begin_attempt(&mut self, now: u64)
        ensures
            final(self)@ == old(self)@.attempting(now),
    {
        self.generation = self.generation.wrapping_add(1);
        self.last_error = None;
        self.last_attempt = Some(now);
        self.attempt_started = Some(now);
    }
}

/// A greeter asks for a conversation about a user.
///
/// A name that was never advertised is not refused: that would answer whether the
/// account exists. A request that comes too soon is not refused at once either,
/// but answered as a failure once the limit has passed.
pub open spec fn on_create(l: LoginView, username: Seq<char>, now: u64) -> (LoginView, ReplyView) {
    if l.phase == Phase::Authenticating || l.phase == Phase::Launching {
        (
            l,
            only(
                seq![
                    EffectView::PostError {
                        code: ErrorCode::AuthInProgress,
                        text: "a conversation is already in progress"@,
                    },
                ],
            ),
        )
    } else {
        let over = l.phase == Phase::Authenticated;
        let base = if over {
            l.after_reset()
        } else {
            l
        };
        let first = if over {
            l.reset_effects()
        } else {
            seq![]
        };
        match base.must_wait(now) {
            Some(wait) => (
                base.awaiting_report(),
                only(first + base.report_effects("too many attempts"@, wait)),
            ),
            None => (
                base.attempting(now),
                only(
                    first.push(
                        EffectView::StartHelper {
                            username,
                            tty: "/dev/tty"@ + decimal(l.vt as nat),
                            vt: l.vt,
                        },
                    ),
                ),
            ),
        }
    }
}

/// Whether the helper of an attempt could be started is known.
pub open spec fn on_helper(l: LoginView, username: Seq<char>, started: bool, now: u64) -> (
    LoginView,
    ReplyView,
) {
    if started {
        (LoginView { auth: Some(username), phase: Phase::Authenticating, ..l }, silence())
    } else {
        (
            l.awaiting_report(),
            only(l.report_effects("could not start authentication"@, l.delay(now))),
        )
    }
}

/// A greeter answers a prompt.
pub open spec fn on_respond(l: LoginView, id: u32, response: Seq<char>, now: u64) -> (
    LoginView,
    ReplyView,
) {
    if l.phase != Phase::Authenticating {
        (
            l,
            only(
                seq![
                    EffectView::PostError {
                        code: ErrorCode::NoAuth,
                        text: "respond with no conversation in progress"@,
                    },
                ],
            ),
        )
    } else if l.pending_prompt != Some(id) {
        (
            l,
            only(
                seq![
                    EffectView::PostError {
                        code: ErrorCode::StalePrompt,
                        text: "respond carried an id that is not the pending prompt"@,
                    },
                ],
            ),
        )
    } else {
        let answered = LoginView { pending_prompt: None, attempt_started: Some(now), ..l };
        if l.auth is None {
            (
                answered.awaiting_report(),
                only(
                    answered.report_effects(
                        "the login attempt was interrupted"@,
                        answered.delay(now),
                    ),
                ),
            )
        } else {
            (answered, only(seq![EffectView::Respond { id, response }]))
        }
    }
}

/// A greeter abandons its conversation.
pub open spec fn on_cancel(l: LoginView) -> (LoginView, ReplyView) {
    (
        l.after_reset(),
        ReplyView {
            action: if l.phase == Phase::Launching {
                ActionView::RestartGreeter {
                    error: Some("the login was cancelled while starting the session"@),
                }
            } else {
                ActionView::Nothing
            },
            effects: l.reset_effects(),
        },
    )
}

/// The first session of an id.
pub open spec fn session_named(sessions: Seq<SessionView>, id: Seq<char>) -> Option<SessionView>
    decreases sessions.len(),
{
    if sessions.len() == 0 {
        None
    } else if sessions[0].id == id {
        Some(sessions[0])
    } else {
        session_named(sessions.skip(1), id)
    }
}

/// A greeter asks for a session to be started.
///
/// `env` is what its environment decodes to, or why it does not, and `account`
/// what the user database holds under the authenticated name.
pub open spec fn on_start(
    l: LoginView,
    session_id: Seq<char>,
    env: Result<Seq<(Seq<char>, Seq<char>)>, Seq<char>>,
    account: Option<Account>,
    range: UidRange,
) -> (LoginView, ReplyView) {
    if l.phase != Phase::Authenticated {
        (
            l,
            only(
                seq![
                    EffectView::PostError {
                        code: ErrorCode::NoAuth,
                        text: "start_session before authentication succeeded"@,
                    },
                ],
            ),
        )
    } else {
        match session_named(l.sessions, session_id) {
            None => (
                l,
                only(
                    seq![
                        EffectView::PostError {
                            code: ErrorCode::InvalidSession,
                            text: "no such session: "@ + session_id,
                        },
                    ],
                ),
            ),
            Some(session) => match env {
                Err(text) => (
                    l,
                    only(seq![EffectView::PostError { code: ErrorCode::InvalidEnv, text }]),
                ),
                Ok(env) => on_valid_start(l, session, env, account, range),
            },
        }
    }
}

/// A session was asked for that there is, with an environment that is one.
pub open spec fn on_valid_start(
    l: LoginView,
    session: SessionView,
    env: Seq<(Seq<char>, Seq<char>)>,
    account: Option<Account>,
    range: UidRange,
) -> (LoginView, ReplyView) {
    match l.auth {
        None => refused_start(l, "the login attempt expired, please try again"@),
        Some(username) => match refusal(session, username, account, range) {
            Some(why) => refused_start(l, sentence(why)),
            None => (
                LoginView { chosen: Some((session, env)), phase: Phase::Launching, ..l },
                ReplyView {
                    action: ActionView::Launch { username },
                    effects: seq![
                        EffectView::Remember { username, session_id: session.id },
                    ],
                },
            ),
        },
    }
}

/// A session cannot be started and the greeter is restarted to say why.
pub open spec fn refused_start(l: LoginView, error: Seq<char>) -> (LoginView, ReplyView) {
    (
        l.after_reset(),
        ReplyView {
            action: ActionView::RestartGreeter { error: Some(error) },
            effects: l.reset_effects(),
        },
    )
}

impl Login {
    /// A greeter asks for a conversation about a user.
    pub fn create_session(&mut self, username: String, now: u64) -> (r: Reply)
        requires
            old(self)@.wf(),
            now <= LATEST,
        ensures
            (final(self)@, r@) == on_create(old(self)@, username@, now),
            final(self)@.wf(),
    {
        let mut effects: Vec<Effect> = Vec::new();
        match self.phase {
            Phase::Idle | Phase::Cooldown => {},
            Phase::Authenticated => {
                effects = self.reset();
            },
            Phase::Authenticating | Phase::Launching => {
                return just_one(
                    Effect::PostError {
                        code: ErrorCode::AuthInProgress,
                        text: "a conversation is already in progress".to_owned(),
                    },
                );
            },
        }
        let ghost first = effect_views(effects@);
        let ghost base = self@;
        proof {
            let over = old(self)@.phase == Phase::Authenticated;
            assert(first =~= if over {
                old(self)@.reset_effects()
            } else {
                seq![]
            });
        }
        match self.wait(now) {
            Some(wait) => {
                let mut report = self.report_failure_after("too many attempts".to_owned(), wait);
                let ghost second = effect_views(report@);
                effects.append(&mut report);
                assert(effect_views(effects@) =~= first + second);
                just(effects)
            },
            None => {
                let mut tty = "/dev/tty".to_owned();
                push_str(&mut tty, &number(self.vt as u64));
                self.begin_attempt(now);
                effects.push(Effect::StartHelper { username, tty, vt: self.vt });
                assert(effect_views(effects@) =~= first.push(
                    EffectView::StartHelper {
                        username: username@,
                        tty: "/dev/tty"@ + decimal(base.vt as nat),
                        vt: base.vt,
                    },
                ));
                just(effects)
            },
        }
    }

    /// Whether the helper that was asked for could be started.
    pub fn helper_answered(&mut self, username: String, started: bool, now: u64) -> (r: Reply)
        requires
            old(self)@.wf(),
            now <= LATEST,
        ensures
            (final(self)@, r@) == on_helper(old(self)@, username@, started, now),
            final(self)@.wf(),
    {
        if started {
            self.auth = Some(username);
            self.phase = Phase::Authenticating;
            quiet()
        } else {
            let delay = self.current_delay(now);
            let effects = self.report_failure_after(
                "could not start authentication".to_owned(),
                delay,
            );
            just(effects)
        }
    }

    /// A greeter answers a prompt.
    ///
    /// The clock a failure is reported against restarts here, because this is what
    /// hands PAM the secret.
    pub fn respond(&mut self, id: u32, response: String, now: u64) -> (r: Reply)
        requires
            old(self)@.wf(),
            now <= LATEST,
        ensures
            (final(self)@, r@) == on_respond(old(self)@, id, response@, now),
            final(self)@.wf(),
    {
        if self.phase != Phase::Authenticating {
            return just_one(
                Effect::PostError {
                    code: ErrorCode::NoAuth,
                    text: "respond with no conversation in progress".to_owned(),
                },
            );
        }
        let expected: bool = match self.pending_prompt {
            Some(pending) => pending == id,
            None => false,
        };
        if !expected {
            return just_one(
                Effect::PostError {
                    code: ErrorCode::StalePrompt,
                    text: "respond carried an id that is not the pending prompt".to_owned(),
                },
            );
        }
        self.pending_prompt = None;
        self.attempt_started = Some(now);
        if self.auth.is_none() {
            let delay = self.current_delay(now);
            let effects = self.report_failure_after(
                "the login attempt was interrupted".to_owned(),
                delay,
            );
            return just(effects);
        }
        just_one(Effect::Respond { id, response })
    }

    /// A greeter abandons its conversation, without hearing of a result.
    pub fn cancel(&mut self) -> (r: Reply)
        ensures
            (final(self)@, r@) == on_cancel(old(self)@),
    {
        let was_launching = self.phase == Phase::Launching;
        let effects = self.reset();
        let action: Action = if was_launching {
            Action::RestartGreeter {
                error: Some("the login was cancelled while starting the session".to_owned()),
            }
        } else {
            Action::Nothing
        };
        Reply { action, effects }
    }

    /// Restart the greeter to say why a session cannot be started.
    fn refuse_start(&mut self, error: String) -> (r: Reply)
        ensures
            (final(self)@, r@) == refused_start(old(self)@, error@),
    {
        let effects = self.reset();
        Reply { action: Action::RestartGreeter { error: Some(error) }, effects }
    }

    /// The session of an id.
    fn find_session(&self, id: &str) -> (r: Option<Session>)
        ensures
            match r {
                Some(session) => session_named(self@.sessions, id@) == Some(session@),
                None => session_named(self@.sessions, id@) is None,
            },
    {
        let ghost all = self@.sessions;
        assert(all.skip(0) =~= all);
        for i in 0..self.sessions.len()
            invariant
                all == session_views(self.sessions@),
                session_named(all, id@) == session_named(all.skip(i as int), id@),
        {
            proof {
                assert(all.skip(i as int).skip(1) =~= all.skip(i as int + 1));
                assert(all.skip(i as int)[0] == self.sessions@[i as int]@);
            }
            if same(&self.sessions[i].id, id) {
                return Some(self.sessions[i].clone());
            }
        }
        None
    }

    /// A greeter asks for a session to be started.
    ///
    /// Everything is validated while there is still a greeter on screen to be
    /// told. What was chosen is held, not sent: the helper is told by
    /// [`Login::launch`], once the display has been released.
    pub fn start_session(
        &mut self,
        session_id: &str,
        env: Result<Vec<(String, String)>, String>,
        account: &Option<Account>,
        range: UidRange,
    ) -> (r: Reply)
        ensures
            (final(self)@, r@) == on_start(
                old(self)@,
                session_id@,
                decoded_env(env),
                *account,
                range,
            ),
    {
        if self.phase != Phase::Authenticated {
            return just_one(
                Effect::PostError {
                    code: ErrorCode::NoAuth,
                    text: "start_session before authentication succeeded".to_owned(),
                },
            );
        }
        let session = match self.find_session(session_id) {
            Some(session) => session,
            None => {
                let mut text = "no such session: ".to_owned();
                push_str(&mut text, session_id);
                return just_one(Effect::PostError { code: ErrorCode::InvalidSession, text });
            },
        };
        let extra_env = match env {
            Ok(env) => env,
            Err(text) => {
                return just_one(Effect::PostError { code: ErrorCode::InvalidEnv, text });
            },
        };
        let username: String = match &self.auth {
            Some(username) => username.clone(),
            None => {
                return self.refuse_start(
                    "the login attempt expired, please try again".to_owned(),
                );
            },
        };
        match Launch::validate(&session, &username, account, range) {
            Ok(_) => {},
            Err(e) => {
                return self.refuse_start(e.message());
            },
        }
        let mut effects: Vec<Effect> = Vec::new();
        effects.push(
            Effect::Remember { username: username.clone(), session_id: session.id.clone() },
        );
        assert(effect_views(effects@) =~= seq![
            EffectView::Remember { username: username@, session_id: session.id@ },
        ]);
        self.chosen = Some((session, extra_env));
        self.phase = Phase::Launching;
        Reply { action: Action::Launch { username }, effects }
    }
}

/// The view of an environment that may not decode.
pub open spec fn decoded_env(env: Result<Vec<(String, String)>, String>) -> Result<
    Seq<(Seq<char>, Seq<char>)>,
    Seq<char>,
> {
    match env {
        Ok(env) => Ok(pairs(env@)),
        Err(text) => Err(text@),
    }
}

/// What a greeter can ask for.
pub enum Request {
    CreateSession { username: String },
    Respond { id: u32, response: String },
    Cancel,
    /// Start a session; `env` is what the environment decodes to, or why it does
    /// not, and `account` what the database holds under the authenticated name.
    StartSession {
        session_id: String,
        env: Result<Vec<(String, String)>, String>,
        account: Option<Account>,
        range: UidRange,
    },
    /// Destroy the greeter object, which cancels.
    Destroy,
}

/// What a [`Request`] says, with strings as character sequences.
pub enum RequestView {
    CreateSession { username: Seq<char> },
    Respond { id: u32, response: Seq<char> },
    Cancel,
    StartSession {
        session_id: Seq<char>,
        env: Result<Seq<(Seq<char>, Seq<char>)>, Seq<char>>,
        account: Option<Account>,
        range: UidRange,
    },
    Destroy,
}

impl View for Request {
    type V = RequestView;

    open spec fn view(&self) -> RequestView {
        match *self {
            Request::CreateSession { username } => RequestView::CreateSession {
                username: username@,
            },
            Request::Respond { id, response } => RequestView::Respond { id, response: response@ },
            Request::Cancel => RequestView::Cancel,
            Request::StartSession { session_id, env, account, range } => RequestView::StartSession {
                session_id: session_id@,
                env: decoded_env(env),
                account,
                range,
            },
            Request::Destroy => RequestView::Destroy,
        }
    }
}

/// What a greeter's request makes of the state, and what is to be done.
///
/// Once the helper has been told to launch, nothing a greeter says counts: what it
/// wrote before it was killed must not discard the outcome that is waited for.
pub open spec fn on_request(l: LoginView, request: RequestView, now: u64) -> (
    LoginView,
    ReplyView,
) {
    if l.handed_off {
        (l, silence())
    } else {
        match request {
            RequestView::CreateSession { username } => on_create(l, username, now),
            RequestView::Respond { id, response } => on_respond(l, id, response, now),
            RequestView::Cancel => on_cancel(l),
            RequestView::StartSession { session_id, env, account, range } => on_start(
                l,
                session_id,
                env,
                account,
                range,
            ),
            RequestView::Destroy => on_cancel(l),
        }
    }
}

/// The timer of a failure fired.
pub open spec fn on_timer(l: LoginView, generation: u64, reason: Seq<char>) -> (
    LoginView,
    ReplyView,
) {
    if l.generation == generation && l.phase == Phase::Cooldown {
        (
            LoginView { failure_timer: None, phase: Phase::Idle, ..l },
            only(seq![EffectView::Broadcast(GreeterEventView::AuthFailed { reason })]),
        )
    } else {
        (LoginView { failure_timer: None, ..l }, silence())
    }
}

/// The timer of a failure could not be armed.
pub open spec fn on_unarmed(l: LoginView) -> (LoginView, ReplyView) {
    (
        LoginView { failure_timer: None, phase: Phase::Idle, ..l },
        only(
            seq![
                EffectView::Broadcast(
                    GreeterEventView::AuthFailed { reason: "authentication failed"@ },
                ),
            ],
        ),
    )
}

/// The display has been released and the session is to be launched: what becomes
/// of the state, and whether the helper is told.
pub open spec fn on_launch(l: LoginView) -> (LoginView, bool) {
    match l.chosen {
        None => (
            LoginView {
                session_outcome: Some(SessionOutcomeView::Failed("no session was chosen"@)),
                ..l
            },
            false,
        ),
        Some(_) => if l.auth is None {
            (
                LoginView {
                    chosen: None,
                    session_outcome: Some(
                        SessionOutcomeView::Failed(
                            "the login attempt expired before the session could start"@,
                        ),
                    ),
                    ..l
                },
                false,
            )
        } else {
            (LoginView { chosen: None, handed_off: true, ..l }, true)
        },
    }
}

impl Login {
    /// Handle a greeter's request.
    pub fn request(&mut self, request: Request, now: u64) -> (r: Reply)
        requires
            old(self)@.wf(),
            now <= LATEST,
        ensures
            (final(self)@, r@) == on_request(old(self)@, request@, now),
            final(self)@.wf(),
    {
        if self.handed_off {
            return quiet();
        }
        match request {
            Request::CreateSession { username } => self.create_session(username, now),
            Request::Respond { id, response } => self.respond(id, response, now),
            Request::Cancel => self.cancel(),
            Request::StartSession { session_id, env, account, range } => self.start_session(
                &session_id,
                env,
                &account,
                range,
            ),
            Request::Destroy => self.cancel(),
        }
    }

    /// The timer of a failure fired, armed for an attempt with a reason.
    pub fn timer_fired(&mut self, generation: u64, reason: String) -> (r: Reply)
        ensures
            (final(self)@, r@) == on_timer(old(self)@, generation, reason@),
    {
        self.failure_timer = None;
        if self.generation == generation && self.phase == Phase::Cooldown {
            self.phase = Phase::Idle;
            just_one(Effect::Broadcast(GreeterEvent::AuthFailed { reason }))
        } else {
            quiet()
        }
    }

    /// The timer of a failure could not be armed.
    ///
    /// The failure would never be reported and the greeter would hang, so it is
    /// reported at once. The limits still apply.
    pub fn timer_not_armed(&mut self) -> (r: Reply)
        ensures
            (final(self)@, r@) == on_unarmed(old(self)@),
    {
        self.failure_timer = None;
        self.phase = Phase::Idle;
        just_one(
            Effect::Broadcast(
                GreeterEvent::AuthFailed { reason: "authentication failed".to_owned() },
            ),
        )
    }

    /// Tell the helper to open the PAM session and run the chosen session.
    ///
    /// Only to be called once the display has been released: opening a session
    /// runs modules that may take the compositor's device state with them. Returns
    /// what to send, or nothing where the wait for an outcome is over already.
    pub fn launch(&mut self) -> (r: Option<Effect>)
        ensures
            final(self)@ == on_launch(old(self)@).0,
            r is Some <==> on_launch(old(self)@).1,
            r matches Some(effect) ==> effect@ == (EffectView::SendLaunch {
                session: (old(self)@.chosen->0).0,
                extra_env: (old(self)@.chosen->0).1,
                vt: old(self)@.vt,
            }),
    {
        let mut held: Option<(Session, Vec<(String, String)>)> = None;
        std::mem::swap(&mut held, &mut self.chosen);
        match held {
            None => {
                self.session_outcome = Some(
                    SessionOutcome::Failed("no session was chosen".to_owned()),
                );
                None
            },
            Some((session, extra_env)) => {
                if self.auth.is_none() {
                    self.session_outcome = Some(
                        SessionOutcome::Failed(
                            "the login attempt expired before the session could start".to_owned(),
                        ),
                    );
                    return None;
                }
                self.handed_off = true;
                Some(Effect::SendLaunch { session, extra_env, vt: self.vt })
            },
        }
    }

    /// Take how the session ended, if the helper has said yet.
    pub fn take_session_outcome(&mut self) -> (r: Option<SessionOutcome>)
        ensures
            maybe_outcome(r) == old(self)@.session_outcome,
            final(self)@ == (LoginView { session_outcome: None, ..old(self)@ }),
    {
        let mut outcome: Option<SessionOutcome> = None;
        std::mem::swap(&mut outcome, &mut self.session_outcome);
        outcome
    }

    /// Dismiss the helper now the session is over.
    pub fn end_session(&mut self) -> (effects: Vec<Effect>)
        ensures
            final(self)@ == (LoginView { auth: None, ..old(self)@ }),
            effect_views(effects@) == (if old(self)@.auth is Some {
                seq![EffectView::DropHelper]
            } else {
                seq![]
            }),
    {
        let mut effects: Vec<Effect> = Vec::new();
        if self.auth.is_some() {
            effects.push(Effect::DropHelper);
        }
        assert(effect_views(effects@) =~= if self@.auth is Some {
            seq![EffectView::DropHelper]
        } else {
            seq![]
        });
        self.auth = None;
        effects
    }
}

/// What a freshly bound greeter is told.
#[derive(Debug)]
pub enum Announcement {
    User { name: String, display_name: String, avatar_path: String, last_session: String },
    DefaultSession(String),
    Session { id: String, name: String, command: String, session_type: SessionType },
    /// The rank of an output, for those of its resources the greeter has bound.
    Rank { output: u64, rank: usize },
    LastError(String),
    Done,
}

/// What an [`Announcement`] says, with strings as character sequences.
#[verifier::ext_equal]
pub enum AnnouncementView {
    User {
        name: Seq<char>,
        display_name: Seq<char>,
        avatar_path: Seq<char>,
        last_session: Seq<char>,
    },
    DefaultSession(Seq<char>),
    Session { id: Seq<char>, name: Seq<char>, command: Seq<char>, session_type: SessionType },
    Rank { output: u64, rank: usize },
    LastError(Seq<char>),
    Done,
}

impl View for Announcement {
    type V = AnnouncementView;

    open spec fn view(&self) -> AnnouncementView {
        match *self {
            Announcement::User { name, display_name, avatar_path, last_session } => {
                AnnouncementView::User {
                    name: name@,
                    display_name: display_name@,
                    avatar_path: avatar_path@,
                    last_session: last_session@,
                }
            },
            Announcement::DefaultSession(id) => AnnouncementView::DefaultSession(id@),
            Announcement::Session { id, name, command, session_type } => {
                AnnouncementView::Session {
                    id: id@,
                    name: name@,
                    command: command@,
                    session_type,
                }
            },
            Announcement::Rank { output, rank } => AnnouncementView::Rank { output, rank },
            Announcement::LastError(error) => AnnouncementView::LastError(error@),
            Announcement::Done => AnnouncementView::Done,
        }
    }
}

/// The views of announcements.
pub open spec fn announcement_views(v: Seq<Announcement>) -> Seq<AnnouncementView> {
    Seq::new(v.len(), |i: int| v[i]@)
}

impl LoginView {
    /// The users, as a peer of some version is told of them.
    pub open spec fn announced_users(self, version: u32) -> Seq<AnnouncementView> {
        Seq::new(
            self.users.len(),
            |i: int|
                AnnouncementView::User {
                    name: self.users[i].name,
                    display_name: self.users[i].display_name,
                    avatar_path: self.users[i].avatar_path,
                    last_session: reported_session(
                        version,
                        self.users[i].last_session,
                        self.default_session,
                    ),
                },
        )
    }

    /// The machine-wide default, for a peer that knows of one.
    pub open spec fn announced_default(self, version: u32) -> Seq<AnnouncementView> {
        if version >= DEFAULT_SESSION_SINCE {
            seq![
                AnnouncementView::DefaultSession(
                    match self.default_session {
                        Some(id) => id,
                        None => seq![],
                    },
                ),
            ]
        } else {
            seq![]
        }
    }

    /// The sessions on offer.
    pub open spec fn announced_sessions(self) -> Seq<AnnouncementView> {
        Seq::new(
            self.sessions.len(),
            |i: int|
                AnnouncementView::Session {
                    id: self.sessions[i].id,
                    name: self.sessions[i].name,
                    command: self.sessions[i].command,
                    session_type: self.sessions[i].session_type,
                },
        )
    }

    /// The ranks of the outputs, contiguous from 0.
    pub open spec fn announced_ranks(self) -> Seq<AnnouncementView> {
        Seq::new(
            self.ranked_outputs.len(),
            |i: int| AnnouncementView::Rank { output: self.ranked_outputs[i], rank: i as usize },
        )
    }

    /// Why the last launch failed, if it did.
    ///
    /// Not forgotten on being told, so that it reaches a greeter that binds again.
    pub open spec fn announced_error(self) -> Seq<AnnouncementView> {
        match self.last_error {
            Some(error) => seq![AnnouncementView::LastError(error)],
            None => seq![],
        }
    }

    /// Everything a freshly bound greeter is told, in order.
    pub open spec fn announced(self, version: u32) -> Seq<AnnouncementView> {
        (self.announced_users(version) + self.announced_default(version)
            + self.announced_sessions() + self.announced_ranks() + self.announced_error()).push(
            AnnouncementView::Done,
        )
    }
}

impl Login {
    fn announce_users(&self, version: u32) -> (r: Vec<Announcement>)
        ensures
            announcement_views(r@) == self@.announced_users(version),
    {
        let default: Option<&str> = match &self.default_session {
            Some(id) => Some(id.as_str()),
            None => None,
        };
        let mut r: Vec<Announcement> = Vec::new();
        for i in 0..self.users.len()
            invariant
                default matches Some(id) ==> self@.default_session == Some(id@),
                default is None ==> self@.default_session is None,
                r@.len() == i,
                announcement_views(r@) == self@.announced_users(version).take(i as int),
        {
            let user = &self.users[i];
            let ghost before = r@;
            r.push(
                Announcement::User {
                    name: user.name.clone(),
                    display_name: user.display_name.clone(),
                    avatar_path: user.avatar_path.clone(),
                    last_session: last_session_for(version, &user.last_session, default),
                },
            );
            proof {
                assert(r@[i as int]@ == self@.announced_users(version)[i as int]);
                assert(announcement_views(r@) =~= announcement_views(before).push(r@[i as int]@));
                assert(self@.announced_users(version).take(i as int + 1)
                    =~= self@.announced_users(version).take(i as int).push(r@[i as int]@));
            }
        }
        proof {
            assert(self@.announced_users(version).take(self.users@.len() as int)
                =~= self@.announced_users(version));
        }
        r
    }

    fn announce_sessions(&self) -> (r: Vec<Announcement>)
        ensures
            announcement_views(r@) == self@.announced_sessions(),
    {
        let mut r: Vec<Announcement> = Vec::new();
        for i in 0..self.sessions.len()
            invariant
                r@.len() == i,
                announcement_views(r@) == self@.announced_sessions().take(i as int),
        {
            let session = &self.sessions[i];
            let ghost before = r@;
            r.push(
                Announcement::Session {
                    id: session.id.clone(),
                    name: session.name.clone(),
                    command: session.command.clone(),
                    session_type: session.session_type,
                },
            );
            proof {
                assert(r@[i as int]@ == self@.announced_sessions()[i as int]);
                assert(announcement_views(r@) =~= announcement_views(before).push(r@[i as int]@));
                assert(self@.announced_sessions().take(i as int + 1)
                    =~= self@.announced_sessions().take(i as int).push(r@[i as int]@));
            }
        }
        proof {
            assert(self@.announced_sessions().take(self.sessions@.len() as int)
                =~= self@.announced_sessions());
        }
        r
    }

    /// The rank of every output, to be told to a greeter that is bound.
    pub fn output_ranks(&self) -> (r: Vec<Announcement>)
        ensures
            announcement_views(r@) == self@.announced_ranks(),
    {
        let mut r: Vec<Announcement> = Vec::new();
        for i in 0..self.ranked_outputs.len()
            invariant
                r@.len() == i,
                announcement_views(r@) == self@.announced_ranks().take(i as int),
        {
            let ghost before = r@;
            r.push(Announcement::Rank { output: self.ranked_outputs[i], rank: i });
            proof {
                assert(r@[i as int]@ == self@.announced_ranks()[i as int]);
                assert(announcement_views(r@) =~= announcement_views(before).push(r@[i as int]@));
                assert(self@.announced_ranks().take(i as int + 1)
                    =~= self@.announced_ranks().take(i as int).push(r@[i as int]@));
            }
        }
        proof {
            assert(self@.announced_ranks().take(self.ranked_outputs@.len() as int)
                =~= self@.announced_ranks());
        }
        r
    }

    /// Everything a freshly bound greeter is told.
    fn initial_state(&self, version: u32) -> (r: Vec<Announcement>)
        ensures
            announcement_views(r@) == self@.announced(version),
    {
        let mut all = self.announce_users(version);
        let ghost a = announcement_views(all@);
        if version >= DEFAULT_SESSION_SINCE {
            let id: String = match &self.default_session {
                Some(id) => id.clone(),
                None => String::new(),
            };
            all.push(Announcement::DefaultSession(id));
        }
        assert(announcement_views(all@) =~= a + self@.announced_default(version));
        let ghost b = announcement_views(all@);
        let mut sessions = self.announce_sessions();
        let ghost c = announcement_views(sessions@);
        all.append(&mut sessions);
        assert(announcement_views(all@) =~= b + c);
        let mut ranks = self.output_ranks();
        let ghost d = announcement_views(ranks@);
        all.append(&mut ranks);
        assert(announcement_views(all@) =~= b + c + d);
        if let Some(error) = &self.last_error {
            all.push(Announcement::LastError(error.clone()));
        }
        assert(announcement_views(all@) =~= b + c + d + self@.announced_error());
        all.push(Announcement::Done);
        assert(announcement_views(all@) =~= self@.announced(version));
        all
    }

    /// A greeter binds the global, as some object and at some version.
    ///
    /// One conversation, one driver: a second object could cancel the first's
    /// conversation by destroying itself, so it is refused and told nothing.
    pub fn bind(&mut self, greeter: u64, version: u32) -> (r: Result<Vec<Announcement>, Effect>)
        ensures
            match r {
                Ok(announcements) => {
                    &&& old(self)@.bound.len() == 0
                    &&& final(self)@ == (LoginView { bound: seq![greeter], ..old(self)@ })
                    &&& announcement_views(announcements@) == old(self)@.announced(version)
                },
                Err(effect) => {
                    &&& old(self)@.bound.len() > 0
                    &&& final(self)@ == old(self)@
                    &&& effect@ == (EffectView::PostError {
                        code: ErrorCode::AlreadyBound,
                        text: "wdm_greeter_v1 is already bound"@,
                    })
                },
            },
    {
        if self.bound.len() > 0 {
            return Err(
                Effect::PostError {
                    code: ErrorCode::AlreadyBound,
                    text: "wdm_greeter_v1 is already bound".to_owned(),
                },
            );
        }
        let announcements = self.initial_state(version);
        self.bound.push(greeter);
        assert(self@.bound =~= seq![greeter]);
        Ok(announcements)
    }

    /// A greeter object is gone.
    pub fn destroyed(&mut self, greeter: u64)
        ensures
            final(self)@ == (LoginView {
                bound: old(self)@.bound.filter(|g: u64| g != greeter),
                ..old(self)@
            }),
    {
        let mut kept: Vec<u64> = Vec::new();
        for i in 0..self.bound.len()
            invariant
                self@ == old(self)@,
                kept@ == self.bound@.take(i as int).filter(|g: u64| g != greeter),
        {
            let g: u64 = self.bound[i];
            proof {
                let f = |g: u64| g != greeter;
                let next = self.bound@.take(i as int + 1);
                assert(next.drop_last() =~= self.bound@.take(i as int));
                reveal(Seq::filter);
                assert(next.last() == g);
            }
            if g != greeter {
                kept.push(g);
            }
        }
        proof {
            assert(self.bound@.take(self.bound@.len() as int) =~= self.bound@);
        }
        self.bound = kept;
    }

    /// Replace the outputs, given in rank order.
    pub fn set_output_ranks(&mut self, outputs: Vec<u64>)
        ensures
            final(self)@ == (LoginView { ranked_outputs: outputs@, ..old(self)@ }),
    {
        self.ranked_outputs = outputs;
    }

    /// The rank of an output, for a greeter that has just bound it.
    ///
    /// A greeter binds outputs after it is told everything else, so that is when
    /// their ranks can first be sent.
    pub fn rank_of(&self, output: u64) -> (r: Option<usize>)
        ensures
            match r {
                Some(rank) => {
                    &&& rank < self@.ranked_outputs.len()
                    &&& self@.ranked_outputs[rank as int] == output
                    &&& forall|i: int|
                        0 <= i < rank ==> #[trigger] self@.ranked_outputs[i] != output
                },
                None => !self@.ranked_outputs.contains(output),
            },
    {
        for i in 0..self.ranked_outputs.len()
            invariant
                forall|j: int| 0 <= j < i ==> #[trigger] self@.ranked_outputs[j] != output,
        {
            if self.ranked_outputs[i] == output {
                return Some(i);
            }
        }
        None
    }
}

/// Whether a reply asks for a helper, which is how an attempt is accepted.
pub open spec fn accepts(reply: ReplyView) -> bool {
    exists|i: int| 0 <= i < reply.effects.len() && (#[trigger] reply.effects[i]) is StartHelper
}

/// The state after a greeter made these requests, each at its instant.
pub open spec fn after_requests(l: LoginView, requests: Seq<(RequestView, u64)>) -> LoginView
    decreases requests.len(),
{
    if requests.len() == 0 {
        l
    } else {
        on_request(
            after_requests(l, requests.drop_last()),
            requests.last().0,
            requests.last().1,
        ).0
    }
}

/// No sequence of requests escapes the limits: the failures that were counted and
/// the cooldown they earned are what they were before.
pub proof fn law_requests_do_not_lift_the_cooldown(
    l: LoginView,
    requests: Seq<(RequestView, u64)>,
)
    ensures
        after_requests(l, requests).failures == l.failures,
        after_requests(l, requests).cooldown_until == l.cooldown_until,
    decreases requests.len(),
{
    if requests.len() > 0 {
        law_requests_do_not_lift_the_cooldown(l, requests.drop_last());
    }
}

/// An attempt is accepted only after the cooldown, and only more than the minimum
/// interval after the attempt before it, however that one ended.
pub proof fn law_attempts_are_spaced(l: LoginView, request: RequestView, now: u64)
    requires
        accepts(on_request(l, request, now).1),
    ensures
        l.cooldown_until matches Some(until) ==> until < now,
        l.last_attempt matches Some(t) ==> t + MIN_ATTEMPT_INTERVAL < now,
        on_request(l, request, now).0.last_attempt == Some(now),
{
    let effects = on_request(l, request, now).1.effects;
    let i = choose|i: int| 0 <= i < effects.len() && (#[trigger] effects[i]) is StartHelper;
    match request {
        RequestView::CreateSession { username } => {
            let base = if l.phase == Phase::Authenticated {
                l.after_reset()
            } else {
                l
            };
            if base.must_wait(now) is Some {
                lemma_no_helper_in_reset(l);
                lemma_no_helper_in_report(base, "too many attempts"@, base.must_wait(now)->0);
                assert(false);
            }
        },
        RequestView::Respond { id, response } => {
            if l.phase == Phase::Authenticating && l.pending_prompt == Some(id) && l.auth is None {
                let answered = LoginView { pending_prompt: None, attempt_started: Some(now), ..l };
                lemma_no_helper_in_report(
                    answered,
                    "the login attempt was interrupted"@,
                    answered.delay(now),
                );
            }
            assert(false);
        },
        RequestView::Cancel => {
            lemma_no_helper_in_reset(l);
            assert(false);
        },
        RequestView::StartSession { session_id, env, account, range } => {
            lemma_no_helper_in_reset(l);
            assert(false);
        },
        RequestView::Destroy => {
            lemma_no_helper_in_reset(l);
            assert(false);
        },
    }
}

proof fn lemma_no_helper_in_reset(l: LoginView)
    ensures
        forall|i: int|
            0 <= i < l.reset_effects().len() ==> !((#[trigger] l.reset_effects()[i]) is StartHelper),
{
}

proof fn lemma_no_helper_in_report(l: LoginView, reason: Seq<char>, delay: u64)
    ensures
        forall|i: int|
            0 <= i < l.report_effects(reason, delay).len() ==> !((#[trigger] l.report_effects(
                reason,
                delay,
            )[i]) is StartHelper),
{
}

/// The clock of the attempts only goes forward: no request forgets when an attempt
/// was last accepted.
pub proof fn law_requests_do_not_forget_the_last_attempt(
    l: LoginView,
    request: RequestView,
    now: u64,
)
    ensures
        ({
            let after = on_request(l, request, now).0;
            after.last_attempt == l.last_attempt || (after.last_attempt == Some(now) && (
            l.last_attempt matches Some(t) ==> t < now))
        }),
{
}

/// An attempt that was let go of is neither reported nor charged: its events change
/// nothing and are told to nobody.
pub proof fn law_abandoned_attempts_are_silent(l: LoginView, event: AuthEventView, now: u64)
    requires
        l.auth is None,
        event is Prompt || event is Accepted || event is Failed,
    ensures
        on_event(l, event, now) == (l, silence()),
{
}

/// After a cancel nothing more is heard of the attempt: the helper and the timer
/// are let go of, and a timer that fires all the same, having been armed for what
/// was current then, says nothing.
pub proof fn law_a_cancel_is_not_answered(l: LoginView, reason: Seq<char>)
    ensures
        on_cancel(l).0.auth is None,
        on_cancel(l).0.failure_timer is None,
        on_timer(on_cancel(l).0, l.generation, reason).1 == silence(),
        l.auth is Some ==> on_cancel(l).1.effects.contains(EffectView::DropHelper),
        l.failure_timer is Some ==> on_cancel(l).1.effects.contains(EffectView::DisarmTimer),
{
    let effects = on_cancel(l).1.effects;
    if l.auth is Some {
        assert(effects[0] == EffectView::DropHelper);
    }
    if l.failure_timer is Some {
        assert(effects[effects.len() - 1] == EffectView::DisarmTimer);
    }
}

/// Once the helper has been told to launch, a greeter's requests do nothing.
pub proof fn law_requests_after_the_handoff_are_ignored(
    l: LoginView,
    request: RequestView,
    now: u64,
)
    requires
        l.handed_off,
    ensures
        on_request(l, request, now) == (l, silence()),
{
}

/// A greeter that was refused is told in the end: whenever the state waits to
/// report a failure, the timer is armed for the attempt that is current. Only while
/// a helper is being started does that have to wait for the helper's answer.
pub proof fn law_refusals_are_reported(
    l: LoginView,
    request: RequestView,
    event: AuthEventView,
    now: u64,
    username: Seq<char>,
    started: bool,
    generation: u64,
    reason: Seq<char>,
)
    requires
        l.will_be_told(),
    ensures
        !accepts(on_request(l, request, now).1) ==> on_request(l, request, now).0.will_be_told(),
        on_event(l, event, now).0.will_be_told(),
        on_helper(on_request(l, request, now).0, username, started, now).0.will_be_told(),
        l.failure_timer == Some(generation) ==> on_timer(l, generation, reason).0.will_be_told(),
        on_unarmed(l).0.will_be_told(),
        on_launch(l).0.will_be_told(),
{
    match request {
        RequestView::CreateSession { username } => {
            let effects = on_create(l, username, now).1.effects;
            if !l.handed_off && effects.len() > 0 {
                assert(effects[effects.len() - 1] == effects.last());
            }
        },
        _ => {},
    }
}

/// There is a helper wherever the phase needs one, whatever happens.
pub proof fn law_no_conversation_without_a_helper(
    l: LoginView,
    request: RequestView,
    event: AuthEventView,
    now: u64,
    username: Seq<char>,
    started: bool,
    generation: u64,
    reason: Seq<char>,
)
    requires
        l.has_helper(),
    ensures
        on_request(l, request, now).0.has_helper(),
        on_event(l, event, now).0.has_helper(),
        on_helper(l, username, started, now).0.has_helper(),
        on_timer(l, generation, reason).0.has_helper(),
        on_unarmed(l).0.has_helper(),
        on_launch(l).0.has_helper(),
{
}

/// A launch is ordered only for the user whom PAM accepted, with a session that is
/// on offer and an account that may have it; and nothing but PAM's word makes a
/// conversation one that may launch.
pub proof fn law_only_the_authenticated_launch(
    l: LoginView,
    request: RequestView,
    event: AuthEventView,
    now: u64,
)
    ensures
        on_request(l, request, now).1.action matches ActionView::Launch { username } ==> {
            &&& l.phase == Phase::Authenticated
            &&& l.auth == Some(username)
            &&& request matches RequestView::StartSession { session_id, env, account, range }
            &&& session_named(l.sessions, session_id) matches Some(session)
            &&& refusal(session, username, account, range) is None
        },
        on_request(l, request, now).0.phase == Phase::Authenticated ==> l.phase
            == Phase::Authenticated,
        on_event(l, event, now).0.phase == Phase::Authenticated && l.phase != Phase::Authenticated
            ==> event is Accepted && l.auth is Some,
        !(on_event(l, event, now).1.action is Launch),
{
}

/// The error of the last launch is kept until a new attempt is accepted.
pub proof fn law_the_last_error_outlives_a_restart(
    l: LoginView,
    request: RequestView,
    event: AuthEventView,
    now: u64,
)
    ensures
        on_event(l, event, now).0.last_error == l.last_error,
        l.after_reset().last_error == l.last_error,
        !accepts(on_request(l, request, now).1) ==> on_request(l, request, now).0.last_error
            == l.last_error,
{
    match request {
        RequestView::CreateSession { username } => {
            let effects = on_create(l, username, now).1.effects;
            if !l.handed_off && effects.len() > 0 {
                assert(effects[effects.len() - 1] == effects.last());
            }
        },
        _ => {},
    }
}

/// Whoever waits for an outcome gets one: a launch that is refused has set it, and
/// once the helper has been told, its word on how the session ended sets it.
pub proof fn law_a_launch_is_always_concluded(l: LoginView, event: AuthEventView, now: u64)
    ensures
        !on_launch(l).1 ==> on_launch(l).0.session_outcome is Some,
        on_launch(l).1 ==> on_launch(l).0.handed_off,
        l.handed_off && (event is SessionEnded || event is SessionFailed) ==> on_event(
            l,
            event,
            now,
        ).0.session_outcome is Some && on_event(l, event, now).1 == silence(),
{
}

/// Success clears the count of failures and their cooldown, and nothing but success
/// does.
pub proof fn law_only_success_clears_the_failures(l: LoginView, event: AuthEventView, now: u64)
    requires
        l.failures < usize::MAX,
    ensures
        event is Accepted && l.auth is Some ==> on_event(l, event, now).0.failures == 0 && on_event(
            l,
            event,
            now,
        ).0.cooldown_until is None,
        !(event is Accepted) ==> on_event(l, event, now).0.failures >= l.failures,
        event is Failed && l.auth is Some ==> on_event(l, event, now).0.failures == l.failures + 1,
{
}

/// What PAM says reaches the greeter: while a helper is in flight, every prompt of
/// every style is broadcast once, as it is. The style decides no more than whether
/// an answer is awaited, and nothing else changes.
pub proof fn law_every_prompt_reaches_the_greeter(
    l: LoginView,
    id: u32,
    text: Seq<char>,
    style: PromptStyle,
    now: u64,
)
    requires
        l.auth is Some,
    ensures
        ({
            let (after, reply) = on_event(l, AuthEventView::Prompt { id, text, style }, now);
            &&& reply.action is Nothing
            &&& reply.effects.len() == 1
            &&& reply.effects[0] == EffectView::Broadcast(
                GreeterEventView::Prompt { id, text, style },
            )
            &&& style == PromptStyle::Secret || style == PromptStyle::Visible
                ==> after.pending_prompt == Some(id)
            &&& style == PromptStyle::Info || style == PromptStyle::Error
                ==> after.pending_prompt == l.pending_prompt
            &&& after == LoginView { pending_prompt: after.pending_prompt, ..l }
        }),
{
}

/// A login that PAM accepts is announced at once and opens the way to a session.
/// The helper and everything but the limits on attempts stay as they are.
pub proof fn law_acceptance_reaches_the_greeter(l: LoginView, now: u64)
    requires
        l.auth is Some,
    ensures
        ({
            let (after, reply) = on_event(l, AuthEventView::Accepted, now);
            &&& reply.action is Nothing
            &&& reply.effects == seq![EffectView::Broadcast(GreeterEventView::AuthOk)]
            &&& after.phase == Phase::Authenticated
            &&& after.pending_prompt is None
            &&& after == LoginView {
                phase: after.phase,
                pending_prompt: after.pending_prompt,
                failures: after.failures,
                cooldown_until: after.cooldown_until,
                ..l
            }
        }),
{
}

/// A failure is told late and only then: nothing is broadcast when it happens, the
/// helper is let go of, and the one timer that is armed carries the reason. When it
/// fires for this attempt the greeter hears of exactly this failure and may try
/// again; when it fires for any other, nothing is said.
pub proof fn law_a_failure_is_told_when_its_time_has_come(
    l: LoginView,
    reason: Seq<char>,
    now: u64,
    other: u64,
)
    requires
        l.auth is Some,
        other != l.generation,
    ensures
        ({
            let (after, reply) = on_event(l, AuthEventView::Failed(reason), now);
            let told = on_timer(after, l.generation, reason);
            &&& reply.action is Nothing
            &&& reply.effects.len() > 0
            &&& reply.effects[0] is DropHelper
            &&& reply.effects.last() matches EffectView::ArmTimer {
                delay,
                generation,
                reason: said,
            }
            &&& generation == l.generation
            &&& said == reason
            &&& after.cooldown_until == Some((now + delay) as u64)
            &&& forall|i: int|
                0 <= i < reply.effects.len() ==> !((#[trigger] reply.effects[i]) is Broadcast)
            &&& forall|i: int|
                0 <= i < reply.effects.len() - 1 ==> !((#[trigger] reply.effects[i]) is ArmTimer)
            &&& after.auth is None
            &&& after.pending_prompt is None
            &&& after.phase == Phase::Cooldown
            &&& told.1.effects == seq![
                EffectView::Broadcast(GreeterEventView::AuthFailed { reason }),
            ]
            &&& told.0.phase == Phase::Idle
            &&& on_timer(told.0, l.generation, reason).1.effects.len() == 0
            &&& on_timer(after, other, reason).1.effects.len() == 0
        }),
{
}

/// When a failure is told: the longer of the floor and the backoff after PAM was
/// last given something to work on, or at once where that has passed.
pub proof fn law_when_a_failure_is_told(anchor: Option<u64>, backoff: u64, now: u64)
    ensures
        ({
            let told_at = now + delay_of(anchor, backoff, now);
            let from = match anchor {
                Some(t) => t as int,
                None => now as int,
            };
            &&& told_at >= now
            &&& told_at >= from + 2_000_000_000
            &&& told_at >= from + backoff
            &&& told_at == now || told_at == from + 2_000_000_000 || told_at == from + backoff
        }),
{
}

/// The first failure costs no backoff and the second a second; every further one
/// doubles it, up to ten seconds.
pub proof fn law_the_backoff_doubles(failures: nat)
    ensures
        backoff(0) == 0,
        backoff(1) == 1_000_000_000,
        failures >= 1 ==> backoff(failures + 1) == if 2 * backoff(failures) < 10_000_000_000 {
            2 * backoff(failures)
        } else {
            10_000_000_000
        },
{
}

/// How a session ended is kept as the helper said it, once the helper has been told
/// to launch; before that, a session that fails takes the greeter back to the start
/// with the reason.
pub proof fn law_the_end_of_a_session_is_kept(
    l: LoginView,
    status: Seq<char>,
    ran_for_ms: u64,
    reason: Seq<char>,
    pid: u32,
    now: u64,
)
    ensures
        ({
            let ended = on_event(l, AuthEventView::SessionEnded { status, ran_for_ms }, now);
            let failed = on_event(l, AuthEventView::SessionFailed(reason), now);
            let started = on_event(l, AuthEventView::SessionStarted { pid }, now);
            &&& ended.0.session_outcome == Some(SessionOutcomeView::Ended { status, ran_for_ms })
            &&& ended.0 == LoginView { session_outcome: ended.0.session_outcome, ..l }
            &&& ended.1.action is Nothing
            &&& ended.1.effects.len() == 0
            &&& l.handed_off ==> {
                &&& failed.0.session_outcome == Some(SessionOutcomeView::Failed(reason))
                &&& failed.0 == LoginView { session_outcome: failed.0.session_outcome, ..l }
                &&& failed.1.action is Nothing
                &&& failed.1.effects.len() == 0
            }
            &&& !l.handed_off ==> {
                &&& failed.1.action == ActionView::RestartGreeter { error: Some(reason) }
                &&& failed.0.phase == Phase::Idle
                &&& failed.0.auth is None
                &&& failed.0.chosen is None
                &&& failed.0.session_outcome == l.session_outcome
                &&& l.auth is Some <==> failed.1.effects == seq![EffectView::DropHelper]
                &&& l.auth is None <==> failed.1.effects.len() == 0
            }
            &&& started.0 == l
            &&& started.1.action is Nothing
            &&& started.1.effects.len() == 0
        }),
{
}

/// Whoever has waited is let in: outside a conversation a request for one starts a
/// helper, for the user that was asked for and on wdm's own terminal, if and only
/// if the cooldown and the interval since the last attempt are both over.
pub proof fn law_a_conversation_is_opened(l: LoginView, username: Seq<char>, now: u64)
    requires
        no_later(l.last_attempt, LATEST as int),
        l.phase != Phase::Authenticating,
        l.phase != Phase::Launching,
    ensures
        ({
            let (after, reply) = on_create(l, username, now);
            let free = (l.cooldown_until matches Some(until) ==> until < now) && (
            l.last_attempt matches Some(t) ==> t + 1_000_000_000 < now);
            &&& reply.action is Nothing
            &&& reply.effects.len() > 0
            &&& free <==> reply.effects.last() is StartHelper
            &&& free ==> {
                &&& reply.effects.last() == EffectView::StartHelper {
                    username,
                    tty: "/dev/tty"@ + decimal(l.vt as nat),
                    vt: l.vt,
                }
                &&& after.last_attempt == Some(now)
                &&& after.attempt_started == Some(now)
                &&& after.last_error is None
                &&& after.generation != l.generation || l.phase == Phase::Authenticated
            }
            &&& !free ==> {
                &&& reply.effects.last() matches EffectView::ArmTimer {
                    delay,
                    generation,
                    reason,
                }
                &&& reason == "too many attempts"@
                &&& generation == after.generation
                &&& after.phase == Phase::Cooldown
                &&& after.last_attempt == l.last_attempt
                &&& l.cooldown_until matches Some(until) ==> until <= now + delay
                &&& l.last_attempt matches Some(t) ==> t + 1_000_000_000 <= now + delay
                &&& (l.cooldown_until matches Some(until) && until == now + delay) || (
                l.last_attempt matches Some(t) && t + 1_000_000_000 == now + delay)
            }
        }),
{
}

/// While one conversation runs there is no other: the request is refused and
/// changes nothing.
pub proof fn law_one_conversation_at_a_time(l: LoginView, username: Seq<char>, now: u64)
    requires
        l.phase == Phase::Authenticating || l.phase == Phase::Launching,
    ensures
        on_create(l, username, now).0 == l,
        on_create(l, username, now).1.action is Nothing,
        on_create(l, username, now).1.effects.len() == 1,
        on_create(l, username, now).1.effects[0] matches EffectView::PostError { code, .. }
            && code == ErrorCode::AuthInProgress,
{
}

/// Whether a name belongs to anyone cannot be learnt from a request: two names are
/// answered alike, except that the helper is started for the one that was asked for.
pub proof fn law_names_are_answered_alike(
    l: LoginView,
    one: Seq<char>,
    other: Seq<char>,
    now: u64,
)
    ensures
        on_create(l, one, now).0 == on_create(l, other, now).0,
        on_create(l, one, now).1.action == on_create(l, other, now).1.action,
        on_create(l, one, now).1.effects.len() == on_create(l, other, now).1.effects.len(),
        forall|i: int|
            0 <= i < on_create(l, one, now).1.effects.len() ==> {
                let a = #[trigger] on_create(l, one, now).1.effects[i];
                let b = on_create(l, other, now).1.effects[i];
                a == b || (a matches EffectView::StartHelper { username, tty, vt } && username
                    == one && b == EffectView::StartHelper { username: other, tty, vt })
            },
{
}

/// A helper that was started is the one of the conversation; one that could not be
/// started is a failure like any other, told after its delay.
pub proof fn law_the_helper_that_was_started(
    l: LoginView,
    username: Seq<char>,
    now: u64,
)
    ensures
        ({
            let up = on_helper(l, username, true, now);
            let down = on_helper(l, username, false, now);
            &&& up.0.auth == Some(username)
            &&& up.0.phase == Phase::Authenticating
            &&& up.0 == LoginView { auth: up.0.auth, phase: up.0.phase, ..l }
            &&& up.1.action is Nothing
            &&& up.1.effects.len() == 0
            &&& down.0.phase == Phase::Cooldown
            &&& down.0.auth == l.auth
            &&& down.1.effects.last() matches EffectView::ArmTimer { delay, generation, reason }
            &&& generation == l.generation
            &&& reason == "could not start authentication"@
            &&& delay == delay_of(l.attempt_started, backoff(l.failures as nat), now) as u64
        }),
{
}

/// An answer reaches the helper if and only if it answers the prompt that waits for
/// one, and it reaches it as it was typed. Every other answer is refused and changes
/// nothing.
pub proof fn law_only_the_pending_prompt_is_answered(
    l: LoginView,
    id: u32,
    response: Seq<char>,
    now: u64,
)
    ensures
        ({
            let (after, reply) = on_respond(l, id, response, now);
            let waits = l.phase == Phase::Authenticating && l.pending_prompt == Some(id);
            &&& reply.action is Nothing
            &&& waits && l.auth is Some <==> reply.effects == seq![
                EffectView::Respond { id, response },
            ]
            &&& waits ==> after.pending_prompt is None && after.attempt_started == Some(now)
            &&& waits && l.auth is Some ==> after == LoginView {
                pending_prompt: after.pending_prompt,
                attempt_started: after.attempt_started,
                ..l
            }
            &&& waits && l.auth is None ==> after.phase == Phase::Cooldown
                && reply.effects.last() is ArmTimer
            &&& !waits ==> after == l && reply.effects.len() == 1 && (
            reply.effects[0] matches EffectView::PostError { code, .. } && code == (if l.phase
                == Phase::Authenticating {
                ErrorCode::StalePrompt
            } else {
                ErrorCode::NoAuth
            }))
        }),
{
    let (after, reply) = on_respond(l, id, response, now);
    let answer = seq![EffectView::Respond { id, response }];
    assert(answer[0] is Respond);
    if !(l.phase == Phase::Authenticating && l.pending_prompt == Some(id) && l.auth is Some) {
        assert(reply.effects.len() > 0);
        assert(!(reply.effects.last() is Respond));
        assert(reply.effects != answer);
    }
}

/// The session of an id is one that is offered and has that id, the first such one;
/// there is none if and only if no offered session has the id.
pub proof fn law_the_session_that_was_asked_for(sessions: Seq<SessionView>, id: Seq<char>)
    ensures
        match session_named(sessions, id) {
            Some(session) => session.id == id && exists|i: int|
                0 <= i < sessions.len() && #[trigger] sessions[i] == session && forall|j: int|
                    0 <= j < i ==> (#[trigger] sessions[j]).id != id,
            None => forall|i: int| 0 <= i < sessions.len() ==> (#[trigger] sessions[i]).id != id,
        },
    decreases sessions.len(),
{
    if sessions.len() > 0 {
        let rest = sessions.skip(1);
        if sessions[0].id == id {
            assert(sessions[0] == session_named(sessions, id)->0);
        } else {
            law_the_session_that_was_asked_for(rest, id);
            match session_named(rest, id) {
                Some(session) => {
                    let i = choose|i: int|
                        0 <= i < rest.len() && #[trigger] rest[i] == session && forall|j: int|
                            0 <= j < i ==> (#[trigger] rest[j]).id != id;
                    assert(sessions[i + 1] == session);
                    assert forall|j: int| 0 <= j < i + 1 implies (#[trigger] sessions[j]).id
                        != id by {
                        if j > 0 {
                            assert(rest[j - 1] == sessions[j]);
                        }
                    }
                },
                None => {
                    assert forall|i: int| 0 <= i < sessions.len() implies (
                    #[trigger] sessions[i]).id != id by {
                        if i > 0 {
                            assert(rest[i - 1] == sessions[i]);
                        }
                    }
                },
            }
        }
    }
}

/// The session that is launched is the one that was asked for: of the id in the
/// request, one of those on offer, with the environment of the request, for the user
/// who authenticated and remembered under that user's name.
pub proof fn law_the_session_that_was_asked_for_is_launched(
    l: LoginView,
    session_id: Seq<char>,
    env: Seq<(Seq<char>, Seq<char>)>,
    account: Option<Account>,
    range: UidRange,
    username: Seq<char>,
)
    requires
        on_start(l, session_id, Ok(env), account, range).1.action == (ActionView::Launch {
            username,
        }),
    ensures
        ({
            let (after, reply) = on_start(l, session_id, Ok(env), account, range);
            &&& l.auth == Some(username)
            &&& l.phase == Phase::Authenticated
            &&& reply.effects == seq![EffectView::Remember { username, session_id }]
            &&& after.phase == Phase::Launching
            &&& after.chosen matches Some((session, given))
            &&& session.id == session_id
            &&& l.sessions.contains(session)
            &&& given == env
            &&& after == LoginView { phase: after.phase, chosen: after.chosen, ..l }
            &&& on_launch(after).1
            &&& on_launch(after).0.handed_off
            &&& on_launch(after).0.chosen is None
        }),
{
    law_the_session_that_was_asked_for(l.sessions, session_id);
}

/// A request to start a session is refused as unknown if and only if no session of
/// that id is on offer, and as premature if and only if nobody has authenticated; a
/// refusal changes nothing. What is asked for rightly, with an account that may have
/// it, is launched.
pub proof fn law_what_may_be_started_is_started(
    l: LoginView,
    session_id: Seq<char>,
    env: Result<Seq<(Seq<char>, Seq<char>)>, Seq<char>>,
    account: Option<Account>,
    range: UidRange,
)
    ensures
        ({
            let (after, reply) = on_start(l, session_id, env, account, range);
            let offered = exists|i: int|
                0 <= i < l.sessions.len() && (#[trigger] l.sessions[i]).id == session_id;
            let refused = |code: ErrorCode|
                reply.effects.len() == 1 && (
                reply.effects[0] matches EffectView::PostError { code: given, .. } && given
                    == code);
            &&& refused(ErrorCode::NoAuth) <==> l.phase != Phase::Authenticated
            &&& refused(ErrorCode::InvalidSession) <==> l.phase == Phase::Authenticated && !offered
            &&& refused(ErrorCode::InvalidEnv) <==> l.phase == Phase::Authenticated && offered
                && env is Err
            &&& l.phase != Phase::Authenticated || !offered || env is Err ==> after == l
                && reply.action is Nothing
            &&& l.phase == Phase::Authenticated && offered && env is Ok ==> match l.auth {
                None => reply.action is RestartGreeter,
                Some(username) => {
                    let session = session_named(l.sessions, session_id)->0;
                    match refusal(session, username, account, range) {
                        None => reply.action == ActionView::Launch { username },
                        Some(why) => reply.action == ActionView::RestartGreeter {
                            error: Some(sentence(why)),
                        } && after.phase == Phase::Idle && after.chosen is None,
                    }
                },
            }
        }),
{
    law_the_session_that_was_asked_for(l.sessions, session_id);
}

/// Letting go of a conversation ends it and nothing else: what limits the rate, the
/// error on record, what is on offer and who is bound stay.
pub proof fn law_a_cancel_ends_the_conversation_alone(l: LoginView)
    ensures
        ({
            let (after, reply) = on_cancel(l);
            &&& after.phase == Phase::Idle
            &&& after.auth is None
            &&& after.pending_prompt is None
            &&& after.chosen is None
            &&& !after.handed_off
            &&& after.session_outcome is None
            &&& after.failure_timer is None
            &&& after.generation != l.generation
            &&& after.failures == l.failures
            &&& after.cooldown_until == l.cooldown_until
            &&& after.last_attempt == l.last_attempt
            &&& after.attempt_started == l.attempt_started
            &&& after.last_error == l.last_error
            &&& after.users == l.users
            &&& after.sessions == l.sessions
            &&& after.default_session == l.default_session
            &&& after.bound == l.bound
            &&& after.ranked_outputs == l.ranked_outputs
            &&& after.vt == l.vt
            &&& reply.action is RestartGreeter <==> l.phase == Phase::Launching
            &&& reply.action is Nothing <==> l.phase != Phase::Launching
            &&& forall|i: int|
                0 <= i < reply.effects.len() ==> (#[trigger] reply.effects[i]) is DropHelper
                    || reply.effects[i] is DisarmTimer
        }),
{
}

/// Every kind of request does what it asks for, before the helper has been told to
/// launch; destroying the greeter's object cancels.
pub proof fn law_requests_do_what_they_ask(l: LoginView, request: RequestView, now: u64)
    requires
        !l.handed_off,
    ensures
        request matches RequestView::CreateSession { username } ==> on_request(l, request, now)
            == on_create(l, username, now),
        request matches RequestView::Respond { id, response } ==> on_request(l, request, now)
            == on_respond(l, id, response, now),
        request matches RequestView::StartSession { session_id, env, account, range }
            ==> on_request(l, request, now) == on_start(l, session_id, env, account, range),
        request is Cancel || request is Destroy ==> on_request(l, request, now) == on_cancel(l),
{
}

/// A launch is handed to the helper if and only if something was chosen and the
/// helper is still there; otherwise whoever waits is told that no session ran.
pub proof fn law_what_was_chosen_is_handed_over(l: LoginView)
    ensures
        on_launch(l).1 <==> l.chosen is Some && l.auth is Some,
        on_launch(l).1 ==> on_launch(l).0 == (LoginView { chosen: None, handed_off: true, ..l }),
        !on_launch(l).1 ==> on_launch(l).0.session_outcome is Some
            && on_launch(l).0.session_outcome->0 is Failed && on_launch(l).0.handed_off
            == l.handed_off && on_launch(l).0.chosen is None,
{
}

/// A failure whose timer cannot be armed is told at once.
pub proof fn law_a_failure_is_told_even_without_a_timer(l: LoginView)
    ensures
        on_unarmed(l).1.effects.len() == 1,
        on_unarmed(l).1.effects[0] matches EffectView::Broadcast(GreeterEventView::AuthFailed {
            ..
        }),
        on_unarmed(l).0.phase == Phase::Idle,
        on_unarmed(l).0.cooldown_until == l.cooldown_until,
        on_unarmed(l).0.last_attempt == l.last_attempt,
{
}

/// A version 2 greeter is told a user's own history and the default apart from it;
/// a version 1 greeter is told the default in place of an empty history.
pub proof fn law_what_is_told_as_the_last_session(
    version: u32,
    history: Seq<char>,
    default: Option<Seq<char>>,
)
    ensures
        history.len() > 0 ==> reported_session(version, history, default) == history,
        version >= 2 ==> reported_session(version, history, default) == history,
        version < 2 && history.len() == 0 && default is Some ==> reported_session(
            version,
            history,
            default,
        ) == default->0,
        version < 2 && history.len() == 0 && default is None ==> reported_session(
            version,
            history,
            default,
        ).len() == 0,
{
}

/// What a greeter that binds is told of the users and the sessions: of each exactly
/// once, in order, and every field of what it is told is the field of that name of
/// the user or the session.
pub proof fn law_users_and_sessions_are_announced_as_they_are(
    login: Login,
    version: u32,
    told: Seq<Announcement>,
)
    requires
        announcement_views(told) == login@.announced(version),
    ensures
        ({
            let users = login.users@.len();
            let sessions = login.sessions@.len();
            let from = users + if version >= 2 {
                1nat
            } else {
                0nat
            };
            &&& told.len() >= from + sessions + 1
            &&& forall|i: int|
                0 <= i < users ==> ((#[trigger] told[i]) matches Announcement::User {
                    name,
                    display_name,
                    avatar_path,
                    last_session,
                } && name@ == login.users@[i].name@ && display_name@
                    == login.users@[i].display_name@ && avatar_path@
                    == login.users@[i].avatar_path@ && last_session@ == reported_session(
                    version,
                    login.users@[i].last_session@,
                    maybe(login.default_session),
                ))
            &&& forall|i: int|
                from <= i < from + sessions ==> ((#[trigger] told[i]) matches Announcement::Session {
                    id,
                    name,
                    command,
                    session_type,
                } && id@ == login.sessions@[i - from].id@ && name@
                    == login.sessions@[i - from].name@ && command@
                    == login.sessions@[i - from].command@ && session_type
                    == login.sessions@[i - from].session_type)
            &&& forall|i: int|
                0 <= i < told.len() && !(0 <= i < users) ==> !((#[trigger] told[i]) is User)
            &&& forall|i: int|
                0 <= i < told.len() && !(from <= i < from + sessions) ==> !((
                #[trigger] told[i]) is Session)
        }),
{
    let all = login@.announced(version);
    let users = login.users@.len();
    let sessions = login.sessions@.len();
    let ranks = login.ranked_outputs@.len();
    let from = users + if version >= 2 {
        1nat
    } else {
        0nat
    };
    assert(told.len() == all.len());
    assert forall|i: int| 0 <= i < told.len() implies (#[trigger] told[i])@ == all[i] by {
        assert(announcement_views(told)[i] == told[i]@);
    }
    assert forall|i: int| 0 <= i < users implies #[trigger] all[i] == login@.announced_users(
        version,
    )[i] by {}
    assert forall|i: int| from <= i < from + sessions implies #[trigger] all[i]
        == login@.announced_sessions()[i - from] by {}
    assert forall|i: int| from + sessions <= i < from + sessions + ranks implies #[trigger] all[i]
        == login@.announced_ranks()[i - from - sessions] by {}
    assert forall|i: int| 0 <= i < users implies login@.users[i] == #[trigger] login.users@[i]@ by {}
    assert forall|i: int| 0 <= i < sessions implies login@.sessions[i]
        == #[trigger] login.sessions@[i]@ by {}
}

/// What else a greeter that binds is told: the default session if it knows of one,
/// every output's rank, the error on record if there is one, and last that this was
/// all.
pub proof fn law_the_rest_is_announced_too(
    login: Login,
    version: u32,
    told: Seq<Announcement>,
)
    requires
        announcement_views(told) == login@.announced(version),
        login.ranked_outputs@.len() <= usize::MAX,
    ensures
        told.len() > 0,
        told.last() is Done,
        forall|i: int| 0 <= i < told.len() - 1 ==> !((#[trigger] told[i]) is Done),
        version >= 2 ==> told.len() > login.users@.len() && (
        told[login.users@.len() as int] matches Announcement::DefaultSession(id) && id@ == (
        match login.default_session {
            Some(id) => id@,
            None => seq![],
        })),
        version < 2 ==> forall|i: int|
            0 <= i < told.len() ==> !((#[trigger] told[i]) is DefaultSession),
        forall|k: int|
            0 <= k < login.ranked_outputs@.len() ==> exists|i: int|
                0 <= i < told.len() && #[trigger] told[i] == (Announcement::Rank {
                    output: #[trigger] login.ranked_outputs@[k],
                    rank: k as usize,
                }),
        login.last_error matches Some(error) ==> exists|i: int|
            0 <= i < told.len() && ((#[trigger] told[i]) matches Announcement::LastError(text)
                && text@ == error@),
        login.last_error is None ==> forall|i: int|
            0 <= i < told.len() ==> !((#[trigger] told[i]) is LastError),
{
    let all = login@.announced(version);
    let users = login.users@.len();
    let sessions = login.sessions@.len();
    let ranks = login.ranked_outputs@.len();
    let from = users + if version >= 2 {
        1nat
    } else {
        0nat
    };
    assert(told.len() == all.len());
    assert forall|i: int| 0 <= i < told.len() implies (#[trigger] told[i])@ == all[i] by {
        assert(announcement_views(told)[i] == told[i]@);
    }
    assert forall|i: int| 0 <= i < users implies #[trigger] all[i] == login@.announced_users(
        version,
    )[i] by {}
    assert forall|i: int| from <= i < from + sessions implies #[trigger] all[i]
        == login@.announced_sessions()[i - from] by {}
    assert forall|i: int| from + sessions <= i < from + sessions + ranks implies #[trigger] all[i]
        == login@.announced_ranks()[i - from - sessions] by {}
    assert forall|k: int| 0 <= k < ranks implies exists|i: int|
        0 <= i < told.len() && #[trigger] told[i] == (Announcement::Rank {
            output: #[trigger] login.ranked_outputs@[k],
            rank: k as usize,
        }) by {
        let i = from + sessions + k;
        assert(all[i] == login@.announced_ranks()[k]);
        assert(told[i]@ == all[i]);
        assert(told[i] == (Announcement::Rank {
            output: login.ranked_outputs@[k],
            rank: k as usize,
        }));
    }
    if let Some(error) = login.last_error {
        let i = (from + sessions + ranks) as int;
        assert(all[i] == AnnouncementView::LastError(error@));
        assert(told[i]@ == all[i]);
    }
    assert(told[told.len() - 1]@ == all[all.len() - 1]);
}

/// What is refused or given up is told in words that say what it was.
pub proof fn law_refusals_say_what_is_wrong(
    l: LoginView,
    session_id: Seq<char>,
    env: Result<Seq<(Seq<char>, Seq<char>)>, Seq<char>>,
    account: Option<Account>,
    range: UidRange,
)
    ensures
        ({
            let (after, reply) = on_start(l, session_id, env, account, range);
            let said = |code: ErrorCode, text: Seq<char>|
                reply.effects == seq![EffectView::PostError { code, text }];
            &&& l.phase != Phase::Authenticated ==> said(
                ErrorCode::NoAuth,
                "start_session before authentication succeeded"@,
            )
            &&& l.phase == Phase::Authenticated && session_named(l.sessions, session_id) is None
                ==> said(ErrorCode::InvalidSession, "no such session: "@ + session_id)
            &&& l.phase == Phase::Authenticated && session_named(l.sessions, session_id) is Some ==> {
                &&& env matches Err(text) ==> said(ErrorCode::InvalidEnv, text)
                &&& env is Ok && l.auth is None ==> reply.action == ActionView::RestartGreeter {
                    error: Some("the login attempt expired, please try again"@),
                }
            }
        }),
        l.chosen is None ==> on_launch(l).0.session_outcome == Some(
            SessionOutcomeView::Failed("no session was chosen"@),
        ),
        l.chosen is Some && l.auth is None ==> on_launch(l).0.session_outcome == Some(
            SessionOutcomeView::Failed(
                "the login attempt expired before the session could start"@,
            ),
        ),
        on_unarmed(l).1.effects == seq![
            EffectView::Broadcast(
                GreeterEventView::AuthFailed { reason: "authentication failed"@ },
            ),
        ],
        l.phase == Phase::Launching ==> on_cancel(l).1.action == (ActionView::RestartGreeter {
            error: Some("the login was cancelled while starting the session"@),
        }),
{
}

/// A conversation that is refused, or an answer to nothing, is refused in words too,
/// and an answer that no helper can take is a failure that is told.
pub proof fn law_conversations_are_refused_in_words(
    l: LoginView,
    username: Seq<char>,
    id: u32,
    response: Seq<char>,
    now: u64,
)
    ensures
        l.phase == Phase::Authenticating || l.phase == Phase::Launching ==> on_create(
            l,
            username,
            now,
        ).1.effects == seq![
            EffectView::PostError {
                code: ErrorCode::AuthInProgress,
                text: "a conversation is already in progress"@,
            },
        ],
        l.phase != Phase::Authenticating ==> on_respond(l, id, response, now).1.effects == seq![
            EffectView::PostError {
                code: ErrorCode::NoAuth,
                text: "respond with no conversation in progress"@,
            },
        ],
        l.phase == Phase::Authenticating && l.pending_prompt != Some(id) ==> on_respond(
            l,
            id,
            response,
            now,
        ).1.effects == seq![
            EffectView::PostError {
                code: ErrorCode::StalePrompt,
                text: "respond carried an id that is not the pending prompt"@,
            },
        ],
        l.phase == Phase::Authenticating && l.pending_prompt == Some(id) && l.auth is None ==> {
            &&& on_respond(l, id, response, now).1.effects.last() matches EffectView::ArmTimer {
                generation,
                reason,
                ..
            }
            &&& generation == l.generation
            &&& reason == "the login attempt was interrupted"@
        },
{
}

/// Letting go of a conversation drops its helper, if it has one, and disarms its
/// timer, if that runs, and does neither otherwise.
pub proof fn law_what_letting_go_takes(l: LoginView)
    ensures
        ({
            let effects = on_cancel(l).1.effects;
            &&& l.auth is Some <==> effects.contains(EffectView::DropHelper)
            &&& l.failure_timer is Some <==> effects.contains(EffectView::DisarmTimer)
            &&& effects.len() == (if l.auth is Some {
                1nat
            } else {
                0
            }) + (if l.failure_timer is Some {
                1nat
            } else {
                0
            })
        }),
{
    let effects = on_cancel(l).1.effects;
    if l.auth is Some {
        assert(effects[0] is DropHelper);
        assert(effects[0] == EffectView::DropHelper);
    }
    if l.failure_timer is Some {
        assert(effects[effects.len() - 1] is DisarmTimer);
        assert(effects[effects.len() - 1] == EffectView::DisarmTimer);
    }
}

/// How a session went is told with its status and how long it ran, or with why it
/// never started.
pub proof fn law_how_an_outcome_reads(status: Seq<char>, ran_for_ms: u64, reason: Seq<char>)
    ensures
        outcome_text(SessionOutcomeView::Ended { status, ran_for_ms }) == status + " after "@
            + duration_text(ran_for_ms),
        outcome_text(SessionOutcomeView::Failed(reason)) == "never started: "@ + reason,
{
}

/// Effects and users are seen one by one, in their order.
pub proof fn law_effects_are_seen_as_they_are(
    effects: Seq<Effect>,
    users: Seq<User>,
    i: int,
)
    ensures
        effect_views(effects).len() == effects.len(),
        0 <= i < effects.len() ==> effect_views(effects)[i] == effects[i]@,
        user_views(users).len() == users.len(),
        0 <= i < users.len() ==> user_views(users)[i].name == users[i].name@
            && user_views(users)[i].display_name == users[i].display_name@
            && user_views(users)[i].avatar_path == users[i].avatar_path@
            && user_views(users)[i].last_session == users[i].last_session@,
{
}

/// Generations count up, and after the last there is the first again.
pub proof fn law_generations_count_up(l: LoginView)
    ensures
        l.generation < u64::MAX ==> l.after_reset().generation == l.generation + 1,
        l.generation == u64::MAX ==> l.after_reset().generation == 0,
{
}

/// An effect is what it says: it is seen with everything that is handed out with it.
pub proof fn law_an_effect_is_what_it_says(effect: Effect, action: Action)
    ensures
        effect matches Effect::Broadcast(GreeterEvent::Prompt { id, text, style }) ==> effect@
            == EffectView::Broadcast(GreeterEventView::Prompt { id, text: text@, style }),
        effect matches Effect::Broadcast(GreeterEvent::AuthFailed { reason }) ==> effect@
            == EffectView::Broadcast(GreeterEventView::AuthFailed { reason: reason@ }),
        effect matches Effect::Broadcast(GreeterEvent::AuthOk) ==> effect@ == EffectView::Broadcast(
            GreeterEventView::AuthOk,
        ),
        effect matches Effect::PostError { code, text } ==> effect@ == (EffectView::PostError {
            code,
            text: text@,
        }),
        effect matches Effect::StartHelper { username, tty, vt } ==> effect@
            == (EffectView::StartHelper { username: username@, tty: tty@, vt }),
        effect matches Effect::Respond { id, response } ==> effect@ == (EffectView::Respond {
            id,
            response: response@,
        }),
        effect matches Effect::SendLaunch { session, extra_env, vt } ==> effect@
            == (EffectView::SendLaunch { session: session@, extra_env: pairs(extra_env@), vt }),
        effect matches Effect::ArmTimer { delay, generation, reason } ==> effect@
            == (EffectView::ArmTimer { delay, generation, reason: reason@ }),
        effect matches Effect::Remember { username, session_id } ==> effect@
            == (EffectView::Remember { username: username@, session_id: session_id@ }),
        effect is DropHelper <==> effect@ is DropHelper,
        effect is DisarmTimer <==> effect@ is DisarmTimer,
        action is Nothing <==> action@ is Nothing,
        action matches Action::Launch { username } ==> action@ == (ActionView::Launch {
            username: username@,
        }),
        action matches Action::RestartGreeter { error: Some(error) } ==> action@
            == (ActionView::RestartGreeter { error: Some(error@) }),
        action matches Action::RestartGreeter { error: None } ==> action@
            == (ActionView::RestartGreeter { error: None }),
{
}

} // verus!
