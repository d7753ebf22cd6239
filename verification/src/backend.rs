//! What the backends share: the greeter's restarts, the handing over of the
//! display, and who may connect.
//!
//! Whatever happens in a callback is queued here and acted on between two passes of
//! the event loop, because only the backend owns the display. Each function changes
//! the state and returns the steps that are to be made outside, in order.
use vstd::prelude::*;

use std::collections::VecDeque;

use crate::comp::{names_of, outputs_in_rank, reassigned, Connected, Cursor, Screen};
use crate::config::{is_ranking, Config};
use crate::login::{
    duration_text, effect_views, maybe_outcome, show_duration, Action, ActionView, Effect,
    EffectView, Login, LoginView, SessionOutcome, SessionOutcomeView,
};
use crate::supervise::{Disposition, DispositionView, Greeter, GreeterError};
use crate::text::{maybe, push_str, strings};

verus! {

/// Something an event source noticed that only the backend can act on.
#[derive(Debug)]
pub enum Request {
    /// Ctrl+Alt+F<n> was pressed.
    SwitchVt(i32),
    /// The seat became active, or is being paused.
    SessionActive(bool),
    /// A GPU appeared, at a path.
    DeviceAdded(String),
    /// A GPU went away; its device id is all that is reported.
    DeviceRemoved(u64),
    /// The device changed, which is how a monitor comes and goes.
    RescanConnectors,
    /// A page flip completed on this CRTC.
    VBlank(u32),
}

/// What becomes of an action.
#[derive(Debug)]
pub enum Handled {
    /// Carry on running the greeter.
    Continue,
    /// A session was validated and the display must now be handed to it. The name
    /// is for the journal: what is launched is held by the login.
    HandOff { username: String },
}

/// A step to be made outside.
#[derive(Debug)]
pub enum Step {
    /// Stop the greeter process and everything it started.
    KillGreeter,
    /// Do what the login asks for.
    Login(Effect),
    /// Read the user database and the session history again.
    RefreshUsers,
    /// Call [`Shell::spawn_greeter`].
    SpawnGreeter,
    /// Start the greeter process, and report how that went.
    StartGreeter,
    /// Arm the timer for another start, in so many nanoseconds.
    ArmRespawn(u64),
    DisarmRespawn,
}

/// What a [`Step`] says, with strings as character sequences.
#[verifier::ext_equal]
pub enum StepView {
    KillGreeter,
    Login(EffectView),
    RefreshUsers,
    SpawnGreeter,
    StartGreeter,
    ArmRespawn(u64),
    DisarmRespawn,
}

impl View for Step {
    type V = StepView;

    open spec fn view(&self) -> StepView {
        match self {
            Step::KillGreeter => StepView::KillGreeter,
            Step::Login(effect) => StepView::Login(effect@),
            Step::RefreshUsers => StepView::RefreshUsers,
            Step::SpawnGreeter => StepView::SpawnGreeter,
            Step::StartGreeter => StepView::StartGreeter,
            Step::ArmRespawn(delay) => StepView::ArmRespawn(*delay),
            Step::DisarmRespawn => StepView::DisarmRespawn,
        }
    }
}

/// The views of steps.
pub open spec fn step_views(v: Seq<Step>) -> Seq<StepView> {
    Seq::new(v.len(), |i: int| v[i]@)
}

/// The login's effects as steps.
pub open spec fn login_steps(effects: Seq<EffectView>) -> Seq<StepView> {
    Seq::new(effects.len(), |i: int| StepView::Login(effects[i]))
}

/// The state that the backends share.
#[derive(Debug)]
pub struct Shell {
    pub login: Login,
    pub greeter: Greeter,
    pub screen: Screen,
    /// Actions queued by requests and the helper's events. Several can come in one
    /// pass, and none may be lost.
    pub pending: VecDeque<Action>,
    pub requests: Vec<Request>,
    /// Whether another start of the greeter is scheduled.
    pub respawn: bool,
    /// Set once wdm has stopped trying to run a greeter, for the error screen.
    pub give_up_reason: Option<String>,
    pub running: bool,
}

/// The login state once the greeter it talked to is gone, with a reason if there is
/// one. Having none does not discard the one on record, which nobody may have seen.
pub open spec fn login_after_restart(l: LoginView, error: Option<Seq<char>>) -> LoginView {
    LoginView {
        bound: seq![],
        last_error: match error {
            Some(error) => Some(error),
            None => l.last_error,
        },
        ..l.after_reset()
    }
}

/// What cancelling a scheduled start takes.
pub open spec fn disarming(respawn: bool) -> Seq<StepView> {
    if respawn {
        seq![StepView::DisarmRespawn]
    } else {
        seq![]
    }
}

/// What restarting the greeter takes.
pub open spec fn restart_steps(l: LoginView, gave_up: bool, respawn: bool, delay: u64) -> Seq<
    StepView,
> {
    let torn_down = seq![StepView::KillGreeter] + login_steps(l.reset_effects());
    if gave_up {
        torn_down
    } else if delay == 0 {
        torn_down + seq![StepView::RefreshUsers, StepView::SpawnGreeter]
    } else {
        torn_down + seq![StepView::RefreshUsers] + disarming(respawn).push(
            StepView::ArmRespawn(delay),
        )
    }
}

impl Shell {
    /// The state before anything has happened.
    pub fn new(login: Login, greeter: Greeter) -> (r: Shell)
        ensures
            r.login == login,
            r.greeter == greeter,
            r.screen.outputs@.len() == 0,
            r.screen.wf(),
            r.forgotten(),
            r.pending@.len() == 0,
            r.requests@.len() == 0,
            !r.respawn,
            r.give_up_reason is None,
            r.running,
    {
        Shell {
            login,
            greeter,
            screen: Screen::new(),
            pending: VecDeque::new(),
            requests: Vec::new(),
            respawn: false,
            give_up_reason: None,
            running: true,
        }
    }

    /// Nothing of the greeter is left on the screen.
    pub open spec fn forgotten(&self) -> bool {
        &&& self.screen.layers@.len() == 0
        &&& self.screen.cursor == Cursor::Arrow
        &&& self.screen.focus is None
    }

    /// The outputs changed: the screen ranks them, and the login is told by the same
    /// ranks. Returns the names in rank order.
    pub fn set_outputs(&mut self, connected: &Vec<Connected>, config: &Config) -> (ranked: Vec<
        String,
    >)
        requires
            old(self).screen.wf(),
        ensures
            is_ranking(config.output@, names_of(connected@), strings(ranked@)),
            final(self).screen.outputs@ == outputs_in_rank(strings(ranked@), connected@),
            final(self).screen.layers@ == Seq::new(
                old(self).screen.layers@.len(),
                |i: int| reassigned(old(self).screen.layers@[i], final(self).screen.outputs@),
            ),
            final(self).screen.cursor == old(self).screen.cursor,
            final(self).screen.wf(),
            final(self).screen.placed(),
            final(self).login@ == (LoginView {
                ranked_outputs: final(self).screen.outputs@,
                ..old(self).login@
            }),
            final(self).greeter == old(self).greeter,
            final(self).pending == old(self).pending,
            final(self).requests == old(self).requests,
            final(self).respawn == old(self).respawn,
            final(self).give_up_reason == old(self).give_up_reason,
            final(self).running == old(self).running,
    {
        let ranked = self.screen.set_outputs(connected, config);
        let outputs: Vec<u64> = self.screen.outputs.clone();
        assert(outputs@ =~= self.screen.outputs@);
        self.login.set_output_ranks(outputs);
        ranked
    }

    /// Queue an action for the event loop.
    pub fn queue_action(&mut self, action: Action)
        ensures
            final(self).pending@ == (if action is Nothing {
                old(self).pending@
            } else {
                old(self).pending@.push(action)
            }),
            final(self).requests == old(self).requests,
            final(self).login == old(self).login,
            final(self).greeter == old(self).greeter,
            final(self).screen == old(self).screen,
            final(self).respawn == old(self).respawn,
            final(self).give_up_reason == old(self).give_up_reason,
            final(self).running == old(self).running,
    {
        match action {
            Action::Nothing => {},
            other => self.pending.push_back(other),
        }
    }

    /// Queue a request for the backend.
    pub fn request(&mut self, request: Request)
        ensures
            final(self).requests@ == old(self).requests@.push(request),
            final(self).pending == old(self).pending,
            final(self).login == old(self).login,
            final(self).greeter == old(self).greeter,
            final(self).screen == old(self).screen,
            final(self).respawn == old(self).respawn,
            final(self).give_up_reason == old(self).give_up_reason,
            final(self).running == old(self).running,
    {
        self.requests.push(request);
    }

    /// Cancel a scheduled start of the greeter, if there is one.
    pub fn disarm_respawn(&mut self) -> (steps: Vec<Step>)
        ensures
            step_views(steps@) == disarming(old(self).respawn),
            !final(self).respawn,
            final(self).same_but_for_respawn(old(self)),
    {
        let mut steps: Vec<Step> = Vec::new();
        if self.respawn {
            steps.push(Step::DisarmRespawn);
        }
        assert(step_views(steps@) =~= disarming(self.respawn));
        self.respawn = false;
        steps
    }

    /// Nothing but the scheduled start differs.
    pub open spec fn same_but_for_respawn(&self, other: &Shell) -> bool {
        &&& self.login == other.login
        &&& self.greeter == other.greeter
        &&& self.screen == other.screen
        &&& self.pending == other.pending
        &&& self.requests == other.requests
        &&& self.give_up_reason == other.give_up_reason
        &&& self.running == other.running
    }

    /// Schedule another start of the greeter.
    pub fn arm_respawn(&mut self, delay: u64) -> (steps: Vec<Step>)
        ensures
            step_views(steps@) == disarming(old(self).respawn).push(StepView::ArmRespawn(delay)),
            final(self).respawn,
            final(self).same_but_for_respawn(old(self)),
    {
        let mut steps = self.disarm_respawn();
        let ghost before = step_views(steps@);
        steps.push(Step::ArmRespawn(delay));
        assert(step_views(steps@) =~= before.push(StepView::ArmRespawn(delay)));
        self.respawn = true;
        steps
    }

    /// Tear down the greeter and start a fresh one after `delay`.
    ///
    /// `error` is for the new greeter to show, so that a user whose session failed
    /// is told why.
    pub fn restart_greeter(&mut self, error: Option<String>, delay: u64) -> (steps: Vec<Step>)
        ensures
            final(self).login@ == login_after_restart(old(self).login@, maybe(error)),
            final(self).forgotten(),
            final(self).screen.outputs == old(self).screen.outputs,
            final(self).screen.wf(),
            final(self).greeter == old(self).greeter,
            final(self).pending == old(self).pending,
            final(self).requests == old(self).requests,
            final(self).give_up_reason == old(self).give_up_reason,
            final(self).running == old(self).running,
            final(self).respawn == (old(self).respawn || (!old(self).greeter.gave_up && delay
                > 0)),
            step_views(steps@) == restart_steps(
                old(self).login@,
                old(self).greeter.gave_up,
                old(self).respawn,
                delay,
            ),
    {
        let mut steps: Vec<Step> = Vec::new();
        steps.push(Step::KillGreeter);
        let ghost l = self.login@;
        let effects = self.login.reset();
        self.login.clear_bindings();
        match error {
            Some(error) => self.login.set_last_error(error),
            None => {},
        }
        self.screen.forget_greeter();
        let ghost torn_down = seq![StepView::KillGreeter] + login_steps(l.reset_effects());
        push_login_steps(&mut steps, effects);
        assert(step_views(steps@) =~= torn_down);
        if self.greeter.gave_up() {
            return steps;
        }
        steps.push(Step::RefreshUsers);
        if delay == 0 {
            steps.push(Step::SpawnGreeter);
            assert(step_views(steps@) =~= torn_down + seq![
                StepView::RefreshUsers,
                StepView::SpawnGreeter,
            ]);
        } else {
            let ghost first = step_views(steps@);
            assert(first =~= torn_down + seq![StepView::RefreshUsers]);
            let ghost respawn = self.respawn;
            let mut arm = self.arm_respawn(delay);
            let ghost second = step_views(arm@);
            steps.append(&mut arm);
            assert(step_views(steps@) =~= first + second);
        }
        steps
    }

    /// Start the greeter now, if it may be started.
    ///
    /// A start that was scheduled is void: it would put a second greeter beside the
    /// first.
    pub fn spawn_greeter(&mut self) -> (steps: Vec<Step>)
        ensures
            !final(self).respawn,
            final(self).same_but_for_respawn(old(self)),
            step_views(steps@) == (if old(self).greeter.gave_up || old(self).greeter.child is Some {
                disarming(old(self).respawn)
            } else {
                disarming(old(self).respawn).push(StepView::StartGreeter)
            }),
    {
        let mut steps = self.disarm_respawn();
        let ghost before = step_views(steps@);
        match self.greeter.may_spawn() {
            Ok(_) => {
                steps.push(Step::StartGreeter);
                assert(step_views(steps@) =~= before.push(StepView::StartGreeter));
            },
            Err(_) => {},
        }
        steps
    }

    /// The greeter could not be started.
    ///
    /// It is started again by the policy and never from here, which could go round
    /// in circles. The reason has nobody to be shown to unless wdm gives up.
    pub fn greeter_not_started(&mut self, error: &GreeterError) -> (steps: Vec<Step>)
        requires
            old(self).greeter.rapid_failures < u32::MAX,
        ensures
            final(self).greeter.rapid_failures == old(self).greeter.rapid_failures + 1,
            final(self).greeter.gave_up == (old(self).greeter.gave_up
                || final(self).greeter.rapid_failures >= crate::supervise::MAX_RAPID_FAILURES),
            final(self).greeter.same_but_for_failures(
                &Greeter { started: None, ..old(self).greeter },
            ),
            final(self).pending == old(self).pending,
            final(self).requests == old(self).requests,
            final(self).running == old(self).running,
            ({
                let verdict = crate::supervise::verdict(
                    final(self).greeter.rapid_failures as int,
                    "could not be started: "@ + crate::supervise::complaint(error@),
                );
                match verdict {
                    DispositionView::Restart { delay, reason: _ } => {
                        &&& step_views(steps@) == disarming(old(self).respawn).push(
                            StepView::ArmRespawn(delay),
                        )
                        &&& final(self).respawn
                        &&& final(self).login == old(self).login
                        &&& final(self).screen == old(self).screen
                        &&& final(self).give_up_reason == old(self).give_up_reason
                    },
                    DispositionView::GaveUp { reason } => {
                        &&& steps@.len() == 0
                        &&& final(self).shows(reason, old(self))
                    },
                }
            }),
    {
        match self.greeter.note_spawn_failure(&error.message()) {
            Disposition::Restart { delay, reason: _ } => self.arm_respawn(delay),
            Disposition::GaveUp { reason } => {
                self.give_up(reason);
                Vec::new()
            },
        }
    }

    /// wdm has given up for a reason, and nothing of the greeter is left.
    pub open spec fn shows(&self, reason: Seq<char>, before: &Shell) -> bool {
        &&& maybe(self.give_up_reason) == Some(reason)
        &&& self.login@ == (LoginView { bound: seq![], ..before.login@ })
        &&& self.forgotten()
        &&& self.screen.outputs == before.screen.outputs
        &&& self.respawn == before.respawn
    }

    /// Stop trying, and put the reason on screen.
    pub fn give_up(&mut self, reason: String)
        ensures
            final(self).shows(reason@, old(self)),
            final(self).greeter == old(self).greeter,
            final(self).pending == old(self).pending,
            final(self).requests == old(self).requests,
            final(self).running == old(self).running,
            final(self).screen.wf(),
    {
        self.login.clear_bindings();
        self.screen.forget_greeter();
        self.give_up_reason = Some(reason);
    }

    /// The timer for another start could not be armed: nothing would ever start the
    /// greeter, so the reason goes on the display.
    pub fn respawn_not_armed(&mut self, error: &str)
        ensures
            final(self).shows(
                "cannot schedule a greeter restart: "@ + error@,
                &Shell { respawn: false, ..*old(self) },
            ),
            final(self).greeter == old(self).greeter,
            final(self).pending == old(self).pending,
            final(self).requests == old(self).requests,
            final(self).running == old(self).running,
    {
        self.respawn = false;
        let mut reason = "cannot schedule a greeter restart: ".to_owned();
        push_str(&mut reason, error);
        self.give_up(reason);
    }

    /// The greeter exited, and its policy has spoken.
    ///
    /// The reason is shown by the next greeter, so that a login screen that vanishes
    /// and comes back explains itself.
    pub fn greeter_exited(&mut self, disposition: Disposition) -> (steps: Vec<Step>)
        ensures
            final(self).greeter == old(self).greeter,
            final(self).pending == old(self).pending,
            final(self).requests == old(self).requests,
            final(self).running == old(self).running,
            match disposition@ {
                DispositionView::Restart { delay, reason } => {
                    &&& final(self).login@ == login_after_restart(old(self).login@, Some(reason))
                    &&& final(self).forgotten()
                    &&& final(self).screen.outputs == old(self).screen.outputs
                    &&& final(self).give_up_reason == old(self).give_up_reason
                    &&& final(self).respawn == (old(self).respawn || (!old(self).greeter.gave_up
                        && delay > 0))
                    &&& step_views(steps@) == restart_steps(
                        old(self).login@,
                        old(self).greeter.gave_up,
                        old(self).respawn,
                        delay,
                    )
                },
                DispositionView::GaveUp { reason } => {
                    &&& steps@.len() == 0
                    &&& final(self).shows(reason, old(self))
                },
            },
    {
        match disposition {
            Disposition::Restart { delay, reason } => self.restart_greeter(Some(reason), delay),
            Disposition::GaveUp { reason } => {
                self.give_up(reason);
                Vec::new()
            },
        }
    }

    /// Act on the next queued action; nothing where there is none.
    ///
    /// A launch voids everything that is queued: the display is about to change
    /// hands, and what was noticed about this device is no statement about the
    /// next.
    pub fn handle_action(&mut self) -> (r: Option<(Handled, Vec<Step>)>)
        ensures
            match r {
                None => old(self).pending@.len() == 0 && final(self).pending@.len() == 0
                    && final(self).same_but_for_queue(old(self)),
                Some((handled, steps)) => {
                    &&& old(self).pending@.len() > 0
                    &&& match old(self).pending@[0]@ {
                        ActionView::Nothing => {
                            &&& handled is Continue
                            &&& steps@.len() == 0
                            &&& final(self).pending@ == old(self).pending@.skip(1)
                            &&& final(self).same_but_for_queue(old(self))
                        },
                        ActionView::Launch { username } => {
                            &&& handled matches Handled::HandOff { username: u }
                            &&& u@ == username
                            &&& step_views(steps@) == disarming(old(self).respawn)
                            &&& final(self).pending@.len() == 0
                            &&& final(self).requests@.len() == 0
                            &&& !final(self).respawn
                            &&& final(self).login == old(self).login
                            &&& final(self).greeter == old(self).greeter
                            &&& final(self).screen == old(self).screen
                            &&& final(self).give_up_reason == old(self).give_up_reason
                            &&& final(self).running == old(self).running
                        },
                        ActionView::RestartGreeter { error } => {
                            &&& handled is Continue
                            &&& final(self).pending@ == old(self).pending@.skip(1)
                            &&& final(self).login@ == login_after_restart(old(self).login@, error)
                            &&& final(self).forgotten()
                            &&& final(self).screen.outputs == old(self).screen.outputs
                            &&& final(self).greeter == old(self).greeter
                            &&& final(self).requests == old(self).requests
                            &&& final(self).respawn == old(self).respawn
                            &&& final(self).give_up_reason == old(self).give_up_reason
                            &&& final(self).running == old(self).running
                            &&& step_views(steps@) == restart_steps(
                                old(self).login@,
                                old(self).greeter.gave_up,
                                old(self).respawn,
                                0,
                            )
                        },
                    }
                },
            },
    {
        let action = match self.pending.pop_front() {
            Some(action) => action,
            None => return None,
        };
        assert(self.pending@ =~= old(self).pending@.skip(1));
        match action {
            Action::Nothing => Some((Handled::Continue, Vec::new())),
            Action::Launch { username } => {
                self.pending.clear();
                self.requests = Vec::new();
                let steps = self.disarm_respawn();
                Some((Handled::HandOff { username }, steps))
            },
            Action::RestartGreeter { error } => {
                let steps = self.restart_greeter(error, 0);
                Some((Handled::Continue, steps))
            },
        }
    }

    /// Nothing but the queue of actions differs.
    pub open spec fn same_but_for_queue(&self, other: &Shell) -> bool {
        &&& self.login == other.login
        &&& self.greeter == other.greeter
        &&& self.screen == other.screen
        &&& self.requests == other.requests
        &&& self.respawn == other.respawn
        &&& self.give_up_reason == other.give_up_reason
        &&& self.running == other.running
    }

    /// How the session ended, once that is known.
    ///
    /// What was queued while the display was gone belongs to nobody. That wdm is to
    /// stop does not end the wait: the session still owns the display.
    pub fn session_over(&mut self) -> (r: Option<SessionOutcome>)
        ensures
            maybe_outcome(r) == old(self).login@.session_outcome,
            final(self).login@ == (LoginView { session_outcome: None, ..old(self).login@ }),
            r is Some ==> final(self).pending@.len() == 0,
            r is None ==> final(self).pending == old(self).pending,
            final(self).requests == old(self).requests,
            final(self).greeter == old(self).greeter,
            final(self).screen == old(self).screen,
            final(self).respawn == old(self).respawn,
            final(self).give_up_reason == old(self).give_up_reason,
            final(self).running == old(self).running,
    {
        let outcome = self.login.take_session_outcome();
        if outcome.is_some() {
            self.pending.clear();
        }
        outcome
    }

    /// The event loop failed while a session was waited for, so that its end could
    /// never be heard of.
    pub fn loop_failed(&mut self, error: &str) -> (r: SessionOutcome)
        ensures
            r@ == SessionOutcomeView::Failed("wdm's event loop failed: "@ + error@),
            final(self).pending@.len() == 0,
            final(self).same_but_for_queue(old(self)),
    {
        self.pending.clear();
        let mut reason = "wdm's event loop failed: ".to_owned();
        push_str(&mut reason, error);
        SessionOutcome::Failed(reason)
    }

    /// A session is over and its outcome known: dismiss the helper, keep what is to
    /// be explained, and be ready for the next login.
    pub fn conclude(&mut self, outcome: &SessionOutcome) -> (steps: Vec<Step>)
        ensures
            final(self).login@ == (LoginView {
                last_error: match explanation(outcome@) {
                    Some(reason) => Some(reason),
                    None => old(self).login@.last_error,
                },
                ..old(self).login@.after_reset()
            }),
            final(self).running,
            final(self).greeter == old(self).greeter,
            final(self).screen == old(self).screen,
            final(self).pending == old(self).pending,
            final(self).requests == old(self).requests,
            final(self).respawn == old(self).respawn,
            final(self).give_up_reason == old(self).give_up_reason,
            step_views(steps@) == login_steps(old(self).login@.reset_effects()),
    {
        let mut steps: Vec<Step> = Vec::new();
        let ghost l = self.login@;
        let ended = self.login.end_session();
        if let Some(reason) = explain(outcome) {
            self.login.set_last_error(reason);
        }
        let reset = self.login.reset();
        push_login_steps(&mut steps, ended);
        push_login_steps(&mut steps, reset);
        assert(step_views(steps@) =~= login_steps(l.reset_effects()));
        self.running = true;
        steps
    }
}

/// Append the login's effects to steps.
fn push_login_steps(steps: &mut Vec<Step>, effects: Vec<Effect>)
    ensures
        step_views(final(steps)@) == step_views(old(steps)@) + login_steps(
            effect_views(effects@),
        ),
{
    let ghost whole = step_views(steps@) + login_steps(effect_views(effects@));
    let mut rest: Vec<Effect> = effects;
    while rest.len() > 0
        invariant
            step_views(steps@) + login_steps(effect_views(rest@)) == whole,
        decreases rest@.len(),
    {
        let ghost before = steps@;
        let ghost left = rest@;
        let effect = rest.remove(0);
        steps.push(Step::Login(effect));
        proof {
            let x = StepView::Login(left[0]@);
            assert(step_views(steps@) =~= step_views(before).push(x));
            assert(step_views(before) + login_steps(effect_views(left)) =~= step_views(steps@)
                + login_steps(effect_views(rest@)));
        }
    }
    assert(step_views(steps@) + login_steps(effect_views(rest@)) =~= step_views(steps@));
}

/// What the next greeter is to show of how a session ended, if anything: that it
/// never started, or that it died at once, which is a broken command or a
/// compositor that cannot start.
pub open spec fn explanation(outcome: SessionOutcomeView) -> Option<Seq<char>> {
    match outcome {
        SessionOutcomeView::Ended { status, ran_for_ms } => if ran_for_ms < 2000 {
            Some(
                "session exited immediately ("@ + status + ") after "@ + duration_text(ran_for_ms),
            )
        } else {
            None
        },
        SessionOutcomeView::Failed(reason) => Some("could not start session: "@ + reason),
    }
}

/// What the next greeter is to show of how a session ended, if anything.
pub fn explain(outcome: &SessionOutcome) -> (r: Option<String>)
    ensures
        maybe(r) == explanation(outcome@),
{
    match outcome {
        SessionOutcome::Ended { status, ran_for_ms } => {
            if *ran_for_ms < 2000 {
                let mut s = "session exited immediately (".to_owned();
                push_str(&mut s, status);
                push_str(&mut s, ") after ");
                push_str(&mut s, &show_duration(*ran_for_ms));
                Some(s)
            } else {
                None
            }
        },
        SessionOutcome::Failed(reason) => {
            let mut s = "could not start session: ".to_owned();
            push_str(&mut s, reason);
            Some(s)
        },
    }
}

/// How far the handing over of the display has come.
#[derive(Debug, Clone, Copy, PartialEq, Eq, Structural)]
pub enum Handoff {
    /// The greeter still runs and draws.
    Begun,
    /// The greeter and its surfaces are gone.
    GreeterGone,
    /// The device, the renderer, input and the seat are released.
    DisplayReleased,
    /// The helper was told to launch and its word is waited for.
    Waiting,
    /// The session is over.
    Over,
}

/// What is to be done at a stage of the handing over.
#[derive(Debug, Clone, Copy, PartialEq, Eq, Structural)]
pub enum HandoffStep {
    KillGreeter,
    ReleaseDisplay,
    /// Have the login tell the helper.
    TellHelper,
    AwaitSession,
    /// Conclude, and take the seat back.
    TakeBack,
}

impl Handoff {
    /// What is to be done at this stage.
    pub open spec fn due(self) -> HandoffStep {
        match self {
            Handoff::Begun => HandoffStep::KillGreeter,
            Handoff::GreeterGone => HandoffStep::ReleaseDisplay,
            Handoff::DisplayReleased => HandoffStep::TellHelper,
            Handoff::Waiting => HandoffStep::AwaitSession,
            Handoff::Over => HandoffStep::TakeBack,
        }
    }

    /// The stage once that is done.
    pub open spec fn next(self) -> Handoff {
        match self {
            Handoff::Begun => Handoff::GreeterGone,
            Handoff::GreeterGone => Handoff::DisplayReleased,
            Handoff::DisplayReleased => Handoff::Waiting,
            Handoff::Waiting => Handoff::Over,
            Handoff::Over => Handoff::Over,
        }
    }

    /// What is to be done at this stage.
    pub fn step(&self) -> (r: HandoffStep)
        ensures
            r == self.due(),
    {
        match self {
            Handoff::Begun => HandoffStep::KillGreeter,
            Handoff::GreeterGone => HandoffStep::ReleaseDisplay,
            Handoff::DisplayReleased => HandoffStep::TellHelper,
            Handoff::Waiting => HandoffStep::AwaitSession,
            Handoff::Over => HandoffStep::TakeBack,
        }
    }

    /// Go on once that is done.
    pub fn advance(&mut self)
        ensures
            *final(self) == old(self).next(),
    {
        *self = match self {
            Handoff::Begun => Handoff::GreeterGone,
            Handoff::GreeterGone => Handoff::DisplayReleased,
            Handoff::DisplayReleased => Handoff::Waiting,
            Handoff::Waiting => Handoff::Over,
            Handoff::Over => Handoff::Over,
        };
    }
}

/// The stage after so many steps.
pub open spec fn stage_after(n: nat) -> Handoff
    decreases n,
{
    if n == 0 {
        Handoff::Begun
    } else {
        stage_after((n - 1) as nat).next()
    }
}

/// The helper is told to launch only when the greeter is gone and the display has
/// been released, and the seat is taken back only when the session is over.
pub proof fn law_nothing_is_launched_while_the_display_is_held(n: nat)
    ensures
        stage_after(n).due() == HandoffStep::TellHelper <==> n == 2,
        stage_after(0).due() == HandoffStep::KillGreeter,
        stage_after(1).due() == HandoffStep::ReleaseDisplay,
        stage_after(n).due() == HandoffStep::TakeBack <==> n >= 4,
    decreases n,
{
    reveal_with_fuel(stage_after, 6);
    if n > 4 {
        law_nothing_is_launched_while_the_display_is_held((n - 1) as nat);
        lemma_over((n - 1) as nat);
    }
}

proof fn lemma_over(n: nat)
    requires
        n >= 4,
    ensures
        stage_after(n) == Handoff::Over,
    decreases n,
{
    reveal_with_fuel(stage_after, 6);
    if n > 4 {
        lemma_over((n - 1) as nat);
    }
}

/// The steps of making the greeter's socket.
#[derive(Debug, Clone, Copy, PartialEq, Eq, Structural)]
pub enum SocketStep {
    /// Make the directory, for root alone.
    CreateDirectory,
    Bind,
    /// Give the socket its mode.
    Restrict,
    /// Give the socket to the greeter's account.
    GiveSocket,
    /// Give the directory to the greeter's account.
    GiveDirectory,
    /// Take connections.
    Listen,
}

/// The steps of making the greeter's socket, in order. Unprivileged, wdm is the
/// greeter's account already and owns the directory.
pub open spec fn socket_plan(privileged: bool) -> Seq<SocketStep> {
    if privileged {
        seq![
            SocketStep::CreateDirectory,
            SocketStep::Bind,
            SocketStep::Restrict,
            SocketStep::GiveSocket,
            SocketStep::GiveDirectory,
            SocketStep::Listen,
        ]
    } else {
        seq![SocketStep::Bind, SocketStep::Restrict, SocketStep::Listen]
    }
}

/// The steps of making the greeter's socket, in order.
pub fn socket_steps(privileged: bool) -> (r: Vec<SocketStep>)
    ensures
        r@ == socket_plan(privileged),
{
    let mut r: Vec<SocketStep> = Vec::new();
    if privileged {
        r.push(SocketStep::CreateDirectory);
    }
    r.push(SocketStep::Bind);
    r.push(SocketStep::Restrict);
    if privileged {
        r.push(SocketStep::GiveSocket);
        r.push(SocketStep::GiveDirectory);
    }
    r.push(SocketStep::Listen);
    assert(r@ =~= socket_plan(privileged));
    r
}

/// The greeter's account gets the directory only once the socket in it is made and
/// secured: until then nobody else can have put something in its place.
pub proof fn law_the_directory_is_handed_over_last(i: int, j: int)
    requires
        0 <= i < socket_plan(true).len(),
        0 <= j < socket_plan(true).len(),
        socket_plan(true)[i] == SocketStep::GiveDirectory,
        socket_plan(true)[j] == SocketStep::Bind || socket_plan(true)[j] == SocketStep::Restrict
            || socket_plan(true)[j] == SocketStep::GiveSocket,
    ensures
        j < i,
{
}

/// The uid that may connect: the greeter's, or wdm's own where it is unprivileged.
pub fn expected_uid(greeter: Option<(u32, u32)>, own: u32) -> (r: u32)
    ensures
        r == (match greeter {
            Some((uid, _)) => uid,
            None => own,
        }),
{
    match greeter {
        Some((uid, _)) => uid,
        None => own,
    }
}

/// Whether a peer may connect, given its uid if it is known.
///
/// Everything on the socket can drive a login, so the greeter's account is the only
/// one that may speak on it. Root is refused too: it has no business posing as the
/// greeter.
pub fn admits(peer: Option<u32>, expected: u32) -> (r: bool)
    ensures
        r == (peer == Some(expected)),
{
    match peer {
        Some(uid) => uid == expected,
        None => false,
    }
}

/// A login ends where it began: after a restart or a concluded session nobody is
/// authenticated, nothing is chosen and no outcome is left over, while what limits
/// the rate of attempts is kept.
pub proof fn law_every_generation_starts_afresh(l: LoginView, error: Option<Seq<char>>)
    ensures
        ({
            let after = login_after_restart(l, error);
            &&& after.phase == crate::login::Phase::Idle
            &&& after.auth is None
            &&& after.chosen is None
            &&& !after.handed_off
            &&& after.session_outcome is None
            &&& after.bound.len() == 0
            &&& after.failures == l.failures
            &&& after.cooldown_until == l.cooldown_until
            &&& after.last_attempt == l.last_attempt
            &&& error is None ==> after.last_error == l.last_error
        }),
{
}

/// A greeter that is restarted with a reason shows it, and what is on offer, the
/// outputs and the terminal are what they were.
pub proof fn law_a_restart_tells_why(l: LoginView, error: Option<Seq<char>>)
    ensures
        ({
            let after = login_after_restart(l, error);
            &&& error is Some ==> after.last_error == error
            &&& error is None ==> after.last_error == l.last_error
            &&& after.users == l.users
            &&& after.sessions == l.sessions
            &&& after.default_session == l.default_session
            &&& after.vt == l.vt
            &&& after.ranked_outputs == l.ranked_outputs
            &&& after.pending_prompt is None
            &&& after.failure_timer is None
            &&& after.generation != l.generation
            &&& after.attempt_started == l.attempt_started
        }),
{
}

/// What a restart of the greeter does: the old one is killed first, its helper and
/// its timer are let go of, and unless wdm has given up the users are read afresh
/// and a new greeter is started, at once or after the delay, but never both.
pub proof fn law_a_restart_kills_and_starts(
    l: LoginView,
    gave_up: bool,
    respawn: bool,
    delay: u64,
)
    ensures
        ({
            let steps = restart_steps(l, gave_up, respawn, delay);
            &&& steps.len() > 0
            &&& steps[0] is KillGreeter
            &&& l.auth is Some ==> steps.contains(StepView::Login(EffectView::DropHelper))
            &&& l.failure_timer is Some ==> steps.contains(StepView::Login(EffectView::DisarmTimer))
            &&& gave_up ==> forall|i: int|
                0 <= i < steps.len() ==> (#[trigger] steps[i]) is KillGreeter || steps[i] is Login
            &&& !gave_up ==> steps.contains(StepView::RefreshUsers)
            &&& !gave_up && delay == 0 ==> steps.last() is SpawnGreeter && forall|i: int|
                0 <= i < steps.len() ==> !((#[trigger] steps[i]) is ArmRespawn)
            &&& !gave_up && delay > 0 ==> steps.last() == StepView::ArmRespawn(delay) && (respawn
                ==> steps.contains(StepView::DisarmRespawn)) && forall|i: int|
                0 <= i < steps.len() ==> !((#[trigger] steps[i]) is SpawnGreeter || steps[i]
                    is StartGreeter)
        }),
{
    let steps = restart_steps(l, gave_up, respawn, delay);
    let r = l.reset_effects();
    let n = r.len() as int;
    assert forall|i: int| 0 <= i < n implies steps[i + 1] == StepView::Login(#[trigger] r[i]) by {}
    if l.auth is Some {
        assert(r[0] == EffectView::DropHelper);
        assert(steps[1] == StepView::Login(EffectView::DropHelper));
    }
    if l.failure_timer is Some {
        assert(r[n - 1] == EffectView::DisarmTimer);
        assert(steps[n] == StepView::Login(EffectView::DisarmTimer));
    }
    if !gave_up {
        assert(steps[n + 1] is RefreshUsers);
        assert(steps[n + 1] == StepView::RefreshUsers);
        if delay > 0 && respawn {
            assert(steps[n + 2] == StepView::DisarmRespawn);
        }
    }
}

/// A session that never started, and one that was over within two seconds, is
/// explained to whoever logs in next; one that lasted is not.
pub proof fn law_what_is_explained(
    status: Seq<char>,
    ran_for_ms: u64,
    reason: Seq<char>,
)
    ensures
        explanation(SessionOutcomeView::Failed(reason)) == Some(
            "could not start session: "@ + reason,
        ),
        explanation(SessionOutcomeView::Ended { status, ran_for_ms }) is Some <==> ran_for_ms
            < 2000,
        ran_for_ms < 2000 ==> explanation(SessionOutcomeView::Ended { status, ran_for_ms }) == Some(
            "session exited immediately ("@ + status + ") after "@ + duration_text(ran_for_ms),
        ),
{
}

/// The display changes hands in this order: the greeter is killed, the display is
/// released, the helper is told, the session is waited for, and what was given away
/// is taken back.
pub proof fn law_the_order_of_the_handoff(stage: Handoff)
    ensures
        stage.due() == HandoffStep::KillGreeter ==> stage.next().due()
            == HandoffStep::ReleaseDisplay,
        stage.due() == HandoffStep::ReleaseDisplay ==> stage.next().due()
            == HandoffStep::TellHelper,
        stage.due() == HandoffStep::TellHelper ==> stage.next().due() == HandoffStep::AwaitSession,
        stage.due() == HandoffStep::AwaitSession ==> stage.next().due() == HandoffStep::TakeBack,
        stage.due() == HandoffStep::TakeBack ==> stage.next() == stage,
        stage == Handoff::Begun <==> stage.due() == HandoffStep::KillGreeter,
{
}

/// The greeter's socket is bound and closed to others before anyone can connect; a
/// privileged wdm makes the directory first and gives both to the greeter's account,
/// an unprivileged one gives away nothing.
pub proof fn law_how_the_socket_is_made(privileged: bool, i: int, j: int)
    requires
        0 <= i < j < socket_plan(privileged).len(),
    ensures
        ({
            let plan = socket_plan(privileged);
            &&& plan.last() == SocketStep::Listen
            &&& plan.contains(SocketStep::Bind)
            &&& plan.contains(SocketStep::Restrict)
            &&& plan[i] != plan[j]
            &&& plan[j] != SocketStep::CreateDirectory
            &&& plan[i] == SocketStep::Restrict ==> plan[j] != SocketStep::Bind
            &&& privileged ==> plan[0] == SocketStep::CreateDirectory && plan.contains(
                SocketStep::GiveSocket,
            ) && plan.contains(SocketStep::GiveDirectory)
            &&& !privileged ==> plan[i] != SocketStep::GiveSocket && plan[i]
                != SocketStep::GiveDirectory && plan[i] != SocketStep::CreateDirectory
        }),
{
    let plan = socket_plan(privileged);
    if privileged {
        assert(plan[1] == SocketStep::Bind);
        assert(plan[2] == SocketStep::Restrict);
        assert(plan[3] == SocketStep::GiveSocket);
        assert(plan[4] == SocketStep::GiveDirectory);
    } else {
        assert(plan[0] == SocketStep::Bind);
        assert(plan[1] == SocketStep::Restrict);
    }
}

/// Once wdm has given up, the reason is there to be shown, no greeter is bound, and
/// nothing of one is left on the screen.
pub proof fn law_giving_up_is_shown(after: Shell, reason: Seq<char>, before: Shell)
    requires
        after.shows(reason, &before),
    ensures
        after.give_up_reason is Some,
        (after.give_up_reason->0)@ == reason,
        after.login.bound@.len() == 0,
        after.screen.layers@.len() == 0,
        after.screen.cursor == Cursor::Arrow,
        after.screen.focus is None,
        after.screen.outputs == before.screen.outputs,
        after.login@.failures == before.login@.failures,
        after.login@.last_error == before.login@.last_error,
{
    assert(after.login@.bound.len() == 0);
}

/// What leaves everything but the queue, or but the scheduled start, as it was leaves
/// the login, the greeter, the screen and whether wdm runs as they were.
pub proof fn law_what_is_left_alone(after: Shell, before: Shell)
    ensures
        after.same_but_for_queue(&before) || after.same_but_for_respawn(&before) ==> {
            &&& after.login == before.login
            &&& after.greeter == before.greeter
            &&& after.screen == before.screen
            &&& after.requests == before.requests
            &&& after.give_up_reason == before.give_up_reason
            &&& after.running == before.running
        },
        after.same_but_for_queue(&before) ==> after.respawn == before.respawn,
        after.same_but_for_respawn(&before) ==> after.pending == before.pending,
{
}

/// What the login calls for is done step by step, in its order.
pub proof fn law_the_logins_effects_are_steps(
    effects: Seq<EffectView>,
    steps: Seq<Step>,
    respawn: bool,
    i: int,
)
    ensures
        login_steps(effects).len() == effects.len(),
        0 <= i < effects.len() ==> login_steps(effects)[i] == StepView::Login(effects[i]),
        step_views(steps).len() == steps.len(),
        0 <= i < steps.len() ==> step_views(steps)[i] == steps[i]@,
        disarming(true) == seq![StepView::DisarmRespawn],
        disarming(false).len() == 0,
{
}

/// A greeter that is forgotten leaves no surface, no image of its own for the pointer
/// and no surface with the keyboard.
pub proof fn law_a_forgotten_greeter_leaves_nothing(shell: Shell)
    requires
        shell.forgotten(),
    ensures
        shell.screen.layers@.len() == 0,
        shell.screen.cursor == Cursor::Arrow,
        shell.screen.focus is None,
{
}

} // verus!
