//! Input routing.
//!
//! There is one surface that input can go to, so routing is a matter of which
//! calls an event leads to; and one chord that is never forwarded.
use vstd::prelude::*;

verus! {

/// A VT switch that was asked for.
#[derive(Debug, Clone, Copy, PartialEq, Eq, Structural)]
pub struct SwitchVt(pub i32);

/// The modifiers that matter.
#[derive(Debug, Clone, Copy, PartialEq, Eq, Structural)]
pub struct Modifiers {
    pub ctrl: bool,
    pub alt: bool,
}

/// The keysym of the first VT switch action.
pub const XF86_SWITCH_VT_1: u32 = 0x1008fe01;

/// The keysym of F1.
pub const F1: u32 = 0xffbe;

/// The VT that a keysym with Ctrl and Alt stands for, if it stands for one.
///
/// A layout may have the switch actions bound, or leave the function keys as they
/// are.
pub open spec fn switch_target(keysym: u32) -> Option<i32> {
    if XF86_SWITCH_VT_1 <= keysym < XF86_SWITCH_VT_1 + 12 {
        Some((keysym - XF86_SWITCH_VT_1 + 1) as i32)
    } else if F1 <= keysym < F1 + 12 {
        Some((keysym - F1 + 1) as i32)
    } else {
        None
    }
}

/// Map Ctrl+Alt+F1..F12 to a VT number.
///
/// Both modifiers are required, as in the kernel's own chord, so that a greeter
/// that wants a plain function key still gets it.
pub fn vt_for(modifiers: Modifiers, keysym: u32) -> (r: Option<i32>)
    ensures
        r == (if modifiers.ctrl && modifiers.alt {
            switch_target(keysym)
        } else {
            None
        }),
{
    if !(modifiers.ctrl && modifiers.alt) {
        return None;
    }
    if keysym >= XF86_SWITCH_VT_1 && keysym < XF86_SWITCH_VT_1 + 12 {
        return Some((keysym - XF86_SWITCH_VT_1 + 1) as i32);
    }
    if keysym >= F1 && keysym < F1 + 12 {
        return Some((keysym - F1 + 1) as i32);
    }
    None
}

/// What becomes of a key.
#[derive(Debug, Clone, Copy, PartialEq, Eq, Structural)]
pub enum KeyVerdict {
    /// The greeter gets it.
    Forward,
    /// The greeter never sees it.
    Intercept(SwitchVt),
}

/// Decide on a key.
///
/// The chord is intercepted and never forwarded: a greeter that could see it could
/// swallow it, and a wedged greeter would leave no way out.
pub fn filter_key(pressed: bool, modifiers: Modifiers, keysym: u32) -> (r: KeyVerdict)
    ensures
        r == (if pressed && modifiers.ctrl && modifiers.alt && switch_target(keysym) is Some {
            KeyVerdict::Intercept(SwitchVt(switch_target(keysym)->0))
        } else {
            KeyVerdict::Forward
        }),
{
    if !pressed {
        return KeyVerdict::Forward;
    }
    match vt_for(modifiers, keysym) {
        Some(vt) => KeyVerdict::Intercept(SwitchVt(vt)),
        None => KeyVerdict::Forward,
    }
}

/// Every VT from 1 to 12 can be switched to, by two keysyms, and no other; and two
/// keysyms of one kind never mean the same VT.
pub proof fn law_every_console_is_reachable(vt: i32, keysym: u32)
    ensures
        1 <= vt <= 12 ==> switch_target((F1 + vt - 1) as u32) == Some(vt) && switch_target(
            (XF86_SWITCH_VT_1 + vt - 1) as u32,
        ) == Some(vt),
        switch_target(keysym) matches Some(target) ==> 1 <= target <= 12 && (keysym == F1 + target
            - 1 || keysym == XF86_SWITCH_VT_1 + target - 1),
{
}

/// The kinds of input events.
#[derive(Debug, Clone, Copy, PartialEq, Eq, Structural)]
pub enum InputKind {
    Keyboard,
    PointerMotion,
    PointerMotionAbsolute,
    PointerButton,
    PointerAxis,
    TouchDown,
    TouchMotion,
    TouchUp,
    TouchCancel,
    TouchFrame,
    /// Devices coming and going, which the backend takes care of.
    Other,
}

/// One call that an event leads to.
#[derive(Debug, Clone, Copy, PartialEq, Eq, Structural)]
pub enum InputStep {
    /// Hand the key to the keyboard, through [`filter_key`].
    Key,
    /// Move the pointer by the event's delta, kept on the output.
    MoveBy,
    /// Report the delta by itself.
    RelativeMotion,
    /// Move the pointer to the event's place on the output.
    MoveTo,
    Button,
    Axis,
    PointerFrame,
    Down,
    Motion,
    Up,
    Cancel,
    TouchFrame,
}

/// The calls that an event leads to, in order: none where the device is missing, or
/// where a position needs an output and there is none.
pub open spec fn routed(kind: InputKind, pointer: bool, touch: bool, output: bool) -> Seq<InputStep> {
    match kind {
        InputKind::Keyboard => seq![InputStep::Key],
        InputKind::PointerMotion => if pointer {
            seq![InputStep::MoveBy, InputStep::RelativeMotion, InputStep::PointerFrame]
        } else {
            seq![]
        },
        InputKind::PointerMotionAbsolute => if pointer && output {
            seq![InputStep::MoveTo, InputStep::PointerFrame]
        } else {
            seq![]
        },
        InputKind::PointerButton => if pointer {
            seq![InputStep::Button, InputStep::PointerFrame]
        } else {
            seq![]
        },
        InputKind::PointerAxis => if pointer {
            seq![InputStep::Axis, InputStep::PointerFrame]
        } else {
            seq![]
        },
        InputKind::TouchDown => if touch && output {
            seq![InputStep::Down, InputStep::TouchFrame]
        } else {
            seq![]
        },
        InputKind::TouchMotion => if touch && output {
            seq![InputStep::Motion, InputStep::TouchFrame]
        } else {
            seq![]
        },
        InputKind::TouchUp => if touch {
            seq![InputStep::Up, InputStep::TouchFrame]
        } else {
            seq![]
        },
        InputKind::TouchCancel => if touch {
            seq![InputStep::Cancel, InputStep::TouchFrame]
        } else {
            seq![]
        },
        InputKind::TouchFrame => if touch {
            seq![InputStep::TouchFrame]
        } else {
            seq![]
        },
        InputKind::Other => seq![],
    }
}

/// Two steps.
fn both(first: InputStep, second: InputStep) -> (r: Vec<InputStep>)
    ensures
        r@ == seq![first, second],
{
    let mut r: Vec<InputStep> = Vec::new();
    r.push(first);
    r.push(second);
    assert(r@ =~= seq![first, second]);
    r
}

/// Route one input event: the calls that it leads to, in order.
pub fn handle(kind: InputKind, pointer: bool, touch: bool, output: bool) -> (r: Vec<InputStep>)
    ensures
        r@ == routed(kind, pointer, touch, output),
{
    let mut steps: Vec<InputStep> = Vec::new();
    match kind {
        InputKind::Keyboard => {
            steps.push(InputStep::Key);
        },
        InputKind::PointerMotion => {
            if pointer {
                steps.push(InputStep::MoveBy);
                steps.push(InputStep::RelativeMotion);
                steps.push(InputStep::PointerFrame);
            }
        },
        InputKind::PointerMotionAbsolute => {
            if pointer && output {
                steps = both(InputStep::MoveTo, InputStep::PointerFrame);
            }
        },
        InputKind::PointerButton => {
            if pointer {
                steps = both(InputStep::Button, InputStep::PointerFrame);
            }
        },
        InputKind::PointerAxis => {
            if pointer {
                steps = both(InputStep::Axis, InputStep::PointerFrame);
            }
        },
        InputKind::TouchDown => {
            if touch && output {
                steps = both(InputStep::Down, InputStep::TouchFrame);
            }
        },
        InputKind::TouchMotion => {
            if touch && output {
                steps = both(InputStep::Motion, InputStep::TouchFrame);
            }
        },
        InputKind::TouchUp => {
            if touch {
                steps = both(InputStep::Up, InputStep::TouchFrame);
            }
        },
        InputKind::TouchCancel => {
            if touch {
                steps = both(InputStep::Cancel, InputStep::TouchFrame);
            }
        },
        InputKind::TouchFrame => {
            if touch {
                steps.push(InputStep::TouchFrame);
            }
        },
        InputKind::Other => {},
    }
    assert(steps@ =~= routed(kind, pointer, touch, output));
    steps
}

/// Whatever moves the pointer or touches the screen is followed by a frame, so that
/// a client acts on it.
pub proof fn law_every_change_is_framed(kind: InputKind, pointer: bool, touch: bool, output: bool)
    ensures
        ({
            let steps = routed(kind, pointer, touch, output);
            kind != InputKind::Keyboard && steps.len() > 0 ==> steps.last()
                == InputStep::PointerFrame || steps.last() == InputStep::TouchFrame
        }),
{
}

/// Where the value of a scroll along one axis comes from.
#[derive(Debug, Clone, Copy, PartialEq, Eq, Structural)]
pub enum AxisValue {
    /// The device's own amount.
    Amount,
    /// Made up from its discrete steps, for clients that ignore those.
    Steps,
    Absent,
}

/// What is said of one axis of a scroll.
#[derive(Debug, Clone, Copy, PartialEq, Eq, Structural)]
pub struct AxisPlan {
    pub steps: bool,
    pub value: AxisValue,
    pub stop: bool,
}

/// What to say of one axis of a scroll, given whether the device reports discrete
/// steps and an amount, whether that amount is zero, and whether it is a finger's.
///
/// Only a finger that comes to rest stops.
pub fn axis_plan(has_steps: bool, has_amount: bool, amount_is_zero: bool, finger: bool) -> (r:
    AxisPlan)
    ensures
        r.steps == has_steps,
        r.value == (if has_amount {
            AxisValue::Amount
        } else if has_steps {
            AxisValue::Steps
        } else {
            AxisValue::Absent
        }),
        r.stop == (finger && has_amount && amount_is_zero),
{
    let value: AxisValue = if has_amount {
        AxisValue::Amount
    } else if has_steps {
        AxisValue::Steps
    } else {
        AxisValue::Absent
    };
    AxisPlan { steps: has_steps, value, stop: finger && has_amount && amount_is_zero }
}

/// The keysyms of the function keys and of the switch actions count up from the
/// first of each, and stand for the terminals in their order.
pub proof fn law_which_keys_switch(vt: i32)
    requires
        1 <= vt <= 12,
    ensures
        switch_target((0xffbd + vt) as u32) == Some(vt),
        switch_target((0x1008fe00 + vt) as u32) == Some(vt),
        switch_target(0xffbd) is None,
        switch_target(0x1008fe00) is None,
        switch_target(0xffca) is None,
        switch_target(0x1008fe0d) is None,
{
}

/// What an event is comes first among its calls, and its frame last; with the device
/// that it is for, it is never dropped, except for want of an output to be placed on.
pub proof fn law_what_an_event_leads_to(kind: InputKind, pointer: bool, touch: bool, output: bool)
    ensures
        ({
            let steps = routed(kind, pointer, touch, output);
            let points = kind == InputKind::PointerMotion || kind
                == InputKind::PointerMotionAbsolute || kind == InputKind::PointerButton || kind
                == InputKind::PointerAxis;
            let touches = kind == InputKind::TouchDown || kind == InputKind::TouchMotion || kind
                == InputKind::TouchUp || kind == InputKind::TouchCancel || kind
                == InputKind::TouchFrame;
            let placed = kind == InputKind::PointerMotionAbsolute || kind == InputKind::TouchDown
                || kind == InputKind::TouchMotion;
            &&& kind == InputKind::Keyboard ==> steps == seq![InputStep::Key]
            &&& kind == InputKind::Other ==> steps.len() == 0
            &&& points ==> (steps.len() > 0 <==> pointer && (placed ==> output))
            &&& touches ==> (steps.len() > 0 <==> touch && (placed ==> output))
            &&& points && steps.len() > 0 ==> steps.last() == InputStep::PointerFrame
            &&& touches && steps.len() > 0 ==> steps.last() == InputStep::TouchFrame
            &&& steps.len() > 0 ==> steps[0] == (match kind {
                InputKind::PointerMotion => InputStep::MoveBy,
                InputKind::PointerMotionAbsolute => InputStep::MoveTo,
                InputKind::PointerButton => InputStep::Button,
                InputKind::PointerAxis => InputStep::Axis,
                InputKind::TouchDown => InputStep::Down,
                InputKind::TouchMotion => InputStep::Motion,
                InputKind::TouchUp => InputStep::Up,
                InputKind::TouchCancel => InputStep::Cancel,
                InputKind::TouchFrame => InputStep::TouchFrame,
                _ => InputStep::Key,
            })
            &&& kind == InputKind::PointerMotion && pointer ==> steps.len() == 3 && steps[1]
                == InputStep::RelativeMotion
            &&& kind != InputKind::PointerMotion ==> steps.len() <= 2
        }),
{
}

/// A function key switches only with both modifiers and only when it is pressed;
/// whatever else is typed is the greeter's, and the greeter never sees the chord.
pub proof fn law_only_the_chord_is_intercepted(
    pressed: bool,
    modifiers: Modifiers,
    keysym: u32,
    verdict: KeyVerdict,
    target: Option<i32>,
)
    requires
        call_ensures(filter_key, (pressed, modifiers, keysym), verdict),
        call_ensures(vt_for, (modifiers, keysym), target),
    ensures
        !pressed || !modifiers.ctrl || !modifiers.alt ==> verdict == KeyVerdict::Forward,
        !modifiers.ctrl || !modifiers.alt ==> target is None,
        modifiers.ctrl && modifiers.alt ==> target == switch_target(keysym),
        verdict matches KeyVerdict::Intercept(SwitchVt(vt)) ==> pressed && target == Some(vt),
        pressed && target is Some ==> verdict is Intercept,
{
}

/// An axis has a value wherever the device gave one, its own before the steps; only a
/// finger that rests stops it.
pub proof fn law_what_is_said_of_an_axis(
    has_steps: bool,
    has_amount: bool,
    amount_is_zero: bool,
    finger: bool,
    plan: AxisPlan,
)
    requires
        call_ensures(axis_plan, (has_steps, has_amount, amount_is_zero, finger), plan),
    ensures
        plan.steps == has_steps,
        plan.value == AxisValue::Amount <==> has_amount,
        plan.value == AxisValue::Steps <==> has_steps && !has_amount,
        plan.stop ==> finger && has_amount && amount_is_zero,
        finger && has_amount && amount_is_zero ==> plan.stop,
{
}

} // verus!
