use wdm::input::{
    axis_plan, filter_key, handle, vt_for, AxisValue, InputKind, InputStep, KeyVerdict, Modifiers,
    SwitchVt,
};

fn modifiers(ctrl: bool, alt: bool) -> Modifiers {
    Modifiers { ctrl, alt }
}

#[test]
fn ctrl_alt_f1_switches_to_vt1() {
    assert_eq!(vt_for(modifiers(true, true), 0xffbe), Some(1));
}

#[test]
fn ctrl_alt_f7_switches_to_vt7() {
    assert_eq!(vt_for(modifiers(true, true), 0xffbe + 6), Some(7));
}

#[test]
fn recognises_xf86_switch_vt_keysyms() {
    assert_eq!(vt_for(modifiers(true, true), 0x1008fe01), Some(1));
    assert_eq!(vt_for(modifiers(true, true), 0x1008fe01 + 11), Some(12));
}

#[test]
fn requires_both_modifiers() {
    let f1 = 0xffbe;
    assert_eq!(vt_for(modifiers(false, false), f1), None);
    assert_eq!(vt_for(modifiers(true, false), f1), None);
    assert_eq!(vt_for(modifiers(false, true), f1), None);
}

#[test]
fn other_keys_are_not_vt_switches() {
    assert_eq!(vt_for(modifiers(true, true), 0x061), None);
    assert_eq!(vt_for(modifiers(true, true), 0xffbe + 12), None);
    assert_eq!(vt_for(modifiers(true, true), 0x1008fe01 + 12), None);
}

#[test]
fn the_chord_is_kept_from_the_greeter() {
    let both = modifiers(true, true);
    assert_eq!(
        filter_key(true, both, 0xffbe),
        KeyVerdict::Intercept(SwitchVt(1))
    );
    assert_eq!(filter_key(false, both, 0xffbe), KeyVerdict::Forward);
    assert_eq!(filter_key(true, both, 0x61), KeyVerdict::Forward);
    assert_eq!(
        filter_key(true, modifiers(false, true), 0xffbe),
        KeyVerdict::Forward
    );
}

#[test]
fn every_change_is_framed() {
    assert_eq!(
        handle(InputKind::PointerMotion, true, true, true),
        [
            InputStep::MoveBy,
            InputStep::RelativeMotion,
            InputStep::PointerFrame
        ]
    );
    assert_eq!(
        handle(InputKind::TouchDown, true, true, true),
        [InputStep::Down, InputStep::TouchFrame]
    );
    assert!(handle(InputKind::TouchDown, true, true, false).is_empty());
    assert!(handle(InputKind::PointerButton, false, true, true).is_empty());
    assert_eq!(
        handle(InputKind::Keyboard, false, false, false),
        [InputStep::Key]
    );
}

#[test]
fn only_a_finger_that_rests_stops_a_scroll() {
    assert!(axis_plan(false, true, true, true).stop);
    assert!(!axis_plan(false, true, true, false).stop);
    assert!(!axis_plan(false, true, false, true).stop);
    assert_eq!(axis_plan(true, false, false, false).value, AxisValue::Steps);
    assert_eq!(axis_plan(true, true, false, false).value, AxisValue::Amount);
    assert_eq!(axis_plan(false, false, false, true).value, AxisValue::Absent);
}
