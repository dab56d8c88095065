use window_manager::conversion::{
    modifiers_to_native, pointer_axis_to_native, pointer_button_to_native, AxisSourceKind,
    KeyCodeError, KeyModifiers, MouseButton, ScrollDelta,
};

fn no_modifiers() -> KeyModifiers {
    KeyModifiers {
        ctrl: false,
        alt: false,
        shift: false,
        caps_lock: false,
        logo: false,
        num_lock: false,
    }
}

#[test]
fn left_code_is_left_button() {
    assert_eq!(pointer_button_to_native(0x110), Some(MouseButton::Left));
}

#[test]
fn named_codes_map_to_named_buttons() {
    assert_eq!(pointer_button_to_native(0x111), Some(MouseButton::Right));
    assert_eq!(pointer_button_to_native(0x112), Some(MouseButton::Middle));
    assert_eq!(pointer_button_to_native(0x113), Some(MouseButton::Back));
    assert_eq!(pointer_button_to_native(0x114), Some(MouseButton::Forward));
}

#[test]
fn unnamed_code_in_range_is_other() {
    assert_eq!(pointer_button_to_native(0x115), Some(MouseButton::Other(0x115)));
    assert_eq!(pointer_button_to_native(0), Some(MouseButton::Other(0)));
    assert_eq!(pointer_button_to_native(0xffff), Some(MouseButton::Other(0xffff)));
}

#[test]
fn code_out_of_range_has_no_mapping() {
    assert_eq!(pointer_button_to_native(0x1_0000), None);
    assert_eq!(pointer_button_to_native(u32::MAX), None);
}

#[test]
fn wheel_scroll_is_inverted_lines() {
    assert_eq!(
        pointer_axis_to_native(Some(AxisSourceKind::Wheel), 2, 0),
        Some(ScrollDelta::Lines { x: -2, y: 0 })
    );
    assert_eq!(
        pointer_axis_to_native(Some(AxisSourceKind::WheelTilt), -3, 5),
        Some(ScrollDelta::Lines { x: 3, y: -5 })
    );
}

#[test]
fn wheel_scroll_of_smallest_reading_does_not_overflow() {
    assert_eq!(
        pointer_axis_to_native(Some(AxisSourceKind::Wheel), i32::MIN, 0),
        Some(ScrollDelta::Lines { x: 2_147_483_648, y: 0 })
    );
}

#[test]
fn scroll_without_source_has_no_mapping() {
    assert_eq!(pointer_axis_to_native(None, 2, 0), None);
    assert_eq!(pointer_axis_to_native(None, 0, 0), None);
    assert_eq!(pointer_axis_to_native(None, -7, 9), None);
}

#[test]
fn continuous_scroll_is_pixels() {
    assert_eq!(pointer_axis_to_native(Some(AxisSourceKind::Finger), 2, 0), Some(ScrollDelta::Pixels));
    assert_eq!(
        pointer_axis_to_native(Some(AxisSourceKind::Continuous), 0, 1),
        Some(ScrollDelta::Pixels)
    );
}

#[test]
fn alt_and_shift_give_exactly_alt_and_shift() {
    let mods = KeyModifiers { alt: true, shift: true, ..no_modifiers() };
    assert_eq!(modifiers_to_native(mods).bits, 256 | 4);
}

#[test]
fn each_named_modifier_has_its_bit() {
    assert_eq!(modifiers_to_native(KeyModifiers { shift: true, ..no_modifiers() }).bits, 4);
    assert_eq!(modifiers_to_native(KeyModifiers { ctrl: true, ..no_modifiers() }).bits, 32);
    assert_eq!(modifiers_to_native(KeyModifiers { alt: true, ..no_modifiers() }).bits, 256);
    assert_eq!(modifiers_to_native(KeyModifiers { logo: true, ..no_modifiers() }).bits, 2048);
    let all = KeyModifiers {
        ctrl: true,
        alt: true,
        shift: true,
        caps_lock: true,
        logo: true,
        num_lock: true,
    };
    assert_eq!(modifiers_to_native(all).bits, 4 | 32 | 256 | 2048);
}

#[test]
fn locks_without_counterpart_are_dropped() {
    assert_eq!(modifiers_to_native(no_modifiers()).bits, 0);
    let locks = KeyModifiers { caps_lock: true, num_lock: true, ..no_modifiers() };
    assert_eq!(modifiers_to_native(locks).bits, 0);
}

#[test]
fn key_code_error_keeps_its_code() {
    assert_eq!(KeyCodeError(42).code(), 42);
}
