//! Conversions from platform-native input primitives (pointer buttons,
//! scroll axes, keyboard modifiers) into the toolkit's neutral input types.

use smithay_client_toolkit::seat::pointer::{
    BTN_EXTRA, BTN_LEFT, BTN_MIDDLE, BTN_RIGHT, BTN_SIDE,
};
use iced_runtime::keyboard::Modifiers;
use vstd::prelude::*;

verus! {

/// An error that carries a key code that could not be converted.
pub struct KeyCodeError(pub u32);

impl KeyCodeError {
    /// The key code that could not be converted.
    pub fn code(&self) -> (r: u32)
        ensures
            r == self.0,
    {
        self.0
    }
}

/// A mouse button of the toolkit.
#[derive(Clone, Copy, Debug, PartialEq, Eq, Structural)]
pub enum MouseButton {
    Left,
    Right,
    Middle,
    Back,
    Forward,
    /// Any other button, by its numeric code.
    Other(u16),
}

/// Where a scroll event came from.
#[derive(Clone, Copy, Debug, PartialEq, Eq, Structural)]
pub enum AxisSourceKind {
    /// A physical mouse wheel.
    Wheel,
    /// A finger on a touch surface.
    Finger,
    /// A continuous coordinate space, such as a trackpoint.
    Continuous,
    /// The side-to-side tilt of a mouse wheel.
    WheelTilt,
}

/// A scroll movement of the toolkit.
#[derive(Clone, Copy, Debug, PartialEq, Eq, Structural)]
pub enum ScrollDelta {
    /// A line-based movement, in the toolkit's direction convention.
    Lines { x: i64, y: i64 },
    /// A pixel-based movement: its amounts are the sign-inverted absolute
    /// readings of the two axes, which the caller computes in floating point.
    Pixels,
}

/// The modifier keys that the platform's keyboard reports.
#[derive(Clone, Copy, Debug, PartialEq, Eq, Structural)]
pub struct KeyModifiers {
    pub ctrl: bool,
    pub alt: bool,
    pub shift: bool,
    pub caps_lock: bool,
    pub logo: bool,
    pub num_lock: bool,
}

/// A set of the toolkit's keyboard modifiers, as the toolkit's bits.
#[derive(Clone, Copy, Debug, PartialEq, Eq, Structural)]
pub struct ModifierSet {
    pub bits: u32,
}

/// The platform's codes of the left, right, middle, side (back) and extra
/// (forward) pointer buttons.
pub open spec fn named_codes_spec() -> (u32, u32, u32, u32, u32) {
    (0x110u32, 0x111u32, 0x112u32, 0x113u32, 0x114u32)
}

/// Relies on sctk's BTN_LEFT, BTN_RIGHT, BTN_MIDDLE, BTN_SIDE and BTN_EXTRA:
/// the linux input codes 0x110 to 0x114.
#[verifier::external_body]
fn named_button_codes() -> (r: (u32, u32, u32, u32, u32))
    ensures
        r == named_codes_spec(),
{
    (BTN_LEFT, BTN_RIGHT, BTN_MIDDLE, BTN_SIDE, BTN_EXTRA)
}

/// The toolkit's bits of shift, control, alt and logo.
pub open spec fn modifier_bits_spec() -> (u32, u32, u32, u32) {
    (4u32, 32u32, 256u32, 2048u32)
}

/// Relies on the bits of the toolkit's `keyboard::Modifiers` constants SHIFT,
/// CTRL, ALT and LOGO.
#[verifier::external_body]
fn named_modifier_bits() -> (r: (u32, u32, u32, u32))
    ensures
        r == modifier_bits_spec(),
{
    (Modifiers::SHIFT.bits(), Modifiers::CTRL.bits(), Modifiers::ALT.bits(), Modifiers::LOGO.bits())
}

/// The toolkit button that a platform button code stands for.
pub open spec fn button_of(code: u32) -> Option<MouseButton> {
    let (left, right, middle, side, extra) = named_codes_spec();
    if code == left {
        Some(MouseButton::Left)
    } else if code == right {
        Some(MouseButton::Right)
    } else if code == middle {
        Some(MouseButton::Middle)
    } else if code == side {
        Some(MouseButton::Back)
    } else if code == extra {
        Some(MouseButton::Forward)
    } else if code <= u16::MAX {
        Some(MouseButton::Other(code as u16))
    } else {
        None
    }
}

/// Converts a platform pointer button code into a toolkit button; a code with
/// no name that does not fit a `u16` has no mapping.
pub fn pointer_button_to_native(button: u32) -> (r: Option<MouseButton>)
    ensures
        r == button_of(button),
{
    let (left, right, middle, side, extra) = named_button_codes();
    if button == left {
        Some(MouseButton::Left)
    } else if button == right {
        Some(MouseButton::Right)
    } else if button == middle {
        Some(MouseButton::Middle)
    } else if button == side {
        Some(MouseButton::Back)
    } else if button == extra {
        Some(MouseButton::Forward)
    } else if button <= u16::MAX as u32 {
        Some(MouseButton::Other(button as u16))
    } else {
        None
    }
}

/// The scroll movement for an axis source and the two discrete readings.
pub open spec fn scroll_of(
    source: Option<AxisSourceKind>,
    horizontal_discrete: i32,
    vertical_discrete: i32,
) -> Option<ScrollDelta> {
    match source {
        None => None,
        Some(AxisSourceKind::Wheel) | Some(AxisSourceKind::WheelTilt) => Some(
            ScrollDelta::Lines {
                x: (-(horizontal_discrete as int)) as i64,
                y: (-(vertical_discrete as int)) as i64,
            },
        ),
        Some(_) => Some(ScrollDelta::Pixels),
    }
}

/// Converts a scroll sample into a toolkit scroll movement. Without a source
/// there is no mapping; a wheel gives lines from the discrete readings, any
/// other source gives pixels; both axes are sign-inverted.
pub fn pointer_axis_to_native(
    source: Option<AxisSourceKind>,
    horizontal_discrete: i32,
    vertical_discrete: i32,
) -> (r: Option<ScrollDelta>)
    ensures
        r == scroll_of(source, horizontal_discrete, vertical_discrete),
{
    match source {
        None => None,
        Some(AxisSourceKind::Wheel) | Some(AxisSourceKind::WheelTilt) => {
            let x: i64 = -(horizontal_discrete as i64);
            let y: i64 = -(vertical_discrete as i64);
            Some(ScrollDelta::Lines { x, y })
        },
        Some(_) => Some(ScrollDelta::Pixels),
    }
}

/// The toolkit's bits for a set of platform modifiers: alt, control, logo and
/// shift keep their names; the others have no counterpart and are dropped.
pub open spec fn modifiers_of(mods: KeyModifiers) -> u32 {
    let (shift, ctrl, alt, logo) = modifier_bits_spec();
    (((0u32 | (if mods.alt { alt } else { 0u32 })) | (if mods.ctrl { ctrl } else { 0u32 })) | (
    if mods.logo {
        logo
    } else {
        0u32
    })) | (if mods.shift { shift } else { 0u32 })
}

/// Converts platform keyboard modifiers into the toolkit's modifier set.
pub fn modifiers_to_native(mods: KeyModifiers) -> (r: ModifierSet)
    ensures
        r.bits == modifiers_of(mods),
{
    let (shift, ctrl, alt, logo) = named_modifier_bits();
    let mut bits: u32 = 0;
    bits = bits | (if mods.alt { alt } else { 0u32 });
    bits = bits | (if mods.ctrl { ctrl } else { 0u32 });
    bits = bits | (if mods.logo { logo } else { 0u32 });
    bits = bits | (if mods.shift { shift } else { 0u32 });
    ModifierSet { bits }
}

} // verus!
