//! What is sent to type a text through the clipboard: the clipboard's
//! content, and the Ctrl+V that pastes it.
use vstd::prelude::*;
use crate::keyboard_hook::{KeyInput, KEYEVENTF_KEYUP};
use crate::utf16::{encode_utf16, utf16_encode};

verus! {

/// `VK_CONTROL`
pub const VK_CONTROL: u16 = 0x11;

/// `VK_V`
pub const VK_V: u16 = 0x56;

/// A key event with nothing but a key and flags.
pub open spec fn plain_input(vk: u16, flags: u32) -> KeyInput {
    KeyInput { vk, scan: 0, flags, time: 0, extra_info: 0 }
}

/// The Unicode text of the clipboard for `text`: its UTF-16 code units
/// and a terminating zero.
pub fn clipboard_units(text: &str) -> (r: Vec<u16>)
    ensures
        r@ == utf16_encode(text@).push(0u16),
{
    let mut units = encode_utf16(text);
    units.push(0);
    units
}

/// Ctrl+V: control down, V down, V up, control up.
pub fn paste_inputs() -> (r: Vec<KeyInput>)
    ensures
        r@ == seq![
            plain_input(VK_CONTROL, 0),
            plain_input(VK_V, 0),
            plain_input(VK_V, KEYEVENTF_KEYUP),
            plain_input(VK_CONTROL, KEYEVENTF_KEYUP),
        ],
{
    let mut r: Vec<KeyInput> = Vec::new();
    r.push(KeyInput { vk: VK_CONTROL, scan: 0, flags: 0, time: 0, extra_info: 0 });
    r.push(KeyInput { vk: VK_V, scan: 0, flags: 0, time: 0, extra_info: 0 });
    r.push(KeyInput { vk: VK_V, scan: 0, flags: KEYEVENTF_KEYUP, time: 0, extra_info: 0 });
    r.push(KeyInput { vk: VK_CONTROL, scan: 0, flags: KEYEVENTF_KEYUP, time: 0, extra_info: 0 });
    assert(r@ =~= seq![
        plain_input(VK_CONTROL, 0),
        plain_input(VK_V, 0),
        plain_input(VK_V, KEYEVENTF_KEYUP),
        plain_input(VK_CONTROL, KEYEVENTF_KEYUP),
    ]);
    r
}

} // verus!
