//! Physical input: which key codes are real user input and which input
//! events count as activity.
use vstd::prelude::*;

verus! {

/// Linux input key codes of keys that are not user input.
pub const KEY_POWER: u16 = 116;
pub const KEY_SLEEP: u16 = 142;
pub const KEY_WAKEUP: u16 = 143;
pub const KEY_SUSPEND: u16 = 205;
pub const KEY_POWER2: u16 = 356;

pub open spec fn ignored_key(code: u16) -> bool {
    code == KEY_POWER || code == KEY_POWER2 || code == KEY_SLEEP || code == KEY_SUSPEND || code
        == KEY_WAKEUP
}

/// A power button, lid switch or suspend key firing is not the user typing
/// or moving the mouse.
pub fn is_ignored_key(code: u16) -> (r: bool)
    ensures
        r == ignored_key(code),
{
    code == KEY_POWER || code == KEY_POWER2 || code == KEY_SLEEP || code == KEY_SUSPEND || code
        == KEY_WAKEUP
}

/// A device is watched when it reports key events and at least one of its
/// keys is real input (so power buttons and lid switches are left out).
pub fn is_user_input_device(reports_keys: bool, keys: &Vec<u16>) -> (r: bool)
    ensures
        r == (reports_keys && exists|i: int| 0 <= i < keys@.len() && !ignored_key(#[trigger] keys@[i])),
{
    if !reports_keys {
        return false;
    }
    let mut i: usize = 0;
    while i < keys.len()
        invariant
            i <= keys@.len(),
            reports_keys,
            forall|j: int| 0 <= j < i ==> ignored_key(#[trigger] keys@[j]),
        decreases keys@.len() - i,
    {
        if !is_ignored_key(keys[i]) {
            assert(!ignored_key(keys@[i as int]));
            return true;
        }
        i = i + 1;
    }
    false
}

/// An event is activity when its value is non-zero: a key press or repeat,
/// or any movement; releases and sync reports are not.
pub fn is_activity_event(value: i32) -> (r: bool)
    ensures
        r == (value != 0),
{
    value != 0
}

} // verus!
