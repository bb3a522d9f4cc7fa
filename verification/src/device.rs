//! Telling the keypad from the other input devices of the machine.

use vstd::prelude::*;

verus! {

/// The vendor number of the keypad's maker.
pub const VENDOR: u16 = 0x1532;

/// The product number of the keypad.
pub const PRODUCT: u16 = 0x0207;

/// What is read of an input device to identify it.
#[derive(Copy, Clone, Debug, PartialEq, Eq, Structural)]
pub struct DeviceInfo {
    pub vendor: u16,
    pub product: u16,
    /// Whether the device reports any LEDs. The keypad shows up as several input
    /// devices, and its keys come from the one with LEDs.
    pub has_leds: bool,
}

/// Whether a device is the keyboard part of the keypad.
pub open spec fn is_orbweaver(device: DeviceInfo) -> bool {
    device.has_leds && device.vendor == VENDOR && device.product == PRODUCT
}

/// Tells whether a device is the keyboard part of the keypad.
pub fn is_orbweaver_keyboard(device: &DeviceInfo) -> (found: bool)
    ensures
        found == is_orbweaver(*device),
{
    device.has_leds && device.vendor == VENDOR && device.product == PRODUCT
}

/// Finds the keypad among the devices of the machine: the index of the first device
/// that is its keyboard part, or `None` if there is none.
pub fn find_orbweaver(devices: &Vec<DeviceInfo>) -> (found: Option<usize>)
    ensures
        match found {
            Some(at) => at < devices.len() && is_orbweaver(devices[at as int]) && forall|i: int|
                0 <= i < at ==> !is_orbweaver(#[trigger] devices[i]),
            None => forall|i: int| 0 <= i < devices.len() ==> !is_orbweaver(#[trigger] devices[i]),
        },
{
    let mut i: usize = 0;
    while i < devices.len()
        invariant
            i <= devices.len(),
            forall|j: int| 0 <= j < i ==> !is_orbweaver(#[trigger] devices[j]),
        decreases devices.len() - i,
    {
        if is_orbweaver_keyboard(&devices[i]) {
            return Some(i);
        }
        i += 1;
    }
    None
}

} // verus!
