//! Key codes of the kernel's input layer, as the `evdev` crate names them.

use evdev::Key;
use std::str::FromStr;
use vstd::prelude::*;

verus! {

/// The number of key codes the input layer distinguishes. Every code a key set can hold
/// lies below it.
pub const KEY_COUNT: u16 = 0x300;

/// The code `evdev` gives to the key constant called `name` (`KEY_SPACE`, `KEY_Q`, ...),
/// or `None` where it has no constant of that name.
pub uninterp spec fn evdev_key_code(name: Seq<char>) -> Option<u16>;

/// Looks a key up by the name of its `evdev` constant.
///
/// Trusted: calls `<evdev::Key as FromStr>::from_str`, which searches the fixed list of
/// the crate's key constants for `name`, and reads the code of the key found with
/// `Key::code`. The contract only names that result.
#[verifier::external_body]
pub(crate) fn key_code_named(name: &str) -> (code: Option<u16>)
    ensures
        code == evdev_key_code(name@),
{
    match Key::from_str(name) {
        Ok(key) => Some(key.code()),
        Err(_) => None,
    }
}

/// A looked-up code, kept only where a key set can hold it.
pub open spec fn usable_code(code: Option<u16>) -> Option<u16> {
    match code {
        Some(c) if c < KEY_COUNT => Some(c),
        _ => None,
    }
}

} // verus!
