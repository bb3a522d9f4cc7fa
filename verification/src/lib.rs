//! Remaps the key events of a macro keypad onto a virtual input device.
//!
//! The library holds the decisions: which output key a raw key stands for, what an
//! incoming event asks of the virtual device, and how a repeat worker toggles its key
//! until it is cancelled. Reading devices, writing events, threads and sleeping are left
//! to the caller, which performs the actions the library returns.
//!
//! - [`config`] reads the lines of a configuration.
//! - [`utils`] holds the entries of the tables and the table of symbolic key names.
//! - [`processor`] builds the mapping table and decides what each event asks for.
//! - [`repeat`] is the cycle of a repeat worker.
//! - [`device`] tells the keypad from other input devices.
//! - [`keycodes`] and [`keyset`] are where the library meets the `evdev` crate.
//!
//! Everything is verified but for what is taken on trust from two crates: the code that
//! `evdev` gives a key of a certain name ([`keycodes::evdev_key_code`]), what its set of
//! keys holds after a key is added and in what order it hands the keys out
//! ([`keyset::KeySet`]), and that `rand` draws a number from the range it is given.

pub mod config;
pub mod device;
pub mod keycodes;
pub mod keyset;
pub mod processor;
pub mod repeat;
pub mod utils;
