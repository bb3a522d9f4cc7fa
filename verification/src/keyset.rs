//! The set of keys a virtual device is created with.

use crate::keycodes::KEY_COUNT;
use crate::utils::StrMap;
use evdev::{AttributeSet, Key};
use vstd::prelude::*;

verus! {

/// A set of key codes, held in `evdev`'s `AttributeSet<Key>`: one bit for each of the
/// [`KEY_COUNT`] codes.
///
/// Trusted: nothing is proved of what is inside. What the set holds is
/// [`key_set_codes`], and the three functions below say how the calls into `evdev`
/// change and read it.
#[verifier::external_body]
pub struct KeySet {
    keys: AttributeSet<Key>,
}

/// The codes that a key set holds.
pub uninterp spec fn key_set_codes(set: KeySet) -> Set<u16>;

impl KeySet {
    /// A set that holds no code.
    ///
    /// Trusted: calls `AttributeSet::new`, which clears every bit.
    #[verifier::external_body]
    pub(crate) fn empty() -> (set: KeySet)
        ensures
            key_set_codes(set) == Set::<u16>::empty(),
    {
        KeySet { keys: AttributeSet::new() }
    }

    /// Adds `code` to the set.
    ///
    /// Trusted: calls `AttributeSetRef::insert` with `Key::new(code)`, which sets the bit
    /// of that code and leaves the others. It panics on an index the set has no bit for,
    /// so the code must lie below [`KEY_COUNT`].
    #[verifier::external_body]
    pub(crate) fn insert(&mut self, code: u16)
        requires
            code < KEY_COUNT,
        ensures
            key_set_codes(*final(self)) == key_set_codes(*old(self)).insert(code),
    {
        self.keys.insert(Key::new(code));
    }

    /// The codes in the set, from the lowest to the highest.
    ///
    /// Trusted: calls `AttributeSetRef::iter`, which yields the key of every set bit in
    /// the order of the bits, and reads each key's code with `Key::code`.
    #[verifier::external_body]
    pub(crate) fn codes(&self) -> (codes: Vec<u16>)
        ensures
            codes@.to_set() == key_set_codes(*self),
            forall|i: int, j: int| 0 <= i < j < codes.len() ==> codes[i] < codes[j],
    {
        self.keys.iter().map(|key| key.code()).collect()
    }
}

/// The set of all output keys that the names of a table stand for.
pub fn create_key_set(key_map: &StrMap) -> (set: KeySet)
    ensures
        key_set_codes(set) == key_map@.values(),
        forall|code: u16| key_set_codes(set).contains(code) ==> code < KEY_COUNT,
{
    let codes = key_map.values();
    let mut set = KeySet::empty();
    let mut i: usize = 0;
    assert(codes@.take(0).to_set() =~= Set::<u16>::empty());
    while i < codes.len()
        invariant
            i <= codes.len(),
            forall|j: int| 0 <= j < codes.len() ==> codes[j] < KEY_COUNT,
            key_set_codes(set) == codes@.take(i as int).to_set(),
        decreases codes.len() - i,
    {
        set.insert(codes[i]);
        proof {
            assert(codes@.take(i + 1) =~= codes@.take(i as int).push(codes[i as int]));
            codes@.take(i as int).lemma_push_to_set_commute(codes[i as int]);
        }
        i += 1;
    }
    assert(codes@.take(codes.len() as int) =~= codes@);
    assert forall|code: u16| key_set_codes(set).contains(code) implies code < KEY_COUNT by {
        let j = choose|j: int| 0 <= j < codes.len() && codes[j] == code;
        assert(codes[j] < KEY_COUNT);
    }
    set
}

/// The keys that a virtual device is to be created with, for a table of names: every
/// output key that a name stands for, each once, in rising order.
pub fn output_keys(key_map: &StrMap) -> (codes: Vec<u16>)
    ensures
        codes@.to_set() == key_map@.values(),
        forall|i: int, j: int| 0 <= i < j < codes.len() ==> codes[i] < codes[j],
        forall|i: int| 0 <= i < codes.len() ==> codes[i] < KEY_COUNT,
{
    let codes = create_key_set(key_map).codes();
    assert forall|i: int| 0 <= i < codes.len() implies codes[i] < KEY_COUNT by {
        assert(codes@.to_set().contains(codes[i]));
    }
    codes
}

} // verus!
