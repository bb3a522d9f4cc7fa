//! The data the remapper works on: key behaviours, mapping entries, and the table of
//! symbolic key names.

use crate::keycodes::{evdev_key_code, key_code_named, usable_code, KEY_COUNT};
use std::collections::HashMap;
use vstd::prelude::*;

verus! {

/// How a mapped key behaves while it is held.
#[derive(Copy, Clone, Debug, PartialEq, Eq, Structural)]
pub enum KeyType {
    /// Press, release and autorepeat are passed on as they come.
    Regular,
    /// The output key is pressed and released over and over until the key is let go.
    Repeat,
}

impl KeyType {
    /// The behaviour's name, `Regular` or `Repeat`.
    pub fn to_string(&self) -> (name: String)
        ensures
            name@ == (match *self {
                KeyType::Regular => "Regular"@,
                KeyType::Repeat => "Repeat"@,
            }),
    {
        match self {
            KeyType::Regular => "Regular".to_owned(),
            KeyType::Repeat => "Repeat".to_owned(),
        }
    }
}

/// One entry of the mapping table: the output key and its behaviour.
#[derive(Copy, Clone, Debug, PartialEq, Eq, Structural)]
pub struct KeyStruct {
    pub code: u16,
    pub key_type: KeyType,
}

/// One entry of the user's configuration: the symbolic name of the output key and the
/// behaviour asked for.
#[derive(Debug)]
pub struct ConfigStruct {
    pub key_str: String,
    pub key_type: KeyType,
}

impl Clone for ConfigStruct {
    fn clone(&self) -> (copy: Self)
        ensures
            copy == *self,
    {
        ConfigStruct { key_str: self.key_str.clone(), key_type: self.key_type }
    }
}

/// The user's configuration, keyed by slot number.
pub type UserConfig = HashMap<u16, ConfigStruct>;

/// A table after one more binding: `symbol` stands for `code` where there is one.
pub open spec fn bound(table: Map<Seq<char>, u16>, symbol: Seq<char>, code: Option<u16>) -> Map<
    Seq<char>,
    u16,
> {
    match code {
        Some(c) => table.insert(symbol, c),
        None => table,
    }
}

/// The table of symbolic key names: each name it holds stands for one output key code.
///
/// Every code in it lies below [`KEY_COUNT`].
pub struct StrMap {
    entries: Vec<(String, u16)>,
}

impl View for StrMap {
    type V = Map<Seq<char>, u16>;

    closed spec fn view(&self) -> Map<Seq<char>, u16> {
        Map::new(|name: Seq<char>| self.has(name), |name: Seq<char>| self.entries[self.position(name)].1)
    }
}

impl StrMap {
    #[verifier::type_invariant]
    spec fn well_formed(self) -> bool {
        &&& forall|i: int, j: int|
            0 <= i < j < self.entries.len() ==> (#[trigger] self.entries[i]).0@ != (
            #[trigger] self.entries[j]).0@
        &&& forall|i: int| 0 <= i < self.entries.len() ==> (#[trigger] self.entries[i]).1 < KEY_COUNT
    }

    spec fn has(self, name: Seq<char>) -> bool {
        exists|i: int| 0 <= i < self.entries.len() && (#[trigger] self.entries[i]).0@ == name
    }

    spec fn position(self, name: Seq<char>) -> int {
        choose|i: int| 0 <= i < self.entries.len() && (#[trigger] self.entries[i]).0@ == name
    }

    /// An empty table.
    pub fn new() -> (table: StrMap)
        ensures
            table@ == Map::<Seq<char>, u16>::empty(),
    {
        let table = StrMap { entries: Vec::new() };
        assert(table@ =~= Map::<Seq<char>, u16>::empty());
        table
    }

    fn find(&self, name: &String) -> (at: Option<usize>)
        ensures
            match at {
                Some(i) => i < self.entries.len() && self.entries[i as int].0@ == name@,
                None => !self.has(name@),
            },
    {
        let mut i: usize = 0;
        while i < self.entries.len()
            invariant
                i <= self.entries.len(),
                forall|j: int| 0 <= j < i ==> (#[trigger] self.entries[j]).0@ != name@,
            decreases self.entries.len() - i,
        {
            if self.entries[i].0 == *name {
                return Some(i);
            }
            i += 1;
        }
        None
    }

    /// The code that `name` stands for, if the table holds the name.
    pub fn get(&self, name: &str) -> (code: Option<u16>)
        ensures
            code == (if self@.contains_key(name@) {
                Some(self@[name@])
            } else {
                None
            }),
            code matches Some(c) ==> c < KEY_COUNT,
    {
        proof {
            use_type_invariant(self);
        }
        let owned = name.to_owned();
        match self.find(&owned) {
            Some(i) => Some(self.entries[i].1),
            None => None,
        }
    }

    /// The number of names in the table.
    pub fn len(&self) -> (n: usize)
        ensures
            self@.dom().finite(),
            n == self@.len(),
    {
        proof {
            use_type_invariant(self);
            let names = self.entries@.map_values(|entry: (String, u16)| entry.0@);
            assert forall|i: int, j: int| 0 <= i < j < names.len() implies names[i] != names[j] by {
                assert(self.entries[i].0@ != self.entries[j].0@);
            }
            assert(names.no_duplicates());
            assert forall|name: Seq<char>| names.to_set().contains(name) == self@.dom().contains(
                name,
            ) by {
                if names.to_set().contains(name) {
                    let i = choose|i: int| 0 <= i < names.len() && names[i] == name;
                    assert(self.entries[i].0@ == name);
                }
                if self.has(name) {
                    assert(names[self.position(name)] == name);
                }
            }
            assert(names.to_set() =~= self@.dom());
            names.unique_seq_to_set();
            vstd::seq_lib::seq_to_set_is_finite(names);
        }
        self.entries.len()
    }

    /// The codes that the table's names stand for.
    pub(crate) fn values(&self) -> (codes: Vec<u16>)
        ensures
            codes@.to_set() == self@.values(),
            forall|i: int| 0 <= i < codes.len() ==> codes[i] < KEY_COUNT,
    {
        proof {
            use_type_invariant(self);
        }
        let mut codes: Vec<u16> = Vec::new();
        let mut i: usize = 0;
        while i < self.entries.len()
            invariant
                i <= self.entries.len(),
                codes.len() == i,
                forall|j: int| 0 <= j < i ==> codes[j] == (#[trigger] self.entries[j]).1,
            decreases self.entries.len() - i,
        {
            codes.push(self.entries[i].1);
            i += 1;
        }
        proof {
            assert forall|c: u16| codes@.to_set().contains(c) == self@.values().contains(c) by {
                if codes@.to_set().contains(c) {
                    let j = choose|j: int| 0 <= j < codes.len() && codes[j] == c;
                    let name = self.entries[j].0@;
                    assert(self.has(name));
                    assert(self@.contains_key(name) && self@[name] == c);
                }
                if self@.values().contains(c) {
                    let name = choose|name: Seq<char>| self@.contains_key(name) && self@[name] == c;
                    assert(codes[self.position(name)] == c);
                }
            }
            assert(codes@.to_set() =~= self@.values());
            assert forall|i: int| 0 <= i < codes.len() implies codes[i] < KEY_COUNT by {
                assert(self.entries[i].1 < KEY_COUNT);
            }
        }
        codes
    }

    /// Lets `name` stand for `code`, in place of what it stood for before.
    pub fn insert(&mut self, name: &str, code: u16)
        requires
            code < KEY_COUNT,
        ensures
            final(self)@ == old(self)@.insert(name@, code),
    {
        proof {
            use_type_invariant(&*self);
        }
        let owned = name.to_owned();
        let found = self.find(&owned);
        // The entries are taken out while they change and put back when they are whole.
        let mut entries: Vec<(String, u16)> = Vec::new();
        std::mem::swap(&mut self.entries, &mut entries);
        match found {
            Some(i) => {
                entries.set(i, (owned, code));
                std::mem::swap(&mut self.entries, &mut entries);
                assert(self.entries[i as int].0@ == name@);
                assert forall|n: Seq<char>| self.has(n) == old(self).has(n) by {
                    if old(self).has(n) {
                        let k = old(self).position(n);
                        assert(self.entries[k].0@ == n);
                    }
                    if self.has(n) {
                        let k = self.position(n);
                        assert(old(self).entries[k].0@ == n);
                    }
                }
            },
            None => {
                entries.push((owned, code));
                std::mem::swap(&mut self.entries, &mut entries);
                assert(self.entries[old(self).entries.len() as int].0@ == name@);
                assert forall|n: Seq<char>| self.has(n) == (n == name@ || old(self).has(n)) by {
                    if old(self).has(n) {
                        let k = old(self).position(n);
                        assert(self.entries[k].0@ == n);
                    }
                    if self.has(n) && n != name@ {
                        let k = self.position(n);
                        assert(old(self).entries[k].0@ == n);
                    }
                }
            },
        }
        assert(self@ =~= old(self)@.insert(name@, code));
    }

    /// Lets `symbol` stand for a looked-up `code`, if there is one that a key set can hold.
    /// Otherwise the table stays as it is.
    pub fn bind_code(&mut self, symbol: &str, code: Option<u16>)
        ensures
            final(self)@ == bound(old(self)@, symbol@, usable_code(code)),
    {
        match code {
            Some(c) => {
                if c < KEY_COUNT {
                    self.insert(symbol, c);
                }
            },
            None => {},
        }
    }

    /// Lets `symbol` stand for the key whose `evdev` constant is called `key_name`. Where
    /// `evdev` has no such key, or gives it a code that no key set can hold, the table
    /// stays as it is.
    pub fn bind(&mut self, symbol: &str, key_name: &str)
        ensures
            final(self)@ == bound(old(self)@, symbol@, usable_code(evdev_key_code(key_name@))),
    {
        let code = key_code_named(key_name);
        self.bind_code(symbol, code);
    }
}

/// The symbolic key names a configuration may use, each with the name of the `evdev` key
/// constant it stands for.
pub const SYMBOL_KEYS: [(&'static str, &'static str); 69] = [
    ("1", "KEY_1"),
    ("2", "KEY_2"),
    ("3", "KEY_3"),
    ("4", "KEY_4"),
    ("5", "KEY_5"),
    ("6", "KEY_6"),
    ("7", "KEY_7"),
    ("8", "KEY_8"),
    ("9", "KEY_9"),
    ("0", "KEY_0"),
    ("Q", "KEY_Q"),
    ("W", "KEY_W"),
    ("E", "KEY_E"),
    ("R", "KEY_R"),
    ("T", "KEY_T"),
    ("Y", "KEY_Y"),
    ("U", "KEY_U"),
    ("I", "KEY_I"),
    ("O", "KEY_O"),
    ("P", "KEY_P"),
    ("A", "KEY_A"),
    ("S", "KEY_S"),
    ("D", "KEY_D"),
    ("F", "KEY_F"),
    ("G", "KEY_G"),
    ("H", "KEY_H"),
    ("J", "KEY_J"),
    ("K", "KEY_K"),
    ("L", "KEY_L"),
    ("SEMI", "KEY_SEMICOLON"),
    ("Z", "KEY_Z"),
    ("X", "KEY_X"),
    ("C", "KEY_C"),
    ("V", "KEY_V"),
    ("B", "KEY_B"),
    ("M", "KEY_M"),
    ("N", "KEY_N"),
    ("COMMA", "KEY_COMMA"),
    ("DOT", "KEY_DOT"),
    ("BSLSH", "KEY_SLASH"),
    ("F1", "KEY_F1"),
    ("F2", "KEY_F2"),
    ("F3", "KEY_F3"),
    ("F4", "KEY_F4"),
    ("F5", "KEY_F5"),
    ("F6", "KEY_F6"),
    ("F7", "KEY_F7"),
    ("F8", "KEY_F8"),
    ("F9", "KEY_F9"),
    ("F10", "KEY_F10"),
    ("F11", "KEY_F11"),
    ("F12", "KEY_F12"),
    ("F13", "KEY_F13"),
    ("F14", "KEY_F14"),
    ("F15", "KEY_F15"),
    ("F16", "KEY_F16"),
    ("F17", "KEY_F17"),
    ("F18", "KEY_F18"),
    ("F19", "KEY_F19"),
    ("F20", "KEY_F20"),
    ("F21", "KEY_F21"),
    ("F22", "KEY_F22"),
    ("F23", "KEY_F23"),
    ("F24", "KEY_F24"),
    ("SPACE", "KEY_SPACE"),
    ("CTRL", "KEY_LEFTCTRL"),
    ("SHIFT", "KEY_LEFTSHIFT"),
    ("TAB", "KEY_TAB"),
    ("ESC", "KEY_ESC"),
];

/// The table once the first `n` rows of [`SYMBOL_KEYS`] are bound, in their order.
pub open spec fn symbols_bound(n: int) -> Map<Seq<char>, u16>
    decreases n,
{
    if n <= 0 {
        Map::empty()
    } else {
        let row = SYMBOL_KEYS@[n - 1];
        bound(symbols_bound(n - 1), row.0@, usable_code(evdev_key_code(row.1@)))
    }
}

/// The table of symbolic key names: every row of [`SYMBOL_KEYS`], bound to the code that
/// `evdev` gives its key.
pub open spec fn symbol_table() -> Map<Seq<char>, u16> {
    symbols_bound(SYMBOL_KEYS@.len() as int)
}

/// Builds the table of symbolic key names.
pub fn create_str_map() -> (table: StrMap)
    ensures
        table@ == symbol_table(),
{
    let mut table = StrMap::new();
    let mut i: usize = 0;
    while i < SYMBOL_KEYS.len()
        invariant
            i <= SYMBOL_KEYS@.len(),
            table@ == symbols_bound(i as int),
        decreases SYMBOL_KEYS@.len() - i,
    {
        let (symbol, key_name) = SYMBOL_KEYS[i];
        table.bind(symbol, key_name);
        i += 1;
    }
    table
}

} // verus!
