//! The mapping table and the event processor that decides what each raw key event asks
//! of the virtual device.

use crate::keycodes::{evdev_key_code, key_code_named};
use crate::keyset::output_keys;
use crate::utils::{create_str_map, symbol_table, ConfigStruct, KeyStruct, KeyType, StrMap, UserConfig};
use std::collections::{HashMap, HashSet};
use vstd::prelude::*;
use vstd::std_specs::iter::IteratorSpec;

verus! {

broadcast use vstd::std_specs::hash::group_hash_axioms;

/// The keys of the keypad, each by the name of the `evdev` key constant whose code it
/// sends, with the number of the slot it fills.
pub const DEFAULT_SLOTS: [(&'static str, u16); 26] = [
    ("KEY_GRAVE", 1),
    ("KEY_1", 2),
    ("KEY_2", 3),
    ("KEY_3", 4),
    ("KEY_4", 5),
    ("KEY_TAB", 6),
    ("KEY_Q", 7),
    ("KEY_W", 8),
    ("KEY_E", 9),
    ("KEY_R", 10),
    ("KEY_CAPSLOCK", 11),
    ("KEY_A", 12),
    ("KEY_S", 13),
    ("KEY_D", 14),
    ("KEY_F", 15),
    ("KEY_LEFTSHIFT", 16),
    ("KEY_Z", 17),
    ("KEY_X", 18),
    ("KEY_C", 19),
    ("KEY_V", 20),
    ("KEY_UP", 21),
    ("KEY_LEFT", 22),
    ("KEY_DOWN", 23),
    ("KEY_RIGHT", 24),
    ("KEY_SPACE", 25),
    ("KEY_LEFTALT", 26),
];

/// A slot table after one more key: the raw code, where there is one, fills `slot`.
pub open spec fn slotted(table: Map<u16, u16>, raw_code: Option<u16>, slot: u16) -> Map<u16, u16> {
    match raw_code {
        Some(raw) => table.insert(raw, slot),
        None => table,
    }
}

/// The slot table once the first `n` rows of [`DEFAULT_SLOTS`] are entered, in their
/// order.
pub open spec fn slots_entered(n: int) -> Map<u16, u16>
    decreases n,
{
    if n <= 0 {
        Map::empty()
    } else {
        let row = DEFAULT_SLOTS@[n - 1];
        slotted(slots_entered(n - 1), evdev_key_code(row.0@), row.1)
    }
}

/// The keypad's slot table: for the raw code of each of its keys, the slot it fills.
pub open spec fn default_slots() -> Map<u16, u16> {
    slots_entered(DEFAULT_SLOTS@.len() as int)
}

/// Enters one key in a slot table, if a raw code was found for it.
pub fn enter_slot(table: &mut HashMap<u16, u16>, raw_code: Option<u16>, slot: u16)
    ensures
        final(table)@ == slotted(old(table)@, raw_code, slot),
{
    match raw_code {
        Some(raw) => {
            table.insert(raw, slot);
        },
        None => {},
    }
}

/// Builds the keypad's slot table.
pub fn default_code_map() -> (table: HashMap<u16, u16>)
    ensures
        table@ == default_slots(),
{
    let mut table: HashMap<u16, u16> = HashMap::new();
    let mut i: usize = 0;
    while i < DEFAULT_SLOTS.len()
        invariant
            i <= DEFAULT_SLOTS@.len(),
            table@ == slots_entered(i as int),
        decreases DEFAULT_SLOTS@.len() - i,
    {
        let (key_name, slot) = DEFAULT_SLOTS[i];
        let raw_code = key_code_named(key_name);
        enter_slot(&mut table, raw_code, slot);
        i += 1;
    }
    table
}

/// Why no mapping table can be built.
#[derive(Copy, Clone, Debug, PartialEq, Eq, Structural)]
pub enum KeymapError {
    /// A slot of the keypad has no entry in the configuration.
    InvalidKeyCodes,
    /// An entry of the configuration names a key that the table of names does not hold.
    InvalidKeymap,
}

/// Whether some slot of the slot table has no entry in the configuration.
pub open spec fn slot_missing(slots: Map<u16, u16>, config: Map<u16, ConfigStruct>) -> bool {
    exists|raw: u16| #[trigger] slots.contains_key(raw) && !config.contains_key(slots[raw])
}

/// Whether some entry of the configuration names a key that `names` does not hold.
pub open spec fn name_unknown(config: Map<u16, ConfigStruct>, names: Map<Seq<char>, u16>) -> bool {
    exists|slot: u16| #[trigger] config.contains_key(slot) && !names.contains_key(config[slot].key_str@)
}

/// The mapping table of a configuration that covers every slot with known names: each
/// raw code of the slot table is mapped to the key and the behaviour that the
/// configuration gives its slot.
pub open spec fn mapping(
    slots: Map<u16, u16>,
    config: Map<u16, ConfigStruct>,
    names: Map<Seq<char>, u16>,
) -> Map<u16, KeyStruct> {
    Map::new(
        |raw: u16| slots.contains_key(raw),
        |raw: u16|
            KeyStruct {
                code: names[config[slots[raw]].key_str@],
                key_type: config[slots[raw]].key_type,
            },
    )
}

/// What building the mapping table comes to: a configuration without an entry for some
/// slot is refused first, then one with an unknown key name, and any other gives its
/// [`mapping`].
pub open spec fn keymap(
    slots: Map<u16, u16>,
    config: Map<u16, ConfigStruct>,
    names: Map<Seq<char>, u16>,
) -> Result<Map<u16, KeyStruct>, KeymapError> {
    if slot_missing(slots, config) {
        Err(KeymapError::InvalidKeyCodes)
    } else if name_unknown(config, names) {
        Err(KeymapError::InvalidKeymap)
    } else {
        Ok(mapping(slots, config, names))
    }
}

/// Tells whether the configuration has an entry for every slot.
fn covers_slots(default_map: &HashMap<u16, u16>, user_keymap: &HashMap<u16, ConfigStruct>) -> (covered:
    bool)
    ensures
        covered == !slot_missing(default_map@, user_keymap@),
{
    let ghost rows = default_map.iter().remaining();
    for row in it: default_map.iter()
        invariant
            it.seq() == rows,
            forall|i: int| 0 <= i < it.index() ==> user_keymap@.contains_key(*(#[trigger] rows[i]).1),
    {
        let (raw, slot) = row;
        if !user_keymap.contains_key(slot) {
            assert(default_map@.contains_key(*raw));
            return false;
        }
    }
    assert forall|raw: u16| default_map@.contains_key(raw) implies user_keymap@.contains_key(
        default_map@[raw],
    ) by {
        assert(rows.contains((&raw, &default_map@[raw])));
        let i = choose|i: int| 0 <= i < rows.len() && rows[i] == (&raw, &default_map@[raw]);
        assert(user_keymap@.contains_key(*rows[i].1));
    }
    true
}

/// Tells whether the table of names holds the key name of every entry.
fn names_known(user_keymap: &HashMap<u16, ConfigStruct>, key_codes: &StrMap) -> (known: bool)
    ensures
        known == !name_unknown(user_keymap@, key_codes@),
{
    let ghost rows = user_keymap.iter().remaining();
    for row in it: user_keymap.iter()
        invariant
            it.seq() == rows,
            forall|i: int|
                0 <= i < it.index() ==> key_codes@.contains_key((#[trigger] rows[i]).1.key_str@),
    {
        let (slot, entry) = row;
        if key_codes.get(entry.key_str.as_str()).is_none() {
            assert(user_keymap@.contains_key(*slot));
            return false;
        }
    }
    assert forall|slot: u16| user_keymap@.contains_key(slot) implies key_codes@.contains_key(
        user_keymap@[slot].key_str@,
    ) by {
        assert(rows.contains((&slot, &user_keymap@[slot])));
        let i = choose|i: int| 0 <= i < rows.len() && rows[i] == (&slot, &user_keymap@[slot]);
        assert(key_codes@.contains_key(rows[i].1.key_str@));
    }
    true
}

/// Builds the mapping table from the slot table, the configuration and the table of
/// names.
///
/// The configuration must have an entry for every slot of the slot table, and every one
/// of its entries must name a key that the table of names holds. The table built has
/// one entry for each raw code of the slot table, and no other.
pub fn load_keymap(
    default_map: &HashMap<u16, u16>,
    user_keymap: &HashMap<u16, ConfigStruct>,
    key_codes: &StrMap,
) -> (result: Result<HashMap<u16, KeyStruct>, KeymapError>)
    ensures
        match result {
            Ok(table) => keymap(default_map@, user_keymap@, key_codes@) == Ok::<_, KeymapError>(
                table@,
            ),
            Err(e) => keymap(default_map@, user_keymap@, key_codes@) == Err::<Map<u16, KeyStruct>, _>(
                e,
            ),
        },
        result matches Ok(table) ==> table@.dom() == default_map@.dom(),
        result is Err <==> slot_missing(default_map@, user_keymap@) || name_unknown(
            user_keymap@,
            key_codes@,
        ),
{
    if !covers_slots(default_map, user_keymap) {
        return Err(KeymapError::InvalidKeyCodes);
    }
    if !names_known(user_keymap, key_codes) {
        return Err(KeymapError::InvalidKeymap);
    }
    let mut table: HashMap<u16, KeyStruct> = HashMap::new();
    let ghost rows = default_map.iter().remaining();
    let ghost wanted = mapping(default_map@, user_keymap@, key_codes@);
    for row in it: default_map.iter()
        invariant
            it.seq() == rows,
            rows == default_map.iter().remaining(),
            !slot_missing(default_map@, user_keymap@),
            !name_unknown(user_keymap@, key_codes@),
            wanted == mapping(default_map@, user_keymap@, key_codes@),
            forall|raw: u16|
                table@.contains_key(raw) <==> exists|i: int|
                    0 <= i < it.index() && *(#[trigger] rows[i]).0 == raw,
            forall|raw: u16| table@.contains_key(raw) ==> table@[raw] == wanted[raw],
    {
        let (raw, slot) = row;
        assert(default_map@.contains_key(*raw) && default_map@[*raw] == *slot);
        let ghost before = table@;
        let ghost at = it.index();
        match user_keymap.get(slot) {
            Some(entry) => match key_codes.get(entry.key_str.as_str()) {
                Some(code) => {
                    table.insert(*raw, KeyStruct { code, key_type: entry.key_type });
                    assert forall|r: u16| table@.contains_key(r) <==> exists|i: int|
                        0 <= i < at + 1 && *(#[trigger] rows[i]).0 == r by {
                        if before.contains_key(r) {
                            let i = choose|i: int| 0 <= i < at && *(#[trigger] rows[i]).0 == r;
                            assert(0 <= i < at + 1 && *rows[i].0 == r);
                        }
                        if r == *raw {
                            assert(*rows[at].0 == r);
                        }
                    }
                },
                // Not reached: every name was found to be known.
                None => {
                    return Err(KeymapError::InvalidKeymap);
                },
            },
            // Not reached: every slot was found to have an entry.
            None => {
                return Err(KeymapError::InvalidKeyCodes);
            },
        }
    }
    assert(table@ =~= wanted) by {
        assert forall|raw: u16| table@.contains_key(raw) == wanted.contains_key(raw) by {
            if wanted.contains_key(raw) {
                assert(rows.contains((&raw, &default_map@[raw])));
                let i = choose|i: int| 0 <= i < rows.len() && rows[i] == (&raw, &default_map@[raw]);
                assert(*rows[i].0 == raw);
            }
            if table@.contains_key(raw) {
                let i = choose|i: int| 0 <= i < rows.len() && *(#[trigger] rows[i]).0 == raw;
                assert(default_map@.contains_key(*rows[i].0));
            }
        }
    }
    assert(wanted.dom() =~= default_map@.dom());
    Ok(table)
}

/// Every output key of a mapping table is one that a name of the table of names stands
/// for.
pub proof fn lemma_mapped_keys_are_named(
    slots: Map<u16, u16>,
    config: Map<u16, ConfigStruct>,
    names: Map<Seq<char>, u16>,
    raw_code: u16,
)
    requires
        keymap(slots, config, names) is Ok,
        slots.contains_key(raw_code),
    ensures
        keymap(slots, config, names)->Ok_0.contains_key(raw_code),
        names.values().contains(keymap(slots, config, names)->Ok_0[raw_code].code),
{
    let slot = slots[raw_code];
    assert(config.contains_key(slot));
    assert(names.contains_key(config[slot].key_str@));
}

/// The mapping table has one entry for each raw code of the slot table, and no other,
/// and it is built unless a slot has no entry or an entry names an unknown key.
pub proof fn lemma_keymap_covers_slots(
    slots: Map<u16, u16>,
    config: Map<u16, ConfigStruct>,
    names: Map<Seq<char>, u16>,
)
    ensures
        keymap(slots, config, names) is Err <==> slot_missing(slots, config) || name_unknown(
            config,
            names,
        ),
        keymap(slots, config, names) matches Ok(table) ==> table.dom() == slots.dom(),
{
    if keymap(slots, config, names) is Ok {
        assert(mapping(slots, config, names).dom() =~= slots.dom());
    }
}

/// What the caller is to do after an event has been processed.
#[derive(Copy, Clone, Debug, PartialEq, Eq, Structural)]
pub enum Action {
    /// The raw key is mapped to nothing. The event is dropped; the caller may report it.
    Unmapped { raw_code: u16 },
    /// Write one key event to the virtual device.
    Emit { code: u16, value: i32 },
    /// Start a repeat worker for the output key and keep its cancellation handle.
    StartWorker { code: u16 },
    /// Signal the repeat worker of the output key to stop, and forget its handle. The
    /// caller does not wait for the worker.
    CancelWorker { code: u16 },
    /// Nothing is to be done.
    Nothing,
}

/// One step of the repeat controller for the output key `code`: which workers are
/// registered afterwards, and what is to be done.
///
/// A press or an autorepeat (`value` other than 0) starts a worker unless one is
/// registered; a release (`value` 0) cancels the registered worker and forgets it at
/// once.
pub open spec fn repeat_step(workers: Set<u16>, code: u16, value: i32) -> (Set<u16>, Action) {
    if value == 0 {
        if workers.contains(code) {
            (workers.remove(code), Action::CancelWorker { code })
        } else {
            (workers, Action::Nothing)
        }
    } else {
        if workers.contains(code) {
            (workers, Action::Nothing)
        } else {
            (workers.insert(code), Action::StartWorker { code })
        }
    }
}

/// One step of the event processor: which workers are registered after the event
/// `(raw_code, value)`, and what is to be done.
pub open spec fn event_step(
    key_map: Map<u16, KeyStruct>,
    workers: Set<u16>,
    raw_code: u16,
    value: i32,
) -> (Set<u16>, Action) {
    if !key_map.contains_key(raw_code) {
        (workers, Action::Unmapped { raw_code })
    } else {
        match key_map[raw_code].key_type {
            KeyType::Regular => (workers, Action::Emit { code: key_map[raw_code].code, value }),
            KeyType::Repeat => repeat_step(workers, key_map[raw_code].code, value),
        }
    }
}

/// The dispatcher of raw key events.
pub struct EventProcessor {
    /// The mapping table: for each raw code of the keypad, the output key and its
    /// behaviour. It is built once and not changed by any event.
    pub key_map: HashMap<u16, KeyStruct>,
    /// The keys that the virtual device is to be created with, in rising order.
    pub output_keys: Vec<u16>,
    /// The output keys for which a repeat worker is registered.
    pub thread_map: HashSet<u16>,
}

impl EventProcessor {
    /// Builds the processor for a configuration: the mapping table from the keypad's
    /// slot table and the table of symbolic names, the keys of the virtual device from
    /// the table of symbolic names, and no worker registered.
    pub fn new(config: UserConfig) -> (built: Result<EventProcessor, KeymapError>)
        ensures
            match built {
                Ok(processor) => {
                    &&& keymap(default_slots(), config@, symbol_table()) == Ok::<_, KeymapError>(
                        processor.key_map@,
                    )
                    &&& processor.thread_map@ == Set::<u16>::empty()
                    &&& processor.output_keys@.to_set() == symbol_table().values()
                    &&& forall|i: int, j: int|
                        0 <= i < j < processor.output_keys.len() ==> processor.output_keys[i]
                            < processor.output_keys[j]
                    &&& forall|raw: u16| #[trigger]
                        processor.key_map@.contains_key(raw) ==> processor.output_keys@.contains(
                            processor.key_map@[raw].code,
                        )
                },
                Err(e) => keymap(default_slots(), config@, symbol_table()) == Err::<
                    Map<u16, KeyStruct>,
                    _,
                >(e),
            },
    {
        let names = create_str_map();
        let slots = default_code_map();
        match load_keymap(&slots, &config, &names) {
            Ok(key_map) => {
                let output_keys = output_keys(&names);
                assert forall|raw: u16| #[trigger] key_map@.contains_key(raw) implies output_keys@.contains(
                    key_map@[raw].code,
                ) by {
                    lemma_mapped_keys_are_named(slots@, config@, names@, raw);
                    assert(output_keys@.to_set().contains(key_map@[raw].code));
                }
                Ok(EventProcessor { key_map, output_keys, thread_map: HashSet::new() })
            },
            Err(e) => Err(e),
        }
    }

    /// Processes one event of the keypad: the key `raw_code` with `value` 0 for a
    /// release, 1 for a press and 2 for an autorepeat.
    ///
    /// A key that the mapping table does not hold is reported as unmapped. A regular key
    /// has its event passed on with the value unchanged. A repeat key goes through
    /// [`EventProcessor::repeat_key`].
    pub fn process_event(&mut self, raw_code: u16, value: i32) -> (action: Action)
        ensures
            (final(self).thread_map@, action) == event_step(
                old(self).key_map@,
                old(self).thread_map@,
                raw_code,
                value,
            ),
            final(self).key_map == old(self).key_map,
            final(self).output_keys == old(self).output_keys,
            !old(self).key_map@.contains_key(raw_code) ==> action == (Action::Unmapped { raw_code })
                && final(self).thread_map@ == old(self).thread_map@,
            old(self).key_map@.contains_key(raw_code) && old(self).key_map@[raw_code].key_type
                == KeyType::Regular ==> action == (Action::Emit {
                code: old(self).key_map@[raw_code].code,
                value,
            }) && final(self).thread_map@ == old(self).thread_map@,
            action is Emit <==> old(self).key_map@.contains_key(raw_code) && old(
                self,
            ).key_map@[raw_code].key_type == KeyType::Regular,
    {
        let entry = match self.key_map.get(&raw_code) {
            Some(entry) => *entry,
            None => {
                return Action::Unmapped { raw_code };
            },
        };
        match entry.key_type {
            KeyType::Repeat => self.repeat_key(entry.code, value),
            KeyType::Regular => self.regular_key(entry.code, value),
        }
    }

    /// Cancels the repeat worker of the output key `code`, if one is registered.
    pub fn stop_thread(&mut self, code: u16) -> (action: Action)
        ensures
            (final(self).thread_map@, action) == repeat_step(old(self).thread_map@, code, 0),
            final(self).key_map == old(self).key_map,
            final(self).output_keys == old(self).output_keys,
    {
        if self.thread_map.remove(&code) {
            Action::CancelWorker { code }
        } else {
            assert(self.thread_map@ =~= old(self).thread_map@);
            Action::Nothing
        }
    }

    /// Takes the repeat controller of the output key `code` one step on.
    pub fn repeat_key(&mut self, code: u16, value: i32) -> (action: Action)
        ensures
            (final(self).thread_map@, action) == repeat_step(old(self).thread_map@, code, value),
            final(self).key_map == old(self).key_map,
            final(self).output_keys == old(self).output_keys,
    {
        if value == 0 {
            self.stop_thread(code)
        } else if self.thread_map.contains(&code) {
            Action::Nothing
        } else {
            self.start_repeat(code)
        }
    }

    /// Registers a repeat worker for the output key `code` and asks the caller to start
    /// it.
    pub fn start_repeat(&mut self, code: u16) -> (action: Action)
        ensures
            final(self).thread_map@ == old(self).thread_map@.insert(code),
            action == (Action::StartWorker { code }),
            final(self).key_map == old(self).key_map,
            final(self).output_keys == old(self).output_keys,
    {
        self.thread_map.insert(code);
        Action::StartWorker { code }
    }

    /// Passes the event of a regular key on to the virtual device.
    pub fn regular_key(&self, code: u16, value: i32) -> (action: Action)
        ensures
            action == (Action::Emit { code, value }),
    {
        Action::Emit { code, value }
    }
}

/// A second press starts no second worker. When a repeat key is pressed, or held so
/// that it repeats, twice with no release between, a worker is registered for its
/// output key after the first event, started by that event unless one was registered
/// before, and the second event changes nothing and asks for nothing.
pub proof fn lemma_second_press_starts_no_worker(
    key_map: Map<u16, KeyStruct>,
    workers: Set<u16>,
    raw_code: u16,
    first: i32,
    second: i32,
)
    requires
        key_map.contains_key(raw_code),
        key_map[raw_code].key_type == KeyType::Repeat,
        first != 0,
        second != 0,
    ensures
        ({
            let code = key_map[raw_code].code;
            let (after_first, first_action) = event_step(key_map, workers, raw_code, first);
            let (after_second, second_action) = event_step(key_map, after_first, raw_code, second);
            &&& after_first.contains(code)
            &&& first_action == if workers.contains(code) {
                Action::Nothing
            } else {
                Action::StartWorker { code }
            }
            &&& second_action == Action::Nothing
            &&& after_second == after_first
        }),
{
}

/// A press and the release that follows it. Where no worker is registered for the
/// output key of a repeat key, the press starts one and the release cancels it and
/// leaves none registered.
pub proof fn lemma_press_then_release(
    key_map: Map<u16, KeyStruct>,
    workers: Set<u16>,
    raw_code: u16,
    press: i32,
)
    requires
        key_map.contains_key(raw_code),
        key_map[raw_code].key_type == KeyType::Repeat,
        !workers.contains(key_map[raw_code].code),
        press != 0,
    ensures
        ({
            let code = key_map[raw_code].code;
            let (held, first_action) = event_step(key_map, workers, raw_code, press);
            let (released, second_action) = event_step(key_map, held, raw_code, 0);
            &&& first_action == Action::StartWorker { code }
            &&& second_action == Action::CancelWorker { code }
            &&& released == workers
        }),
{
    let code = key_map[raw_code].code;
    assert(workers.insert(code).remove(code) =~= workers);
}

/// What a sequence of events comes to: the workers registered after the last of them,
/// and the action of each.
pub open spec fn events_run(key_map: Map<u16, KeyStruct>, workers: Set<u16>, events: Seq<(u16, i32)>) -> (
    Set<u16>,
    Seq<Action>,
)
    decreases events.len(),
{
    if events.len() == 0 {
        (workers, Seq::empty())
    } else {
        let (before, actions) = events_run(key_map, workers, events.drop_last());
        let (after, action) = event_step(key_map, before, events.last().0, events.last().1);
        (after, actions.push(action))
    }
}

/// How many workers of the output key `code` are alive after `actions`, if `alive` were
/// before: each start adds one, each cancellation takes one away.
pub open spec fn alive_after(alive: int, actions: Seq<Action>, code: u16) -> int
    decreases actions.len(),
{
    if actions.len() == 0 {
        alive
    } else {
        alive_after(alive, actions.drop_last(), code) + (if actions.last() == (Action::StartWorker {
            code,
        }) {
            1int
        } else if actions.last() == (Action::CancelWorker { code }) {
            -1int
        } else {
            0int
        })
    }
}

/// How many workers of `code` a set of registered workers stands for: one or none.
pub open spec fn registered(workers: Set<u16>, code: u16) -> int {
    if workers.contains(code) {
        1
    } else {
        0
    }
}

/// Never more than one worker for an output key. Whatever events come in, the workers
/// started and not yet cancelled for an output key are one if a worker is registered
/// for it, and none if not.
pub proof fn lemma_one_worker_per_key(
    key_map: Map<u16, KeyStruct>,
    workers: Set<u16>,
    events: Seq<(u16, i32)>,
    code: u16,
)
    ensures
        ({
            let (after, actions) = events_run(key_map, workers, events);
            &&& actions.len() == events.len()
            &&& alive_after(registered(workers, code), actions, code) == registered(after, code)
        }),
    decreases events.len(),
{
    if events.len() > 0 {
        lemma_one_worker_per_key(key_map, workers, events.drop_last(), code);
        let (before, actions) = events_run(key_map, workers, events.drop_last());
        let (after, action) = event_step(key_map, before, events.last().0, events.last().1);
        assert(actions.push(action).drop_last() =~= actions);
    }
}

/// Whether `code` is the output key of some repeat key of the mapping table.
pub open spec fn is_repeat_key(key_map: Map<u16, KeyStruct>, code: u16) -> bool {
    exists|raw: u16| #[trigger]
        key_map.contains_key(raw) && key_map[raw].key_type == KeyType::Repeat && key_map[raw].code
            == code
}

/// Workers run for repeat keys only. If every registered worker belongs to a repeat key
/// of the mapping table, then so does every worker that is registered after any
/// events: there are never more workers than the table has repeat keys.
pub proof fn lemma_workers_belong_to_repeat_keys(
    key_map: Map<u16, KeyStruct>,
    workers: Set<u16>,
    events: Seq<(u16, i32)>,
    code: u16,
)
    requires
        forall|c: u16| workers.contains(c) ==> is_repeat_key(key_map, c),
        events_run(key_map, workers, events).0.contains(code),
    ensures
        is_repeat_key(key_map, code),
    decreases events.len(),
{
    if events.len() > 0 {
        let before = events_run(key_map, workers, events.drop_last()).0;
        if before.contains(code) {
            lemma_workers_belong_to_repeat_keys(key_map, workers, events.drop_last(), code);
        } else {
            assert(key_map.contains_key(events.last().0));
        }
    }
}

} // verus!
