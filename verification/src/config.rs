//! The configuration text: one line per slot, `<slot> <key name> [regular|repeat]`.

use crate::utils::{ConfigStruct, KeyType, UserConfig};
use std::collections::HashMap;
use vstd::prelude::*;
use vstd::string::StrSliceExecFns;
use vstd::std_specs::iter::IteratorSpec;

verus! {

broadcast use vstd::std_specs::hash::group_hash_axioms;

/// The words of a line, read from left to right: a space ends the word before it and
/// begins the next, and any other character belongs to the word it stands in. A line
/// with `n` spaces has `n + 1` words, some of them empty where spaces touch.
pub open spec fn words(line: Seq<char>) -> Seq<Seq<char>>
    decreases line.len(),
{
    if line.len() == 0 {
        seq![Seq::empty()]
    } else {
        let before = words(line.drop_last());
        if line.last() == ' ' {
            before.push(Seq::empty())
        } else {
            before.update(before.len() - 1, before.last().push(line.last()))
        }
    }
}

/// A sequence of words written out as a line, with one space between neighbours.
pub open spec fn joined(words: Seq<Seq<char>>) -> Seq<char>
    decreases words.len(),
{
    if words.len() == 0 {
        Seq::empty()
    } else if words.len() == 1 {
        words[0]
    } else {
        joined(words.drop_last()) + seq![' '] + words.last()
    }
}

/// Whether a word holds no space.
pub open spec fn is_word(word: Seq<char>) -> bool {
    forall|i: int| 0 <= i < word.len() ==> #[trigger] word[i] != ' '
}

/// The words of a line are what the line is made of: there is at least one, none of
/// them holds a space, and joined by single spaces they give the line back.
pub proof fn lemma_words_join_to_line(line: Seq<char>)
    ensures
        words(line).len() >= 1,
        forall|k: int| 0 <= k < words(line).len() ==> is_word(#[trigger] words(line)[k]),
        joined(words(line)) == line,
    decreases line.len(),
{
    if line.len() > 0 {
        let front = line.drop_last();
        let before = words(front);
        lemma_words_join_to_line(front);
        if line.last() == ' ' {
            let after = before.push(Seq::empty());
            assert(after.drop_last() =~= before);
            assert(joined(after) =~= front + seq![' ']);
            assert(front + seq![' '] =~= line);
        } else {
            let grown = before.last().push(line.last());
            let after = before.update(before.len() - 1, grown);
            assert(is_word(before.last()));
            assert forall|k: int| 0 <= k < after.len() implies is_word(#[trigger] after[k]) by {
                if k < before.len() - 1 {
                    assert(is_word(before[k]));
                }
            }
            if before.len() == 1 {
                assert(joined(after) =~= line);
            } else {
                assert(after.drop_last() =~= before.drop_last());
                assert(joined(after) =~= joined(before.drop_last()) + seq![' '] + grown);
                assert(joined(before) =~= joined(before.drop_last()) + seq![' '] + before.last());
                assert(joined(after) =~= joined(before).push(line.last()));
                assert(front.push(line.last()) =~= line);
            }
        }
    } else {
        assert(joined(words(line)) =~= line);
    }
}

/// The words of a line that ends in a space and one more word.
proof fn lemma_words_of_one_more(line: Seq<char>, word: Seq<char>)
    requires
        is_word(word),
    ensures
        words(line + seq![' '] + word) == words(line).push(word),
    decreases word.len(),
{
    let whole = line + seq![' '] + word;
    if word.len() == 0 {
        assert(whole.drop_last() =~= line);
        assert(word =~= Seq::<char>::empty());
    } else {
        let shorter = word.drop_last();
        assert(is_word(shorter)) by {
            assert forall|i: int| 0 <= i < shorter.len() implies #[trigger] shorter[i] != ' ' by {
                assert(word[i] != ' ');
            }
        }
        lemma_words_of_one_more(line, shorter);
        assert(whole.drop_last() =~= line + seq![' '] + shorter);
        assert(whole.last() == word.last());
        assert(word[word.len() - 1] != ' ');
        let before = words(line).push(shorter);
        assert(before.update(before.len() - 1, before.last().push(word.last())) =~= words(line).push(
            word,
        )) by {
            assert(shorter.push(word.last()) =~= word);
        }
    }
}

/// No other words make up a line. Words without spaces, joined by single spaces, are
/// exactly the words of the line they give.
pub proof fn lemma_words_of_joined(parts: Seq<Seq<char>>)
    requires
        parts.len() >= 1,
        forall|k: int| 0 <= k < parts.len() ==> is_word(#[trigger] parts[k]),
    ensures
        words(joined(parts)) == parts,
    decreases parts.len(),
{
    if parts.len() == 1 {
        lemma_words_of_single(parts[0]);
        assert(seq![parts[0]] =~= parts);
    } else {
        let front = parts.drop_last();
        assert forall|k: int| 0 <= k < front.len() implies is_word(#[trigger] front[k]) by {
            assert(is_word(parts[k]));
        }
        lemma_words_of_joined(front);
        assert(is_word(parts[parts.len() - 1]));
        lemma_words_of_one_more(joined(front), parts.last());
        assert(front.push(parts.last()) =~= parts);
    }
}

/// A line without a space is one word.
proof fn lemma_words_of_single(word: Seq<char>)
    requires
        is_word(word),
    ensures
        words(word) == seq![word],
    decreases word.len(),
{
    if word.len() == 0 {
        assert(word =~= Seq::<char>::empty());
    } else {
        let shorter = word.drop_last();
        assert forall|i: int| 0 <= i < shorter.len() implies #[trigger] shorter[i] != ' ' by {
            assert(word[i] != ' ');
        }
        lemma_words_of_single(shorter);
        assert(word[word.len() - 1] != ' ');
        assert(seq![shorter].update(0, shorter.push(word.last())) =~= seq![word]) by {
            assert(shorter.push(word.last()) =~= word);
        }
    }
}

/// Where word `k` ends, given where each word starts: one before the next word's start,
/// or the end of the line for the last word.
pub open spec fn word_end(starts: Seq<usize>, len: int, k: int) -> int {
    if k + 1 < starts.len() {
        starts[k + 1] - 1
    } else {
        len
    }
}

/// The characters of a string.
pub fn to_chars(text: &str) -> (chars: Vec<char>)
    ensures
        chars@ == text@,
{
    let mut chars: Vec<char> = Vec::new();
    for c in it: text.chars()
        invariant
            it.seq() == text@,
            chars@ == text@.take(it.index()),
    {
        chars.push(c);
    }
    chars
}

/// Finds the words of a line: the index at which each one starts.
pub fn word_starts(line: &Vec<char>) -> (starts: Vec<usize>)
    ensures
        starts.len() == words(line@).len(),
        starts.len() >= 1,
        forall|k: int|
            0 <= k < starts.len() ==> 0 <= #[trigger] starts[k] <= word_end(
                starts@,
                line.len() as int,
                k,
            ) <= line.len(),
        forall|k: int|
            0 <= k < starts.len() ==> #[trigger] words(line@)[k] == line@.subrange(
                starts[k] as int,
                word_end(starts@, line.len() as int, k),
            ),
{
    let mut starts: Vec<usize> = Vec::new();
    starts.push(0);
    let mut i: usize = 0;
    assert(line@.take(0) =~= Seq::<char>::empty());
    assert(words(line@.take(0))[0] =~= line@.subrange(0, 0));
    while i < line.len()
        invariant
            i <= line.len(),
            starts.len() == words(line@.take(i as int)).len(),
            starts.len() >= 1,
            forall|k: int|
                0 <= k < starts.len() ==> 0 <= #[trigger] starts[k] <= word_end(starts@, i as int, k)
                    <= i,
            forall|k: int|
                0 <= k < starts.len() ==> #[trigger] words(line@.take(i as int))[k]
                    == line@.subrange(starts[k] as int, word_end(starts@, i as int, k)),
        decreases line.len() - i,
    {
        let ghost before = words(line@.take(i as int));
        let ghost old_starts = starts@;
        let ghost last = starts.len() - 1;
        assert(line@.take(i + 1).drop_last() =~= line@.take(i as int));
        assert(line@.take(i + 1).last() == line[i as int]);
        if line[i] == ' ' {
            starts.push(i + 1);
            assert forall|k: int| 0 <= k < starts.len() implies #[trigger] words(
                line@.take(i + 1),
            )[k] == line@.subrange(starts[k] as int, word_end(starts@, i + 1, k)) by {
                if k <= last {
                    assert(before[k] == line@.subrange(
                        old_starts[k] as int,
                        word_end(old_starts, i as int, k),
                    ));
                } else {
                    assert(line@.subrange(i + 1, i + 1) =~= Seq::<char>::empty());
                }
            }
            assert forall|k: int| 0 <= k < starts.len() implies 0 <= #[trigger] starts[k]
                <= word_end(starts@, i + 1, k) <= i + 1 by {
                if k <= last {
                    assert(old_starts[k] <= word_end(old_starts, i as int, k));
                }
            }
        } else {
            assert forall|k: int| 0 <= k < starts.len() implies #[trigger] words(
                line@.take(i + 1),
            )[k] == line@.subrange(starts[k] as int, word_end(starts@, i + 1, k)) by {
                assert(before[k] == line@.subrange(
                    old_starts[k] as int,
                    word_end(old_starts, i as int, k),
                ));
                if k == last {
                    assert(line@.subrange(starts[k] as int, i as int).push(line[i as int])
                        =~= line@.subrange(starts[k] as int, i + 1));
                }
            }
            assert forall|k: int| 0 <= k < starts.len() implies 0 <= #[trigger] starts[k]
                <= word_end(starts@, i + 1, k) <= i + 1 by {
                assert(old_starts[k] <= word_end(old_starts, i as int, k));
            }
        }
        i += 1;
    }
    assert(line@.take(line.len() as int) =~= line@);
    starts
}

/// Whether `c` is one of the ten decimal digits.
pub open spec fn is_digit(c: char) -> bool {
    '0' <= c <= '9'
}

/// The number that the decimal digits `digits` write.
pub open spec fn decimal(digits: Seq<char>) -> nat
    decreases digits.len(),
{
    if digits.len() == 0 {
        0
    } else {
        (10 * decimal(digits.drop_last()) + (digits.last() as u32 - '0' as u32)) as nat
    }
}

/// The number that a word of digits writes: at least one decimal digit, nothing else,
/// and a value that fits in 16 bits. Any other word writes none.
pub open spec fn unsigned_number(digits: Seq<char>) -> Option<u16> {
    if digits.len() > 0 && (forall|i: int| 0 <= i < digits.len() ==> is_digit(#[trigger] digits[i]))
        && decimal(digits) <= u16::MAX {
        Some(decimal(digits) as u16)
    } else {
        None
    }
}

/// A word without the `+` it may begin with.
pub open spec fn unsigned_part(word: Seq<char>) -> Seq<char> {
    if word.len() > 0 && word[0] == '+' {
        word.skip(1)
    } else {
        word
    }
}

/// The slot number that a word writes: a number of 16 bits in decimal digits, with or
/// without a `+` in front.
pub open spec fn slot_number(word: Seq<char>) -> Option<u16> {
    unsigned_number(unsigned_part(word))
}

/// A number never gets smaller when more digits are written behind it.
proof fn lemma_decimal_grows(digits: Seq<char>, n: int)
    requires
        0 <= n <= digits.len(),
        forall|i: int| 0 <= i < digits.len() ==> is_digit(#[trigger] digits[i]),
    ensures
        decimal(digits.take(n)) <= decimal(digits),
    decreases digits.len() - n,
{
    if n == digits.len() {
        assert(digits.take(n) =~= digits);
    } else {
        lemma_decimal_grows(digits, n + 1);
        assert(digits.take(n + 1).drop_last() =~= digits.take(n));
        assert(is_digit(digits[n]));
        assert(digits.take(n + 1).last() == digits[n]);
    }
}

/// Reads the slot number that the characters from `from` up to `to` write.
pub fn parse_slot(line: &Vec<char>, from: usize, to: usize) -> (slot: Option<u16>)
    requires
        from <= to <= line.len(),
    ensures
        slot == slot_number(line@.subrange(from as int, to as int)),
{
    let ghost word = line@.subrange(from as int, to as int);
    let first = if from < to && line[from] == '+' {
        from + 1
    } else {
        from
    };
    let ghost digits = line@.subrange(first as int, to as int);
    assert(digits =~= unsigned_part(word));
    if first == to {
        return None;
    }
    let mut value: u32 = 0;
    let mut i: usize = first;
    assert(digits.take(0) =~= Seq::<char>::empty());
    while i < to
        invariant
            first <= i <= to <= line.len(),
            first < to,
            word == line@.subrange(from as int, to as int),
            digits == line@.subrange(first as int, to as int),
            digits == unsigned_part(word),
            forall|j: int| 0 <= j < i - first ==> is_digit(#[trigger] digits[j]),
            value == decimal(digits.take(i - first)),
            value <= u16::MAX,
        decreases to - i,
    {
        let c = line[i];
        assert(c == digits[i - first]);
        if !(c >= '0' && c <= '9') {
            return None;
        }
        let d: u32 = c as u32 - '0' as u32;
        assert(digits.take(i - first + 1).drop_last() =~= digits.take(i - first));
        assert(digits.take(i - first + 1).last() == c);
        value = 10 * value + d;
        if value > 0xffff {
            proof {
                if forall|j: int| 0 <= j < digits.len() ==> is_digit(#[trigger] digits[j]) {
                    lemma_decimal_grows(digits, i - first + 1);
                }
            }
            return None;
        }
        i += 1;
    }
    assert(digits.take(to - first) =~= digits);
    Some(value as u16)
}

/// The lower-case form of a letter of the English alphabet; any other character is left
/// as it is.
pub open spec fn lower_case(c: char) -> char {
    if 'A' <= c <= 'Z' {
        ((c as u8 + 32) as u8) as char
    } else {
        c
    }
}

/// Whether `word` reads as the lower-case `name` once the case of its letters is set
/// aside.
pub open spec fn reads_as(word: Seq<char>, name: Seq<char>) -> bool {
    &&& word.len() == name.len()
    &&& forall|i: int| 0 <= i < word.len() ==> lower_case(#[trigger] word[i]) == name[i]
}

/// The behaviour that the third word of a line asks for: `repeat` in any mix of upper
/// and lower case asks for [`KeyType::Repeat`], and every other word, `regular` among
/// them, for [`KeyType::Regular`].
pub open spec fn behavior(word: Seq<char>) -> KeyType {
    if reads_as(word, "repeat"@) {
        KeyType::Repeat
    } else {
        KeyType::Regular
    }
}

/// The lower-case form of `c`.
pub fn to_lower_case(c: char) -> (lower: char)
    ensures
        lower == lower_case(c),
{
    if c >= 'A' && c <= 'Z' {
        ((c as u8) + 32) as char
    } else {
        c
    }
}

/// Tells which behaviour the characters from `from` up to `to` ask for.
pub fn parse_behavior(line: &Vec<char>, from: usize, to: usize) -> (key_type: KeyType)
    requires
        from <= to <= line.len(),
    ensures
        key_type == behavior(line@.subrange(from as int, to as int)),
{
    let ghost word = line@.subrange(from as int, to as int);
    let name = to_chars("repeat");
    if to - from != name.len() {
        return KeyType::Regular;
    }
    let mut i: usize = 0;
    while i < name.len()
        invariant
            from <= to <= line.len(),
            to - from == name.len(),
            i <= name.len(),
            name@ == "repeat"@,
            word == line@.subrange(from as int, to as int),
            forall|j: int| 0 <= j < i ==> lower_case(#[trigger] word[j]) == name[j],
        decreases name.len() - i,
    {
        if to_lower_case(line[from + i]) != name[i] {
            assert(lower_case(word[i as int]) != name[i as int]);
            return KeyType::Regular;
        }
        i += 1;
    }
    KeyType::Repeat
}

/// Why a line of the configuration is refused.
#[derive(Copy, Clone, Debug, PartialEq, Eq, Structural)]
pub enum LineError {
    /// The line has fewer than two words, or more than three.
    WordCount,
    /// The first word of the line writes no slot number.
    SlotNumber,
}

/// A refused configuration: the first line at fault, counted from 1, and what is wrong
/// with it.
#[derive(Copy, Clone, Debug, PartialEq, Eq, Structural)]
pub struct ConfigError {
    pub line: usize,
    pub reason: LineError,
}

/// What one line says: the slot, the symbolic name of its key, and the behaviour, which
/// is [`KeyType::Regular`] unless a third word asks for another.
pub open spec fn line_entry(line: Seq<char>) -> Result<(u16, Seq<char>, KeyType), LineError> {
    let w = words(line);
    if w.len() < 2 || w.len() > 3 {
        Err(LineError::WordCount)
    } else {
        match slot_number(w[0]) {
            None => Err(LineError::SlotNumber),
            Some(slot) => Ok(
                (
                    slot,
                    w[1],
                    if w.len() == 3 {
                        behavior(w[2])
                    } else {
                        KeyType::Regular
                    },
                ),
            ),
        }
    }
}

/// Reads one line of the configuration.
pub fn parse_line(line: &str) -> (entry: Result<(u16, ConfigStruct), LineError>)
    ensures
        match entry {
            Ok((slot, config)) => line_entry(line@) == Ok::<_, LineError>(
                (slot, config.key_str@, config.key_type),
            ),
            Err(reason) => line_entry(line@) == Err::<(u16, Seq<char>, KeyType), _>(reason),
        },
{
    let chars = to_chars(line);
    let starts = word_starts(&chars);
    let count = starts.len();
    if count < 2 || count > 3 {
        return Err(LineError::WordCount);
    }
    let ghost w = words(line@);
    assert(w[0] == chars@.subrange(starts[0] as int, word_end(starts@, chars.len() as int, 0)));
    assert(w[1] == chars@.subrange(starts[1] as int, word_end(starts@, chars.len() as int, 1)));
    let name_end = if count == 3 {
        starts[2] - 1
    } else {
        chars.len()
    };
    let slot = match parse_slot(&chars, starts[0], starts[1] - 1) {
        Some(slot) => slot,
        None => {
            return Err(LineError::SlotNumber);
        },
    };
    let key_type = if count == 3 {
        assert(w[2] == chars@.subrange(starts[2] as int, word_end(starts@, chars.len() as int, 2)));
        parse_behavior(&chars, starts[2], chars.len())
    } else {
        KeyType::Regular
    };
    let key_str = line.substring_char(starts[1], name_end).to_owned();
    Ok((slot, ConfigStruct { key_str, key_type }))
}

/// What a configuration holds, entry by entry: the name and the behaviour of each slot.
pub open spec fn config_entries(config: Map<u16, ConfigStruct>) -> Map<u16, (Seq<char>, KeyType)> {
    config.map_values(|entry: ConfigStruct| (entry.key_str@, entry.key_type))
}

/// The text of each line.
pub open spec fn line_texts(lines: Seq<String>) -> Seq<Seq<char>> {
    lines.map_values(|line: String| line@)
}

/// What the first `n` lines of a configuration say together. A later line for a slot
/// replaces an earlier one. The first line that is refused refuses the configuration.
pub open spec fn lines_entries(lines: Seq<Seq<char>>, n: int) -> Result<
    Map<u16, (Seq<char>, KeyType)>,
    ConfigError,
>
    decreases n,
{
    if n <= 0 {
        Ok(Map::empty())
    } else {
        match lines_entries(lines, n - 1) {
            Err(e) => Err(e),
            Ok(entries) => match line_entry(lines[n - 1]) {
                Err(reason) => Err(ConfigError { line: n as usize, reason }),
                Ok((slot, name, key_type)) => Ok(entries.insert(slot, (name, key_type))),
            },
        }
    }
}

/// Once a line is refused, the lines after it change nothing.
proof fn lemma_refusal_stands(lines: Seq<Seq<char>>, k: int, n: int)
    requires
        k <= n,
        lines_entries(lines, k) is Err,
    ensures
        lines_entries(lines, n) == lines_entries(lines, k),
    decreases n - k,
{
    if k < n {
        lemma_refusal_stands(lines, k, n - 1);
    }
}

/// Reads a configuration from its lines.
///
/// Every line must hold a slot number, the symbolic name of a key and, if wanted, the
/// word `regular` or `repeat`, with one space between them.
pub fn load_config(lines: &Vec<String>) -> (result: Result<UserConfig, ConfigError>)
    ensures
        match result {
            Ok(config) => lines_entries(line_texts(lines@), lines.len() as int) == Ok::<
                _,
                ConfigError,
            >(config_entries(config@)),
            Err(e) => lines_entries(line_texts(lines@), lines.len() as int) == Err::<
                Map<u16, (Seq<char>, KeyType)>,
                _,
            >(e),
        },
{
    let mut config: HashMap<u16, ConfigStruct> = HashMap::new();
    let ghost texts = line_texts(lines@);
    assert(config_entries(config@) =~= Map::empty());
    let mut i: usize = 0;
    while i < lines.len()
        invariant
            i <= lines.len(),
            texts == line_texts(lines@),
            lines_entries(texts, i as int) == Ok::<_, ConfigError>(config_entries(config@)),
        decreases lines.len() - i,
    {
        let ghost before = config@;
        assert(texts[i as int] == lines[i as int]@);
        match parse_line(lines[i].as_str()) {
            Ok((slot, entry)) => {
                let ghost name = entry.key_str@;
                let ghost key_type = entry.key_type;
                config.insert(slot, entry);
                assert(config_entries(config@) =~= config_entries(before).insert(
                    slot,
                    (name, key_type),
                ));
            },
            Err(reason) => {
                proof {
                    lemma_refusal_stands(texts, i + 1, lines.len() as int);
                }
                return Err(ConfigError { line: i + 1, reason });
            },
        }
        i += 1;
    }
    Ok(config)
}

} // verus!
