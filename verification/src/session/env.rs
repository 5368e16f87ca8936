//! The environment that a process is started with: `KEY=VALUE` entries.

use vstd::prelude::*;
use vstd::string::*;
use vstd::utf8::*;

use crate::text::utf8_text;

verus! {

/// The index of the first equals sign, or the length of the text.
pub open spec fn first_equals(text: Seq<char>) -> int
    decreases text.len(),
{
    if text.len() == 0 || text[0] == '=' {
        0
    } else {
        1 + first_equals(text.skip(1))
    }
}

/// The value that an entry gives to `key`: what follows the first equals sign, if
/// what precedes it is the key. An entry that is no text or has no equals sign
/// gives none.
pub open spec fn entry_value(entry: Seq<u8>, key: Seq<char>) -> Option<Seq<char>> {
    let text = decode_utf8(entry);
    let at = first_equals(text);
    if valid_utf8(entry) && at < text.len() && text.take(at) == key {
        Some(text.skip(at + 1))
    } else {
        None
    }
}

/// The value of `key`: that of the first entry that gives it one.
pub open spec fn lookup(entries: Seq<Seq<u8>>, key: Seq<char>) -> Option<Seq<char>>
    decreases entries.len(),
{
    if entries.len() == 0 {
        None
    } else {
        match entry_value(entries[0], key) {
            Some(value) => Some(value),
            None => lookup(entries.skip(1), key),
        }
    }
}

/// Entries as mathematical values.
pub open spec fn entry_bytes(entries: Seq<Vec<u8>>) -> Seq<Seq<u8>> {
    Seq::new(entries.len(), |i: int| entries[i]@)
}

proof fn lemma_first_equals(text: Seq<char>, n: int)
    requires
        0 <= n <= text.len(),
        forall|i: int| 0 <= i < n ==> text[i] != '=',
        n < text.len() ==> text[n] == '=',
    ensures
        first_equals(text) == n,
    decreases n,
{
    if n > 0 {
        lemma_first_equals(text.skip(1), n - 1);
    }
}

fn value_in_entry(entry: &Vec<u8>, key: &str) -> (r: Option<String>)
    ensures
        match entry_value(entry@, key@) {
            Some(value) => r matches Some(s) && s@ == value,
            None => r is None,
        },
{
    let text = match utf8_text(entry.as_slice()) {
        Some(text) => text,
        None => {
            return None;
        },
    };
    let count: usize = text.unicode_len();
    let mut at: usize = 0;
    while at < count && text.get_char(at) != '='
        invariant
            at <= count,
            count == text@.len(),
            forall|i: int| 0 <= i < at ==> text@[i] != '=',
        decreases count - at,
    {
        at = at + 1;
    }
    proof {
        lemma_first_equals(text@, at as int);
    }
    if at == count {
        return None;
    }
    let name = text.substring_char(0, at);
    proof {
        assert(name@ =~= text@.take(at as int));
        assert(text@.subrange(at + 1, count as int) =~= text@.skip(at + 1));
    }
    if name.to_owned() == key.to_owned() {
        Some(text.substring_char(at + 1, count).to_owned())
    } else {
        None
    }
}

/// The value of an environment variable, given the entries in their order.
pub fn var(entries: &Vec<Vec<u8>>, key: &str) -> (r: Option<String>)
    ensures
        match lookup(entry_bytes(entries@), key@) {
            Some(value) => r matches Some(s) && s@ == value,
            None => r is None,
        },
{
    let ghost all = entry_bytes(entries@);
    let mut i: usize = 0;
    proof {
        assert(all.skip(0) =~= all);
    }
    while i < entries.len()
        invariant
            i <= entries@.len(),
            all == entry_bytes(entries@),
            lookup(all.skip(i as int), key@) == lookup(all, key@),
        decreases entries@.len() - i,
    {
        proof {
            assert(all.skip(i as int)[0] == entries@[i as int]@);
            assert(all.skip(i as int).skip(1) =~= all.skip(i + 1));
        }
        let value = value_in_entry(&entries[i], key);
        if value.is_some() {
            return value;
        }
        i = i + 1;
    }
    None
}

/// An entry made of a key without an equals sign, an equals sign and a value
/// gives the key that value, whatever the value holds.
pub proof fn law_entry_reads_back(key: Seq<char>, value: Seq<char>)
    requires
        forall|i: int| 0 <= i < key.len() ==> key[i] != '=',
    ensures
        entry_value(encode_utf8(key.push('=') + value), key) == Some(value),
{
    let text = key.push('=') + value;
    encode_utf8_valid_utf8(text);
    encode_utf8_decode_utf8(text);
    lemma_first_equals(text, key.len() as int);
    assert(text.take(key.len() as int) =~= key);
    assert(text.skip(key.len() as int + 1) =~= value);
}

/// A value that is found stands in the first entry that gives the key one, and this entry
/// is the key, an equals sign and the value. If none is found, no entry gives the key one.
pub proof fn law_first_entry_counts(entries: Seq<Seq<u8>>, key: Seq<char>)
    ensures
        match lookup(entries, key) {
            Some(value) => exists|k: int|
                {
                    &&& 0 <= k < entries.len()
                    &&& #[trigger] entry_value(entries[k], key) == Some(value)
                    &&& forall|j: int|
                        0 <= j < k ==> #[trigger] entry_value(entries[j], key) is None
                },
            None => forall|j: int|
                0 <= j < entries.len() ==> #[trigger] entry_value(entries[j], key) is None,
        },
    decreases entries.len(),
{
    if entries.len() > 0 {
        let rest = entries.skip(1);
        if entry_value(entries[0], key) is None {
            law_first_entry_counts(rest, key);
            match lookup(rest, key) {
                Some(value) => {
                    let k = choose|k: int|
                        {
                            &&& 0 <= k < rest.len()
                            &&& #[trigger] entry_value(rest[k], key) == Some(value)
                            &&& forall|j: int|
                                0 <= j < k ==> #[trigger] entry_value(rest[j], key) is None
                        };
                    assert(entry_value(entries[k + 1], key) == Some(value));
                    assert forall|j: int| 0 <= j < k + 1 implies #[trigger] entry_value(
                        entries[j],
                        key,
                    ) is None by {
                        if j > 0 {
                            assert(entry_value(rest[j - 1], key) is None);
                        }
                    }
                },
                None => {
                    assert forall|j: int| 0 <= j < entries.len() implies #[trigger] entry_value(
                        entries[j],
                        key,
                    ) is None by {
                        if j > 0 {
                            assert(entry_value(rest[j - 1], key) is None);
                        }
                    }
                },
            }
        }
    }
}

/// An entry that gives the key a value is the key, an equals sign and this value, and the
/// key has no equals sign.
pub proof fn law_entry_is_split(entry: Seq<u8>, key: Seq<char>)
    ensures
        entry_value(entry, key) matches Some(value) ==> {
            &&& valid_utf8(entry)
            &&& decode_utf8(entry) == key + seq!['='] + value
            &&& forall|i: int| 0 <= i < key.len() ==> #[trigger] key[i] != '='
        },
{
    let text = decode_utf8(entry);
    lemma_no_equals_before(text);
    if let Some(value) = entry_value(entry, key) {
        let at = first_equals(text);
        assert(text =~= key + seq!['='] + value);
        assert forall|i: int| 0 <= i < key.len() implies #[trigger] key[i] != '=' by {
            assert(text[i] == key[i]);
        }
    }
}

proof fn lemma_no_equals_before(text: Seq<char>)
    ensures
        0 <= first_equals(text) <= text.len(),
        first_equals(text) < text.len() ==> text[first_equals(text)] == '=',
        forall|i: int| 0 <= i < first_equals(text) ==> #[trigger] text[i] != '=',
    decreases text.len(),
{
    if text.len() > 0 && text[0] != '=' {
        let rest = text.skip(1);
        lemma_no_equals_before(rest);
        assert forall|i: int| 0 <= i < first_equals(text) implies #[trigger] text[i] != '=' by {
            if i > 0 {
                assert(text[i] == rest[i - 1]);
            }
        }
    }
}

} // verus!
