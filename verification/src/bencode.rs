//! Bencode, the notation of torrent files and of extension messages.
use serde_bencode::value::Value;
use vstd::prelude::*;

use crate::text::{decimal, decimal_nat};

verus! {

/// A value that can be written in bencode.
#[verifier::external_type_specification]
#[verifier::external_body]
pub struct ExValue(serde_bencode::value::Value);

/// What `serde_bencode` fails with.
#[verifier::external_type_specification]
#[verifier::external_body]
pub struct ExBencodeError(serde_bencode::Error);

/// A text of ASCII characters as bytes.
pub open spec fn ascii(text: Seq<char>) -> Seq<u8> {
    Seq::new(text.len(), |i: int| text[i] as u8)
}

/// An integer in bencode.
pub open spec fn bencode_int(n: int) -> Seq<u8> {
    ascii(seq!['i'] + decimal(n) + seq!['e'])
}

/// A byte string in bencode.
pub open spec fn bencode_bytes(bytes: Seq<u8>) -> Seq<u8> {
    ascii(decimal_nat(bytes.len()) + seq![':']) + bytes
}

/// The entries of a dictionary in bencode, in the order given. Each is a key
/// and the notation of its value.
pub open spec fn bencode_entries(entries: Seq<(Seq<u8>, Seq<u8>)>) -> Seq<u8>
    decreases entries.len(),
{
    if entries.len() == 0 {
        seq![]
    } else {
        bencode_entries(entries.drop_last()) + bencode_bytes(entries.last().0) + entries.last().1
    }
}

/// A dictionary in bencode.
pub open spec fn bencode_dict(entries: Seq<(Seq<u8>, Seq<u8>)>) -> Seq<u8> {
    ascii(seq!['d']) + bencode_entries(entries) + ascii(seq!['e'])
}

/// Whether `a` and `b` first differ at `at`, and `a` is the smaller there or
/// ends there.
pub open spec fn smaller_at(a: Seq<u8>, b: Seq<u8>, at: int) -> bool {
    &&& 0 <= at <= a.len()
    &&& at < b.len()
    &&& a.take(at) == b.take(at)
    &&& at == a.len() || a[at] < b[at]
}

/// The lexicographic order on byte strings.
pub open spec fn smaller(a: Seq<u8>, b: Seq<u8>) -> bool {
    exists|at: int| smaller_at(a, b, at)
}

/// A text that first differs from another at `at`, and is the smaller there or
/// ends there, is the smaller of the two.
pub proof fn lemma_ascii_smaller(a: Seq<char>, b: Seq<char>, at: int)
    requires
        0 <= at <= a.len(),
        at < b.len(),
        forall|j: int| 0 <= j < at ==> a[j] == b[j],
        at == a.len() || (a[at] as u8) < (b[at] as u8),
    ensures
        smaller(ascii(a), ascii(b)),
{
    assert(ascii(a).take(at) =~= ascii(b).take(at));
    assert(smaller_at(ascii(a), ascii(b), at));
}

/// Whether the keys of a dictionary's entries strictly ascend.
pub open spec fn keys_ascend(entries: Seq<(Vec<u8>, Value)>) -> bool {
    forall|i: int| 0 < i < entries.len() ==> smaller(entries[i - 1].0@, #[trigger] entries[i].0@)
}

/// The bencode notation of a value.
pub uninterp spec fn notation(value: Value) -> Seq<u8>;

/// The notations of a dictionary's values, each with its key.
pub open spec fn entry_notations(entries: Seq<(Vec<u8>, Value)>) -> Seq<(Seq<u8>, Seq<u8>)> {
    entries.map_values(|e: (Vec<u8>, Value)| (e.0@, notation(e.1)))
}

/// Makes a `serde_bencode` integer.
#[verifier::external_body]
pub(crate) fn int_value(n: i64) -> (value: Value)
    ensures
        notation(value) == bencode_int(n as int),
{
    Value::from(n)
}

/// Makes a `serde_bencode` byte string.
#[verifier::external_body]
pub(crate) fn bytes_value(bytes: Vec<u8>) -> (value: Value)
    ensures
        notation(value) == bencode_bytes(bytes@),
{
    Value::from(bytes)
}

/// Makes a `serde_bencode` dictionary. It holds its entries in no order, and
/// is written with the keys ascending.
#[verifier::external_body]
pub(crate) fn dict_value(entries: Vec<(Vec<u8>, Value)>) -> (value: Value)
    requires
        keys_ascend(entries@),
    ensures
        notation(value) == bencode_dict(entry_notations(entries@)),
{
    Value::from(entries.into_iter().collect::<std::collections::HashMap<Vec<u8>, Value>>())
}

/// Calls `serde_bencode::to_bytes`. Integers, byte strings and dictionaries of
/// them can all be written, so nothing can fail.
#[verifier::external_body]
pub(crate) fn to_bytes(value: &Value) -> (result: Result<Vec<u8>, serde_bencode::Error>)
    ensures
        result is Ok,
        result matches Ok(bytes) ==> bytes@ == notation(*value),
{
    serde_bencode::to_bytes(value)
}

/// Appends an entry to those of a dictionary, under a key that follows the
/// keys before it.
pub(crate) fn push_entry(entries: &mut Vec<(Vec<u8>, Value)>, key: &str, value: Value)
    requires
        key.is_ascii(),
        keys_ascend(old(entries)@),
        old(entries)@.len() > 0 ==> smaller(old(entries)@.last().0@, ascii(key@)),
    ensures
        keys_ascend(final(entries)@),
        final(entries)@.len() > 0,
        final(entries)@.last().0@ == ascii(key@),
        entry_notations(final(entries)@) == entry_notations(old(entries)@).push(
            (ascii(key@), notation(value)),
        ),
{
    broadcast use vstd::string::is_ascii_spec_bytes;

    let ghost before = entries@;
    let key_bytes: Vec<u8> = key.as_bytes_vec();
    assert(key_bytes@ =~= ascii(key@));
    entries.push((key_bytes, value));
    assert forall|i: int| 0 < i < entries@.len() implies smaller(
        entries@[i - 1].0@,
        #[trigger] entries@[i].0@,
    ) by {
        if i < before.len() {
            assert(smaller(before[i - 1].0@, before[i].0@));
        }
    }
    assert(entry_notations(entries@) =~= entry_notations(before).push(
        (ascii(key@), notation(value)),
    ));
}

/// A dictionary in bencode.
pub(crate) fn dict_bytes(entries: Vec<(Vec<u8>, Value)>) -> (bytes: Vec<u8>)
    requires
        keys_ascend(entries@),
    ensures
        bytes@ == bencode_dict(entry_notations(entries@)),
{
    to_bytes(&dict_value(entries)).unwrap()
}

/// Texts are written one after the other.
pub proof fn lemma_ascii_concat(a: Seq<char>, b: Seq<char>)
    ensures
        ascii(a + b) == ascii(a) + ascii(b),
{
    assert(ascii(a + b) =~= ascii(a) + ascii(b));
}

/// The entries of a dictionary are written one after the other.
pub proof fn lemma_entries_push(entries: Seq<(Seq<u8>, Seq<u8>)>, key: Seq<u8>, value: Seq<u8>)
    ensures
        bencode_entries(entries.push((key, value))) == bencode_entries(entries) + (bencode_bytes(
            key,
        ) + value),
{
    assert(entries.push((key, value)).drop_last() =~= entries);
    assert(bencode_entries(entries) + bencode_bytes(key) + value =~= bencode_entries(entries) + (
    bencode_bytes(key) + value));
}

/// A byte string is its length in decimal, a colon and its bytes; an integer is
/// its decimal notation between the letters `i` and `e`; a dictionary is its
/// entries between the letters `d` and `e`.
pub proof fn law_bencode_notation(n: int, bytes: Seq<u8>, entries: Seq<(Seq<u8>, Seq<u8>)>)
    ensures
        bencode_bytes(bytes) == ascii(decimal_nat(bytes.len())) + seq![0x3au8] + bytes,
        bencode_int(n) == seq![0x69u8] + ascii(decimal(n)) + seq![0x65u8],
        bencode_dict(entries) == seq![0x64u8] + bencode_entries(entries) + seq![0x65u8],
        bencode_entries(seq![]) == Seq::<u8>::empty(),
{
    assert(bencode_bytes(bytes) =~= ascii(decimal_nat(bytes.len())) + seq![0x3au8] + bytes);
    assert(bencode_int(n) =~= seq![0x69u8] + ascii(decimal(n)) + seq![0x65u8]);
    assert(ascii(seq!['d']) =~= seq![0x64u8]);
    assert(ascii(seq!['e']) =~= seq![0x65u8]);
}

} // verus!
