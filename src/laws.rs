use vstd::prelude::*;

use crate::key::is_valid_key;
use crate::log::{fold_get, fold_map};
use crate::record::{key_of, lemma_record_line_splits, null_text, record_line, value_of};

verus! {

/// The record lines of a sequence of writes, each a key and a value text.
pub open spec fn records(writes: Seq<(Seq<char>, Seq<char>)>) -> Seq<Seq<char>> {
    writes.map_values(|w: (Seq<char>, Seq<char>)| record_line(w.0, w.1))
}

/// The value text that a write of a single key records: the value, or the
/// tombstone for a removal.
pub open spec fn written_text(op: Option<Seq<char>>) -> Seq<char> {
    match op {
        Some(v) => v,
        None => null_text(),
    }
}

/// Appending records decides a key by the appended records when one of them
/// has that key, and leaves it as it was otherwise.
pub proof fn lemma_fold_get_append(a: Seq<Seq<char>>, b: Seq<Seq<char>>, key: Seq<char>)
    ensures
        (forall|i: int| 0 <= i < b.len() ==> key_of(#[trigger] b[i]) != key) ==> fold_get(
            a + b,
            key,
        ) == fold_get(a, key),
        (exists|i: int| 0 <= i < b.len() && key_of(#[trigger] b[i]) == key) ==> fold_get(
            a + b,
            key,
        ) == fold_get(b, key),
    decreases b.len(),
{
    if b.len() == 0 {
        assert(a + b =~= a);
    } else {
        assert((a + b).drop_last() =~= a + b.drop_last());
        assert((a + b).last() == b.last());
        lemma_fold_get_append(a, b.drop_last(), key);
        if key_of(b.last()) != key {
            if exists|i: int| 0 <= i < b.len() && key_of(#[trigger] b[i]) == key {
                let i = choose|i: int| 0 <= i < b.len() && key_of(#[trigger] b[i]) == key;
                assert(i < b.len() - 1);
                assert(b.drop_last()[i] == b[i]);
            }
            assert forall|i: int|
                0 <= i < b.drop_last().len() && (forall|j: int|
                    0 <= j < b.len() ==> key_of(#[trigger] b[j]) != key) implies key_of(
                #[trigger] b.drop_last()[i],
            ) != key by {
                assert(b.drop_last()[i] == b[i]);
            }
        }
    }
}

/// After a value is set for a key, reading the key gives that value, whatever
/// was written before and whatever is written later to other keys. The value
/// is a live one: the codec never writes the tombstone for a value.
pub proof fn lemma_set_then_get(
    log: Seq<Seq<char>>,
    key: Seq<char>,
    value: Seq<char>,
    later: Seq<(Seq<char>, Seq<char>)>,
)
    requires
        is_valid_key(key),
        value != null_text(),
        forall|i: int| 0 <= i < later.len() ==> is_valid_key((#[trigger] later[i]).0),
        forall|i: int| 0 <= i < later.len() ==> (#[trigger] later[i]).0 != key,
    ensures
        fold_get(log.push(record_line(key, value)) + records(later), key) == Some(value),
{
    let b = records(later);
    assert forall|i: int| 0 <= i < b.len() implies key_of(#[trigger] b[i]) != key by {
        lemma_record_line_splits(later[i].0, later[i].1);
    }
    lemma_fold_get_append(log.push(record_line(key, value)), b, key);
    lemma_record_line_splits(key, value);
}

/// After a key is unset, reading it gives the absent state.
pub proof fn lemma_unset_then_get(log: Seq<Seq<char>>, key: Seq<char>)
    requires
        is_valid_key(key),
    ensures
        fold_get(log.push(record_line(key, null_text())), key) is None,
{
    lemma_record_line_splits(key, null_text());
}

/// Last write wins: after a non-empty series of sets and unsets of one key,
/// reading it gives the value of the last write, or the absent state when the
/// last write was an unset.
pub proof fn lemma_last_write_wins(
    log: Seq<Seq<char>>,
    key: Seq<char>,
    writes: Seq<Option<Seq<char>>>,
)
    requires
        is_valid_key(key),
        writes.len() > 0,
        forall|i: int| 0 <= i < writes.len() ==> (#[trigger] writes[i]) != Some(null_text()),
    ensures
        fold_get(
            log + writes.map_values(|w: Option<Seq<char>>| record_line(key, written_text(w))),
            key,
        ) == writes.last(),
{
    let b = writes.map_values(|w: Option<Seq<char>>| record_line(key, written_text(w)));
    let n = b.len() - 1;
    lemma_record_line_splits(key, written_text(writes.last()));
    assert(key_of(b[n]) == key);
    lemma_fold_get_append(log, b, key);
    assert(b.last() == b[n]);
    assert(writes.last() == writes[n]);
}

/// The mapping a log folds to holds exactly the keys whose read gives a value,
/// each with that value.
pub proof fn lemma_load_map_matches_get(log: Seq<Seq<char>>, key: Seq<char>)
    ensures
        fold_map(log).contains_key(key) <==> fold_get(log, key) is Some,
        fold_map(log).contains_key(key) ==> fold_get(log, key) == Some(fold_map(log)[key]),
    decreases log.len(),
{
    if log.len() > 0 {
        lemma_load_map_matches_get(log.drop_last(), key);
    }
}

} // verus!
