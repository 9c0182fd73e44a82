use vstd::prelude::*;

use crate::error::{is_read_error, line_error_text, Error};
use crate::key::{is_valid_key, validate_key};
use crate::record::{has_comma, key_of, null_text, split_key_value, value_of};

verus! {

/// The lines of a log as character sequences, oldest first.
pub open spec fn lines_view(lines: Seq<String>) -> Seq<Seq<char>> {
    lines.map_values(|s: String| s@)
}

pub open spec fn opt_view(o: Option<String>) -> Option<Seq<char>> {
    match o {
        Some(s) => Some(s@),
        None => None,
    }
}

/// Every line of the log is a record: it has a comma.
pub open spec fn well_formed(log: Seq<Seq<char>>) -> bool {
    forall|i: int| 0 <= i < log.len() ==> has_comma(#[trigger] log[i])
}

/// Line `i` is the first line of the log that is no record. A line left
/// half-written by an interrupted append is such a line when it lacks its
/// comma: every later scan then stops there until the file is repaired.
pub open spec fn is_first_malformed(log: Seq<Seq<char>>, i: int) -> bool {
    &&& 0 <= i < log.len()
    &&& !has_comma(log[i])
    &&& forall|j: int| 0 <= j < i ==> has_comma(#[trigger] log[j])
}

/// `e` is the error a scan of `log` stops with: it names the first malformed
/// line, counted from zero, and its content.
pub open spec fn is_scan_error(log: Seq<Seq<char>>, e: Error) -> bool {
    exists|i: int| is_first_malformed(log, i) && is_read_error(e, line_error_text(i as nat, log[i]))
}

/// The state a value text gives its key: the tombstone removes it.
pub open spec fn live(value: Seq<char>) -> Option<Seq<char>> {
    if value == null_text() {
        None
    } else {
        Some(value)
    }
}

/// The state of `key` after the log: decided by its last record, absent when
/// it has none.
pub open spec fn fold_get(log: Seq<Seq<char>>, key: Seq<char>) -> Option<Seq<char>>
    decreases log.len(),
{
    if log.len() == 0 {
        None
    } else if key_of(log.last()) == key {
        live(value_of(log.last()))
    } else {
        fold_get(log.drop_last(), key)
    }
}

/// The mapping the log folds to: each record sets or removes its key.
pub open spec fn fold_map(log: Seq<Seq<char>>) -> Map<Seq<char>, Seq<char>>
    decreases log.len(),
{
    if log.len() == 0 {
        Map::empty()
    } else {
        let line = log.last();
        let m = fold_map(log.drop_last());
        if value_of(line) == null_text() {
            m.remove(key_of(line))
        } else {
            m.insert(key_of(line), value_of(line))
        }
    }
}

/// Whether two texts are equal.
fn same_text(a: &str, b: &str) -> (r: bool)
    ensures
        r == (a@ == b@),
{
    let n = a.unicode_len();
    if n != b.unicode_len() {
        return false;
    }
    let mut i: usize = 0;
    while i < n
        invariant
            n == a@.len(),
            n == b@.len(),
            i <= n,
            forall|j: int| 0 <= j < i ==> a@[j] == b@[j],
        decreases n - i,
    {
        if a.get_char(i) != b.get_char(i) {
            return false;
        }
        i = i + 1;
    }
    assert(a@ =~= b@);
    true
}

fn is_tombstone(value: &str) -> (r: bool)
    ensures
        r == (value@ == null_text()),
{
    proof {
        reveal_strlit("null");
    }
    let r = same_text(value, "null");
    assert("null"@ =~= null_text());
    r
}

proof fn lemma_prefix_step(log: Seq<Seq<char>>, i: int)
    requires
        0 <= i < log.len(),
    ensures
        log.subrange(0, i + 1).drop_last() == log.subrange(0, i),
        log.subrange(0, i + 1).last() == log[i],
{
    assert(log.subrange(0, i + 1).drop_last() =~= log.subrange(0, i));
}

/// Retrieves the value text of `key`: that of its last record, or `None` when
/// it has no record or its last record is a tombstone. The scan stops at the
/// first line that is no record.
pub fn get(lines: &Vec<String>, key: &str) -> (r: Result<Option<String>, Error>)
    ensures
        !is_valid_key(key@) ==> (r matches Err(e) && e is InvalidKey && e->InvalidKey_0@
            == key@),
        is_valid_key(key@) ==> match r {
            Ok(v) => well_formed(lines_view(lines@)) && opt_view(v) == fold_get(
                lines_view(lines@),
                key@,
            ),
            Err(e) => is_scan_error(lines_view(lines@), e),
        },
        is_valid_key(key@) && well_formed(lines_view(lines@)) ==> r is Ok,
{
    validate_key(key)?;
    let ghost log = lines_view(lines@);
    let mut slot: Option<String> = None;
    let mut i: usize = 0;
    while i < lines.len()
        invariant
            log == lines_view(lines@),
            i <= lines.len(),
            is_valid_key(key@),
            forall|j: int| 0 <= j < i ==> has_comma(#[trigger] log[j]),
            opt_view(slot) == fold_get(log.subrange(0, i as int), key@),
        decreases lines.len() - i,
    {
        let line = lines[i].as_str();
        assert(line@ == log[i as int]);
        proof {
            lemma_prefix_step(log, i as int);
        }
        match split_key_value(line, i) {
            Ok((k, v)) => {
                if same_text(k, key) {
                    if is_tombstone(v) {
                        slot = None;
                    } else {
                        slot = Some(String::from_str(v));
                    }
                }
            },
            Err(e) => {
                proof {
                    assert(is_first_malformed(log, i as int));
                }
                return Err(e);
            },
        }
        i = i + 1;
    }
    assert(log.subrange(0, lines.len() as int) =~= log);
    Ok(slot)
}

/// Whether `key` is present: its last record exists and is no tombstone.
pub fn contains(lines: &Vec<String>, key: &str) -> (r: Result<bool, Error>)
    ensures
        !is_valid_key(key@) ==> (r matches Err(e) && e is InvalidKey && e->InvalidKey_0@
            == key@),
        is_valid_key(key@) ==> match r {
            Ok(b) => well_formed(lines_view(lines@)) && b == fold_get(
                lines_view(lines@),
                key@,
            ) is Some,
            Err(e) => is_scan_error(lines_view(lines@), e),
        },
        is_valid_key(key@) && well_formed(lines_view(lines@)) ==> r is Ok,
{
    validate_key(key)?;
    let ghost log = lines_view(lines@);
    let mut present = false;
    let mut i: usize = 0;
    while i < lines.len()
        invariant
            log == lines_view(lines@),
            i <= lines.len(),
            is_valid_key(key@),
            forall|j: int| 0 <= j < i ==> has_comma(#[trigger] log[j]),
            present == fold_get(log.subrange(0, i as int), key@) is Some,
        decreases lines.len() - i,
    {
        let line = lines[i].as_str();
        assert(line@ == log[i as int]);
        proof {
            lemma_prefix_step(log, i as int);
        }
        match split_key_value(line, i) {
            Ok((k, v)) => {
                if same_text(k, key) {
                    present = !is_tombstone(v);
                }
            },
            Err(e) => {
                proof {
                    assert(is_first_malformed(log, i as int));
                }
                return Err(e);
            },
        }
        i = i + 1;
    }
    assert(log.subrange(0, lines.len() as int) =~= log);
    Ok(present)
}

/// `entries` lists the mapping `m`: each key once, with its value, and every
/// key of `m`.
pub open spec fn represents(entries: Seq<(String, String)>, m: Map<Seq<char>, Seq<char>>) -> bool {
    &&& forall|i: int, j: int|
        0 <= i < j < entries.len() ==> (#[trigger] entries[i]).0@ != (#[trigger] entries[j]).0@
    &&& forall|i: int|
        0 <= i < entries.len() ==> m.contains_key((#[trigger] entries[i]).0@) && m[entries[i].0@]
            == entries[i].1@
    &&& forall|k: Seq<char>|
        #[trigger] m.contains_key(k) ==> exists|i: int|
            0 <= i < entries.len() && (#[trigger] entries[i]).0@ == k
}

/// The position of the entry for `key`, if there is one.
fn find_entry(entries: &Vec<(String, String)>, key: &str) -> (r: Option<usize>)
    ensures
        r matches Some(p) ==> p < entries@.len() && entries@[p as int].0@ == key@,
        r is None ==> forall|i: int| 0 <= i < entries@.len() ==> (#[trigger] entries@[i]).0@ != key@,
{
    let mut p: usize = 0;
    while p < entries.len()
        invariant
            p <= entries@.len(),
            forall|i: int| 0 <= i < p ==> (#[trigger] entries@[i]).0@ != key@,
        decreases entries.len() - p,
    {
        if same_text(entries[p].0.as_str(), key) {
            return Some(p);
        }
        p = p + 1;
    }
    None
}

/// Sets `key` to `value` in the listed mapping.
fn put_entry(entries: &mut Vec<(String, String)>, key: &str, value: &str, Ghost(m): Ghost<Map<Seq<char>, Seq<char>>>)
    requires
        represents(old(entries)@, m),
    ensures
        represents(final(entries)@, m.insert(key@, value@)),
{
    let ghost m2 = m.insert(key@, value@);
    match find_entry(entries, key) {
        Some(p) => {
            let ghost e0 = entries@;
            entries.set(p, (String::from_str(key), String::from_str(value)));
            assert forall|k: Seq<char>| #[trigger] m2.contains_key(k) implies exists|i: int|
                0 <= i < entries@.len() && (#[trigger] entries@[i]).0@ == k by {
                if k == key@ {
                    assert(entries@[p as int].0@ == k);
                } else {
                    let i = choose|i: int| 0 <= i < e0.len() && (#[trigger] e0[i]).0@ == k;
                    assert(entries@[i].0@ == k);
                }
            }
        },
        None => {
            let ghost e0 = entries@;
            entries.push((String::from_str(key), String::from_str(value)));
            assert(entries@[e0.len() as int].0@ == key@);
            assert forall|k: Seq<char>| #[trigger] m2.contains_key(k) implies exists|i: int|
                0 <= i < entries@.len() && (#[trigger] entries@[i]).0@ == k by {
                if k == key@ {
                    assert(entries@[e0.len() as int].0@ == k);
                } else {
                    let i = choose|i: int| 0 <= i < e0.len() && (#[trigger] e0[i]).0@ == k;
                    assert(entries@[i].0@ == k);
                }
            }
        },
    }
}

/// Removes `key` from the listed mapping.
fn drop_entry(entries: &mut Vec<(String, String)>, key: &str, Ghost(m): Ghost<Map<Seq<char>, Seq<char>>>)
    requires
        represents(old(entries)@, m),
    ensures
        represents(final(entries)@, m.remove(key@)),
{
    let ghost m2 = m.remove(key@);
    match find_entry(entries, key) {
        Some(p) => {
            let ghost e0 = entries@;
            entries.remove(p);
            assert forall|i: int| 0 <= i < entries@.len() implies (#[trigger] entries@[i])
                == e0[if i < p { i } else { i + 1 }] by {}
            assert forall|i: int, j: int|
                0 <= i < j < entries@.len() implies (#[trigger] entries@[i]).0@ != (
                #[trigger] entries@[j]).0@ by {
                let a = if i < p { i } else { i + 1 };
                let b = if j < p { j } else { j + 1 };
                assert(e0[a].0@ != e0[b].0@);
            }
            assert forall|i: int| 0 <= i < entries@.len() implies m2.contains_key(
                (#[trigger] entries@[i]).0@) && m2[entries@[i].0@] == entries@[i].1@ by {
                let a = if i < p { i } else { i + 1 };
                assert(e0[a].0@ != e0[p as int].0@);
            }
            assert forall|k: Seq<char>| #[trigger] m2.contains_key(k) implies exists|i: int|
                0 <= i < entries@.len() && (#[trigger] entries@[i]).0@ == k by {
                let a = choose|a: int| 0 <= a < e0.len() && (#[trigger] e0[a]).0@ == k;
                assert(a != p);
                let i = if a < p { a } else { a - 1 };
                assert(entries@[i] == e0[a]);
            }
        },
        None => {
            assert(m2 =~= m);
        },
    }
}

/// Loads the whole log as a list of key and value-text pairs: the live keys,
/// each once, with the value text of their last record. The scan stops at the
/// first line that is no record.
pub fn load_map(lines: &Vec<String>) -> (r: Result<Vec<(String, String)>, Error>)
    ensures
        match r {
            Ok(entries) => well_formed(lines_view(lines@)) && represents(
                entries@,
                fold_map(lines_view(lines@)),
            ),
            Err(e) => is_scan_error(lines_view(lines@), e),
        },
        well_formed(lines_view(lines@)) ==> r is Ok,
{
    let ghost log = lines_view(lines@);
    let mut entries: Vec<(String, String)> = Vec::new();
    let mut i: usize = 0;
    while i < lines.len()
        invariant
            log == lines_view(lines@),
            i <= lines.len(),
            forall|j: int| 0 <= j < i ==> has_comma(#[trigger] log[j]),
            represents(entries@, fold_map(log.subrange(0, i as int))),
        decreases lines.len() - i,
    {
        let line = lines[i].as_str();
        assert(line@ == log[i as int]);
        proof {
            lemma_prefix_step(log, i as int);
        }
        match split_key_value(line, i) {
            Ok((k, v)) => {
                if is_tombstone(v) {
                    drop_entry(&mut entries, k, Ghost(fold_map(log.subrange(0, i as int))));
                } else {
                    put_entry(&mut entries, k, v, Ghost(fold_map(log.subrange(0, i as int))));
                }
            },
            Err(e) => {
                proof {
                    assert(is_first_malformed(log, i as int));
                }
                return Err(e);
            },
        }
        i = i + 1;
    }
    assert(log.subrange(0, lines.len() as int) =~= log);
    Ok(entries)
}

} // verus!
