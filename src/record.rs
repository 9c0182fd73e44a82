use vstd::prelude::*;

use crate::error::{is_read_error, line_error, line_error_text, write_err, Error};
use crate::key::{is_valid_key, validate_key};

verus! {

/// The value text that marks a key as removed.
pub open spec fn null_text() -> Seq<char> {
    seq!['n', 'u', 'l', 'l']
}

pub open spec fn has_comma(line: Seq<char>) -> bool {
    exists|i: int| 0 <= i < line.len() && line[i] == ','
}

pub open spec fn is_first_comma(line: Seq<char>, i: int) -> bool {
    &&& 0 <= i < line.len()
    &&& line[i] == ','
    &&& forall|j: int| 0 <= j < i ==> line[j] != ','
}

/// The position of the first comma of a line that has one.
pub open spec fn first_comma(line: Seq<char>) -> int {
    choose|i: int| is_first_comma(line, i)
}

/// The key of a record line: what stands before its first comma.
pub open spec fn key_of(line: Seq<char>) -> Seq<char> {
    line.subrange(0, first_comma(line))
}

/// The value text of a record line: what follows its first comma.
pub open spec fn value_of(line: Seq<char>) -> Seq<char> {
    line.subrange(first_comma(line) + 1, line.len() as int)
}

/// The line that records `value` for `key`, without its newline.
pub open spec fn record_line(key: Seq<char>, value: Seq<char>) -> Seq<char> {
    key + seq![','] + value
}

/// A comma with no comma before it is the first comma.
pub proof fn lemma_first_comma(line: Seq<char>, i: int)
    requires
        is_first_comma(line, i),
    ensures
        has_comma(line),
        first_comma(line) == i,
{
    let c = first_comma(line);
    assert(is_first_comma(line, c));
    if c < i {
        assert(line[c] != ',');
    }
    if i < c {
        assert(line[i] != ',');
    }
}

/// A line made of a valid key, a comma and a value splits back into that key
/// and that value.
pub proof fn lemma_record_line_splits(key: Seq<char>, value: Seq<char>)
    requires
        is_valid_key(key),
    ensures
        has_comma(record_line(key, value)),
        key_of(record_line(key, value)) == key,
        value_of(record_line(key, value)) == value,
{
    let line = record_line(key, value);
    assert forall|j: int| 0 <= j < key.len() implies line[j] != ',' by {
        assert(line[j] == key[j]);
    }
    lemma_first_comma(line, key.len() as int);
    assert(key_of(line) =~= key);
    assert(value_of(line) =~= value);
}

/// Splits a record line at its first comma into its key and its value text.
/// A line without a comma is reported with its number.
pub fn split_key_value(line: &str, line_number: usize) -> (r: Result<(&str, &str), Error>)
    ensures
        r is Ok <==> has_comma(line@),
        r matches Ok((k, v)) ==> k@ == key_of(line@) && v@ == value_of(line@),
        r matches Err(e) ==> is_read_error(e, line_error_text(line_number as nat, line@)),
{
    let n = line.unicode_len();
    let mut i: usize = 0;
    while i < n
        invariant
            n == line@.len(),
            i <= n,
            forall|j: int| 0 <= j < i ==> line@[j] != ',',
        decreases n - i,
    {
        if line.get_char(i) == ',' {
            proof {
                lemma_first_comma(line@, i as int);
            }
            let k = line.substring_char(0, i);
            let v = line.substring_char(i + 1, n);
            return Ok((k, v));
        }
        i = i + 1;
    }
    Err(line_error(line_number, line))
}

/// Relies on serde_json::to_string: an absent `Option` serialises as the
/// literal `null`, written into a growing buffer that cannot fail.
#[verifier::external_body]
fn tombstone_text() -> (r: Result<String, String>)
    ensures
        r is Ok && r->Ok_0@ == null_text(),
{
    match serde_json::to_string(&Option::<u8>::None) {
        Ok(s) => Ok(s),
        Err(e) => Err(e.to_string()),
    }
}

/// The text to append for setting `key` to the encoded value `value`: the key,
/// a comma, the value and a newline.
pub fn set_record(key: &str, value: &str) -> (r: Result<String, Error>)
    ensures
        r is Ok <==> is_valid_key(key@),
        r matches Ok(t) ==> t@ == record_line(key@, value@) + seq!['\n'],
        r matches Err(e) ==> e is InvalidKey && e->InvalidKey_0@ == key@,
{
    let key = validate_key(key)?;
    Ok(line_text(key, value))
}

/// The text to append for removing `key`: the key, a comma, the tombstone
/// literal and a newline.
pub fn unset_record(key: &str) -> (r: Result<String, Error>)
    ensures
        r is Ok <==> is_valid_key(key@),
        r matches Ok(t) ==> t@ == record_line(key@, null_text()) + seq!['\n'],
        r matches Err(e) ==> e is InvalidKey && e->InvalidKey_0@ == key@,
{
    let key = validate_key(key)?;
    let value = match tombstone_text() {
        Ok(s) => s,
        Err(e) => return Err(write_err(e)),
    };
    Ok(line_text(key, value.as_str()))
}

fn line_text(key: &str, value: &str) -> (r: String)
    ensures
        r@ == record_line(key@, value@) + seq!['\n'],
{
    proof {
        reveal_strlit(",");
        reveal_strlit("\n");
    }
    let mut t = String::from_str(key);
    t.append(",");
    t.append(value);
    t.append("\n");
    assert(t@ =~= record_line(key@, value@) + seq!['\n']);
    t
}

} // verus!
