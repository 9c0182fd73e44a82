use vstd::prelude::*;

use crate::error::Error;

verus! {

/// The characters a key may hold: ASCII digits and letters, the space, `:`,
/// `/` and `.`. The comma separates a key from its value and a newline ends a
/// record, so neither may appear.
pub open spec fn is_key_char(c: char) -> bool {
    ('0' <= c && c <= '9') || ('A' <= c && c <= 'Z') || ('a' <= c && c <= 'z') || c == ' '
        || c == ':' || c == '/' || c == '.'
}

/// A key is valid when each of its characters is allowed; the empty key is valid.
pub open spec fn is_valid_key(key: Seq<char>) -> bool {
    forall|i: int| 0 <= i < key.len() ==> is_key_char(#[trigger] key[i])
}

fn key_char(c: char) -> (r: bool)
    ensures
        r == is_key_char(c),
{
    ('0' <= c && c <= '9') || ('A' <= c && c <= 'Z') || ('a' <= c && c <= 'z') || c == ' '
        || c == ':' || c == '/' || c == '.'
}

/// Accepts `key` when it is valid, and hands it back; else reports it.
pub fn validate_key(key: &str) -> (r: Result<&str, Error>)
    ensures
        r is Ok <==> is_valid_key(key@),
        r matches Ok(k) ==> k@ == key@,
        r matches Err(e) ==> e is InvalidKey && e->InvalidKey_0@ == key@,
{
    let n = key.unicode_len();
    let mut i: usize = 0;
    while i < n
        invariant
            n == key@.len(),
            i <= n,
            forall|j: int| 0 <= j < i ==> is_key_char(#[trigger] key@[j]),
        decreases n - i,
    {
        if !key_char(key.get_char(i)) {
            return Err(Error::InvalidKey(key.to_string()));
        }
        i = i + 1;
    }
    Ok(key)
}

} // verus!
