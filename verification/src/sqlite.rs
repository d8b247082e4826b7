//! Guards for values that cross the SQLite allocation boundary.

use vstd::prelude::*;

use crate::text::{decimal, decimal_text, join4};

verus! {

/// Whether a stored length is one that may be read.
pub open spec fn length_is_bounded(stored_bytes: i64, maximum_bytes: usize) -> bool {
    0 <= stored_bytes <= maximum_bytes
}

/// Message of a value that is too long to be read.
pub open spec fn oversized(kind: Seq<char>, maximum_bytes: usize) -> Seq<char> {
    kind + " exceeds "@ + decimal(maximum_bytes as nat) + " bytes"@
}

/// Decides, from its stored byte length alone, whether a text may be read.
///
/// Callers select `length(CAST(column AS BLOB))` immediately before the
/// corresponding text column. The BLOB cast makes SQLite report UTF-8 bytes
/// rather than Unicode characters.
pub fn bounded_text(stored_bytes: i64, maximum_bytes: usize, kind: &str) -> (result: Result<(), String>)
    ensures
        match result {
            Ok(()) => length_is_bounded(stored_bytes, maximum_bytes),
            Err(message) => !length_is_bounded(stored_bytes, maximum_bytes) && message@ == oversized(kind@, maximum_bytes),
        },
{
    if stored_bytes >= 0 && stored_bytes as u64 <= maximum_bytes as u64 {
        return Ok(());
    }
    let limit = decimal_text(maximum_bytes as u64);
    Err(join4(kind, " exceeds ", limit.as_str(), " bytes"))
}

/// Decides, from its stored byte length alone, whether a nullable text may be
/// read. `false` stands for an absent text.
pub fn bounded_optional_text(stored_bytes: Option<i64>, maximum_bytes: usize, kind: &str) -> (result: Result<bool, String>)
    ensures
        match (stored_bytes, result) {
            (None, Ok(present)) => !present,
            (None, Err(_)) => false,
            (Some(stored_bytes), Ok(present)) => present && length_is_bounded(stored_bytes, maximum_bytes),
            (Some(stored_bytes), Err(message)) => !length_is_bounded(stored_bytes, maximum_bytes) && message@ == oversized(
                kind@,
                maximum_bytes,
            ),
        },
{
    match stored_bytes {
        None => Ok(false),
        Some(stored_bytes) => match bounded_text(stored_bytes, maximum_bytes, kind) {
            Ok(()) => Ok(true),
            Err(message) => Err(message),
        },
    }
}

/// A stored length is accepted from zero up to the maximum.
pub proof fn law_stored_lengths_are_bounded(stored_bytes: i64, maximum_bytes: usize)
    ensures
        length_is_bounded(stored_bytes, maximum_bytes) <==> 0 <= stored_bytes && stored_bytes <= maximum_bytes,
{
}

} // verus!
