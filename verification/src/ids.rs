//! Fresh identifiers and the time of day.

use crate::text::concat;
use vstd::prelude::*;
use vstd::string::*;

verus! {

/// Whether `c` is a hexadecimal digit, in lower case.
pub open spec fn is_hex(c: char) -> bool {
    '0' <= c <= '9' || 'a' <= c <= 'f'
}

/// Whether `s` is a random UUID in its simple form: 32 hexadecimal digits with the
/// version and the variant at their places.
pub open spec fn is_random_uuid(s: Seq<char>) -> bool {
    &&& s.len() == 32
    &&& forall|i: int| 0 <= i < 32 ==> is_hex(#[trigger] s[i])
    &&& s[12] == '4'
    &&& s[16] == '8' || s[16] == '9' || s[16] == 'a' || s[16] == 'b'
}

/// Whether `id` is `prefix` followed by a random UUID.
pub open spec fn is_fresh_id(id: Seq<char>, prefix: Seq<char>) -> bool {
    exists|s: Seq<char>| is_random_uuid(s) && id == #[trigger] (prefix + s)
}

/// `uuid::Uuid::new_v4` in its simple form: 32 lower-case hexadecimal digits. Which
/// ones is left to chance, but for the version and the variant.
#[verifier::external_body]
fn random_uuid() -> (s: String)
    ensures
        is_random_uuid(s@),
{
    uuid::Uuid::new_v4().simple().to_string()
}

/// A fresh identifier.
pub fn fresh_id(prefix: &str) -> (id: String)
    ensures
        is_fresh_id(id@, prefix@),
{
    let tail = random_uuid();
    concat(prefix, tail.as_str())
}

/// `std::time::SystemTime::now`, in whole seconds since the Unix epoch: nothing where
/// the clock stands before the epoch. Nothing is claimed of the reading.
#[verifier::external_body]
fn read_clock() -> (seconds: Option<u64>) {
    std::time::SystemTime::now().duration_since(std::time::UNIX_EPOCH).ok().map(|d| d.as_secs())
}

/// The timestamp for a reading of the clock.
pub open spec fn timestamp(reading: Option<u64>) -> i64 {
    match reading {
        Some(seconds) => seconds as i64,
        None => 0,
    }
}

/// The timestamp for a reading of the clock.
pub fn timestamp_of(reading: Option<u64>) -> (t: i64)
    ensures
        t == timestamp(reading),
{
    match reading {
        Some(seconds) => seconds as i64,
        None => 0,
    }
}

/// The current time, in whole seconds since the Unix epoch.
pub fn unix_timestamp() -> (t: i64)
    ensures
        exists|reading: Option<u64>| t == #[trigger] timestamp(reading),
{
    timestamp_of(read_clock())
}

} // verus!
