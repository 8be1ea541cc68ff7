//! The wall clock, as far as the book needs it.

use vstd::prelude::*;
use std::time::{Duration, SystemTime, SystemTimeError};
use crate::types::Timestamp;

verus! {

/// `std::time::SystemTime`, a reading of the system clock, carried through
/// without a look inside.
#[verifier::external_type_specification]
#[verifier::external_body]
pub struct ExSystemTime(SystemTime);

/// `std::time::SystemTimeError`, what `SystemTime::duration_since` answers
/// where the second reading is the later one, carried through without a look
/// inside.
#[verifier::external_type_specification]
#[verifier::external_body]
pub struct ExSystemTimeError(SystemTimeError);

/// `SystemTime::now`: the current reading of the system clock. Nothing is
/// claimed of it.
pub assume_specification[ SystemTime::now ]() -> (now: SystemTime);

/// `SystemTime::duration_since`, from the UNIX epoch: the time elapsed from
/// the epoch to the reading, or an error where the reading is the earlier of
/// the two. Nothing is claimed of either.
#[verifier::external_body]
fn since_epoch(time: &SystemTime) -> (elapsed: Result<Duration, SystemTimeError>) {
    time.duration_since(SystemTime::UNIX_EPOCH)
}

/// `Duration::as_micros`: the whole microseconds in the duration. Nothing is
/// claimed of the number.
pub assume_specification[ Duration::as_micros ](duration: &Duration) -> (micros: u128);

/// The timestamp that `timestamp_from` makes of a reading of the system
/// clock. Of the reading nothing is known, and two readings may differ.
pub fn current_timestamp() -> Timestamp {
    let now = SystemTime::now();
    let elapsed = match since_epoch(&now) {
        Ok(elapsed) => Some(elapsed.as_micros()),
        Err(_) => None,
    };
    timestamp_from(elapsed)
}

/// Two to the power of 64: one more than the largest timestamp.
pub open spec fn timestamp_limit() -> u128 {
    0x1_0000_0000_0000_0000
}

/// The timestamp for the microseconds elapsed since the UNIX epoch, where a
/// reading of the clock gave any: their low 64 bits. Zero where it gave none.
pub fn timestamp_from(elapsed: Option<u128>) -> (stamp: Timestamp)
    ensures
        match elapsed {
            Some(micros) => stamp == micros % timestamp_limit(),
            None => stamp == 0,
        },
{
    match elapsed {
        Some(micros) => {
            let stamp = #[verifier::truncate]
            (micros as u64);
            assert(stamp == micros % 0x1_0000_0000_0000_0000) by (bit_vector)
                requires
                    stamp == micros as u64,
            ;
            stamp
        },
        None => 0,
    }
}

} // verus!
