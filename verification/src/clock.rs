//! The wall clock.

use vstd::prelude::*;

verus! {

/// Calls `std::time::SystemTime::elapsed` on the Unix epoch: how far the wall
/// clock is past the epoch, in whole milliseconds, or nothing where it is set
/// before it. The reading depends on the clock alone; all that is claimed of it
/// is that a span has at most `u64::MAX` seconds and less than one besides.
#[verifier::external_body]
fn since_epoch_ms() -> (r: Option<u128>)
    ensures
        r matches Some(ms) ==> ms <= u64::MAX * 1000 + 999,
{
    match std::time::UNIX_EPOCH.elapsed() {
        Ok(span) => Some(span.as_millis()),
        Err(_) => None,
    }
}

/// A reading of the clock in milliseconds as a timestamp: its low 64 bits, or 0
/// where the clock stands before the Unix epoch.
pub open spec fn timestamp(reading: Option<u128>) -> int {
    match reading {
        Some(ms) => ms as int % 0x1_0000_0000_0000_0000,
        None => 0,
    }
}

/// A reading of the clock in milliseconds as a timestamp.
pub fn epoch_ms(reading: Option<u128>) -> (r: u64)
    ensures
        r == timestamp(reading),
{
    match reading {
        Some(ms) => {
            assert(ms as u64 == ms % 0x1_0000_0000_0000_0000) by (bit_vector);
            #[verifier::truncate]
            (ms as u64)
        },
        None => 0,
    }
}

/// Whether the wall clock may show this: whole milliseconds since the Unix epoch,
/// or nothing where it stands before it.
pub closed spec fn clock_shows(reading: Option<u128>) -> bool {
    call_ensures(since_epoch_ms, (), reading)
}

/// Current time in milliseconds since the Unix epoch (for real entry creation):
/// the timestamp of what the clock shows, whatever that is.
pub fn now_ms() -> (r: u64)
    ensures
        exists|reading: Option<u128>| #[trigger] clock_shows(reading) && r == timestamp(reading),
{
    let reading = since_epoch_ms();
    assert(clock_shows(reading));
    epoch_ms(reading)
}

// ---------------------------------------------------------------------------
// Laws
// ---------------------------------------------------------------------------

/// A reading of the clock is the timestamp, as long as it fits; a clock before the
/// Unix epoch gives zero, and readings that differ by a whole turn of 64 bits give
/// the same.
pub proof fn law_readings_are_timestamps(reading: Option<u128>, r: u64)
    requires
        call_ensures(epoch_ms, (reading,), r),
    ensures
        reading is None ==> r == 0,
        reading matches Some(ms) ==> (ms <= u64::MAX ==> r == ms),
        reading matches Some(ms) ==> exists|turns: nat| ms == #[trigger] (turns * 0x1_0000_0000_0000_0000) + r,
{
    if let Some(ms) = reading {
        let turns = (ms as int / 0x1_0000_0000_0000_0000) as nat;
        assert(ms == turns * 0x1_0000_0000_0000_0000 + r);
    }
}

} // verus!
