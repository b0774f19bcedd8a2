//! Wall-clock time, as seconds and nanoseconds since the Unix epoch.

use vstd::prelude::*;

verus! {

/// The distance of the clock from the Unix epoch as whole seconds and the
/// nanoseconds past them, from `SystemTime::now().duration_since(UNIX_EPOCH)`:
/// `Ok` when the clock reads at or after the epoch, `Err` with how far
/// before it otherwise (`SystemTimeError::duration`). Trusted: the clock can
/// read anything, so which of the two comes back is left unstated; what is
/// stated is what `Duration::subsec_nanos` documents, that the nanoseconds
/// are below one second.
#[verifier::external_body]
pub(crate) fn now_since_epoch() -> (r: Result<(u64, u32), (u64, u32)>)
    ensures
        r matches Ok(t) ==> t.1 < 1_000_000_000,
        r matches Err(t) ==> t.1 < 1_000_000_000,
{
    match std::time::SystemTime::now().duration_since(std::time::UNIX_EPOCH) {
        Ok(d) => Ok((d.as_secs(), d.subsec_nanos())),
        Err(e) => Err((e.duration().as_secs(), e.duration().subsec_nanos())),
    }
}

/// Where the Unix epoch sits on the nanosecond scale of [`now_nanos`]:
/// 2^64 seconds, so that every clock reading, before the epoch as well as
/// after it, is a `u128` and readings differ by the time between them.
pub const EPOCH_NS: u128 = 18_446_744_073_709_551_616_000_000_000;

/// A clock reading `secs` seconds and `nanos` nanoseconds after the epoch
/// (`after`) or before it, on the nanosecond scale of [`now_nanos`].
pub open spec fn clock_ns(after: bool, secs: u64, nanos: u32) -> int {
    if after {
        EPOCH_NS + nanos_of(secs, nanos)
    } else {
        EPOCH_NS - nanos_of(secs, nanos)
    }
}

/// The microseconds in `secs` seconds and `nanos` nanoseconds, the
/// sub-microsecond part dropped, or `i64::MAX` when that does not fit.
pub open spec fn micros_of(secs: u64, nanos: u32) -> int {
    let v = secs * 1_000_000 + nanos / 1000;
    if v <= i64::MAX {
        v
    } else {
        i64::MAX as int
    }
}

/// The nanoseconds in `secs` seconds and `nanos` nanoseconds.
pub open spec fn nanos_of(secs: u64, nanos: u32) -> int {
    secs * 1_000_000_000 + nanos
}

/// Converts seconds and nanoseconds to whole microseconds, saturating.
pub fn micros_from(secs: u64, nanos: u32) -> (r: i64)
    ensures
        r == micros_of(secs, nanos),
{
    let v: u128 = secs as u128 * 1_000_000 + (nanos / 1000) as u128;
    if v <= 0x7fff_ffff_ffff_ffff {
        v as i64
    } else {
        0x7fff_ffff_ffff_ffff
    }
}

/// Converts seconds and nanoseconds to nanoseconds.
pub fn nanos_from(secs: u64, nanos: u32) -> (r: u128)
    ensures
        r == nanos_of(secs, nanos),
{
    secs as u128 * 1_000_000_000 + nanos as u128
}

/// The current time in microseconds since the Unix epoch: some reading of
/// the clock, as seconds and sub-second nanoseconds, converted by
/// `micros_of`; `None` when the clock is set before the epoch, where no
/// such time exists.
pub fn get_timestamp_micros() -> (r: Option<i64>)
    ensures
        r matches Some(v) ==> v >= 0
            && exists|secs: u64, nanos: u32| nanos < 1_000_000_000 && v == #[trigger] micros_of(secs, nanos),
{
    match now_since_epoch() {
        Ok((secs, nanos)) => {
            let v = micros_from(secs, nanos);
            assert(nanos < 1_000_000_000 && v == micros_of(secs, nanos));
            Some(v)
        },
        Err(_) => None,
    }
}

/// The current time in nanoseconds, with the Unix epoch at [`EPOCH_NS`]:
/// some reading of the clock, at or after the epoch or before it, placed by
/// `clock_ns`. The difference of two readings is the time between them,
/// also while the clock is set before the epoch.
pub fn now_nanos() -> (r: u128)
    ensures
        exists|after: bool, secs: u64, nanos: u32| nanos < 1_000_000_000 && r == #[trigger] clock_ns(after, secs, nanos),
{
    match now_since_epoch() {
        Ok((secs, nanos)) => {
            let d = nanos_from(secs, nanos);
            let r = EPOCH_NS + d;
            assert(nanos < 1_000_000_000 && r == clock_ns(true, secs, nanos));
            r
        },
        Err((secs, nanos)) => {
            let d = nanos_from(secs, nanos);
            let r = EPOCH_NS - d;
            assert(nanos < 1_000_000_000 && r == clock_ns(false, secs, nanos));
            r
        },
    }
}

} // verus!
