//! Time.
//!
//! The engine works on a [`Clock`]: a monotonic instant for deadlines and
//! recency, and the wall clock for absolute expiry times. [`SystemClock`] reads
//! both from the machine; every rule about time takes the reading as a value.

use vstd::prelude::*;

verus! {

/// A reading of both clocks.
#[derive(Debug, Clone, Copy, PartialEq, Eq, Structural)]
pub struct Clock {
    /// Nanoseconds on the monotonic clock, from an arbitrary origin.
    pub mono_ns: u64,
    /// Wall-clock time in milliseconds since the Unix epoch.
    pub epoch_ms: i64,
}

/// An opaque point on the machine's monotonic clock.
#[verifier::external_type_specification]
#[verifier::external_body]
pub struct ExInstant(std::time::Instant);

/// `Instant::now`: the present instant. Nothing is promised of its value.
#[verifier::external_body]
fn instant_now() -> (now: std::time::Instant) {
    std::time::Instant::now()
}

/// `Instant::elapsed` in nanoseconds. The value depends on when the call is
/// made, so nothing is promised of it.
#[verifier::external_body]
fn elapsed_ns(origin: &std::time::Instant) -> (ns: u128) {
    origin.elapsed().as_nanos()
}

/// `SystemTime::now` as nanoseconds since the Unix epoch, or `None` when the
/// machine's clock stands before the epoch. Nothing is promised of its value.
#[verifier::external_body]
fn unix_ns() -> (ns: Option<u128>) {
    std::time::SystemTime::now().duration_since(std::time::UNIX_EPOCH).ok().map(|d| d.as_nanos())
}

/// Milliseconds since the epoch for a reading of the wall clock; zero when the
/// clock stands before the epoch.
pub open spec fn epoch_ms_of(unix: Option<u128>) -> i64 {
    match unix {
        Some(ns) if ns / 1_000_000 <= i64::MAX => (ns / 1_000_000) as i64,
        Some(_) => i64::MAX,
        None => 0,
    }
}

/// Converts a reading of the wall clock to milliseconds.
pub fn epoch_ms_from(unix: Option<u128>) -> (ms: i64)
    ensures
        ms == epoch_ms_of(unix),
        ms >= 0,
{
    match unix {
        Some(ns) => {
            let ms: u128 = ns / 1_000_000;
            if ms <= 0x7fff_ffff_ffff_ffff {
                ms as i64
            } else {
                i64::MAX
            }
        },
        None => 0,
    }
}

/// The present wall-clock time in milliseconds since the Unix epoch, as
/// [`epoch_ms_from`] has it: any value that is not negative.
pub fn current_epoch_ms() -> (ms: i64)
    ensures
        ms >= 0,
{
    epoch_ms_from(unix_ns())
}

/// The reading that belongs to the nanoseconds since the monotonic clock was
/// started, held at `u64::MAX`, and to a reading of the wall clock.
pub open spec fn clock_of(elapsed: u128, unix: Option<u128>) -> Clock {
    Clock {
        mono_ns: if elapsed <= u64::MAX {
            elapsed as u64
        } else {
            u64::MAX
        },
        epoch_ms: epoch_ms_of(unix),
    }
}

/// Converts what the machine's two clocks say to one reading.
pub fn clock_from(elapsed: u128, unix: Option<u128>) -> (now: Clock)
    ensures
        now == clock_of(elapsed, unix),
        now.epoch_ms >= 0,
{
    let mono_ns: u64 = if elapsed <= 0xffff_ffff_ffff_ffff {
        elapsed as u64
    } else {
        u64::MAX
    };
    Clock { mono_ns, epoch_ms: epoch_ms_from(unix) }
}

/// A source of clock readings that starts its monotonic clock at zero.
pub struct SystemClock {
    origin: std::time::Instant,
}

impl SystemClock {
    /// Starts the clock. Its origin is the present instant, of which nothing can
    /// be promised.
    pub fn new() -> (clock: SystemClock) {
        SystemClock { origin: instant_now() }
    }

    /// Reads both clocks. What they say depends on when the call is made, and
    /// [`clock_from`] makes the reading of it; the wall-clock part is never
    /// negative.
    pub fn read(&self) -> (now: Clock)
        ensures
            now.epoch_ms >= 0,
    {
        clock_from(elapsed_ns(&self.origin), unix_ns())
    }
}

/// The minute bucket of a wall-clock time in milliseconds, wrapped to 16 bits.
/// A time before the epoch counts as the epoch.
pub open spec fn minute_of(epoch_ms: i64) -> u16 {
    if epoch_ms < 0 {
        0
    } else {
        ((epoch_ms / 60_000) % 0x1_0000) as u16
    }
}

/// The minute bucket of a wall-clock time. Wrapping is harmless because only
/// the difference of two nearby buckets matters.
pub fn minute_stamp(epoch_ms: i64) -> (minute: u16)
    ensures
        minute == minute_of(epoch_ms),
{
    if epoch_ms < 0 {
        0
    } else {
        ((epoch_ms / 60_000) % 0x1_0000) as u16
    }
}

/// The present minute bucket.
pub fn current_minute_stamp() -> (minute: u16)
    ensures
        exists|ms: i64| ms >= 0 && minute == #[trigger] minute_of(ms),
{
    minute_stamp(current_epoch_ms())
}

/// The generator seed that belongs to a nanosecond count.
pub open spec fn seed_of(ns: u64) -> u32 {
    ((ns as u32) ^ 0xDEAD_BEEFu32) | 1u32
}

/// Derives a generator seed from a nanosecond count. The seed is odd, hence
/// never the generator's fixed point zero.
pub fn seed_from(ns: u64) -> (seed: u32)
    ensures
        seed == seed_of(ns),
        seed != 0,
{
    let seed: u32 = ((ns as u32) ^ 0xDEAD_BEEFu32) | 1u32;
    let mixed: u32 = (ns as u32) ^ 0xDEAD_BEEFu32;
    assert(mixed | 1u32 != 0) by (bit_vector);
    seed
}

/// A seed drawn from the wall clock.
pub fn rng_seed() -> (seed: u32)
    ensures
        exists|ns: u64| seed == #[trigger] seed_of(ns),
        seed != 0,
{
    let ns: u64 = match unix_ns() {
        Some(ns) => (ns % 0x1_0000_0000_0000_0000) as u64,
        None => 0x9E37_79B9_7F4A_7C15,
    };
    seed_from(ns)
}

/// One step of the xorshift32 generator.
pub open spec fn xorshift(state: u32) -> u32 {
    let a = state ^ (state << 13u32);
    let b = a ^ (a >> 17u32);
    b ^ (b << 5u32)
}

/// Advances an xorshift32 state by one step.
pub fn xorshift32(state: u32) -> (next: u32)
    ensures
        next == xorshift(state),
{
    let a: u32 = state ^ (state << 13u32);
    let b: u32 = a ^ (a >> 17u32);
    b ^ (b << 5u32)
}

/// The generator never falls into its fixed point: a non-zero state stays
/// non-zero for ever.
pub proof fn law_xorshift_stays_nonzero(state: u32)
    requires
        state != 0,
    ensures
        xorshift(state) != 0,
{
    let a = state ^ (state << 13u32);
    let b = a ^ (a >> 17u32);
    assert(state != 0 ==> (state ^ (state << 13u32)) != 0) by (bit_vector);
    assert(a != 0 ==> (a ^ (a >> 17u32)) != 0) by (bit_vector);
    assert(b != 0 ==> (b ^ (b << 5u32)) != 0) by (bit_vector);
}

/// A reading holds the nanoseconds since the start and the whole milliseconds since the
/// epoch; what does not fit is held at the largest value, and a time before the epoch
/// counts as the epoch.
pub proof fn law_reading(elapsed: u128, unix: Option<u128>)
    ensures
        ({
            let now = clock_of(elapsed, unix);
            &&& elapsed <= 0xffff_ffff_ffff_ffff ==> now.mono_ns == elapsed
            &&& elapsed > 0xffff_ffff_ffff_ffff ==> now.mono_ns == 0xffff_ffff_ffff_ffff
            &&& unix is None ==> now.epoch_ms == 0
            &&& unix matches Some(ns) ==> 1_000_000 * now.epoch_ms <= ns && (ns < 1_000_000 * (
            now.epoch_ms + 1) || now.epoch_ms == 0x7fff_ffff_ffff_ffff)
        }),
{
}

/// A step of the generator is linear in the bits of the state, and takes the lowest bit
/// to the bits 0, 5, 13 and 18.
pub proof fn law_generator_step(a: u32, b: u32)
    ensures
        xorshift(a ^ b) == xorshift(a) ^ xorshift(b),
        xorshift(1) == 270_369,
{
    let x = a ^ (a << 13u32);
    let y = b ^ (b << 13u32);
    assert((a ^ b) ^ ((a ^ b) << 13u32) == (a ^ (a << 13u32)) ^ (b ^ (b << 13u32)))
        by (bit_vector);
    let v = x ^ (x >> 17u32);
    let w = y ^ (y >> 17u32);
    assert((x ^ y) ^ ((x ^ y) >> 17u32) == (x ^ (x >> 17u32)) ^ (y ^ (y >> 17u32)))
        by (bit_vector);
    assert((v ^ w) ^ ((v ^ w) << 5u32) == (v ^ (v << 5u32)) ^ (w ^ (w << 5u32)))
        by (bit_vector);
    assert(1u32 ^ (1u32 << 13u32) == 8193u32) by (bit_vector);
    assert(8193u32 ^ (8193u32 >> 17u32) == 8193u32) by (bit_vector);
    assert(8193u32 ^ (8193u32 << 5u32) == 270_369u32) by (bit_vector);
}

} // verus!
