//! The record stored for each key.

use vstd::prelude::*;

use crate::clock::{minute_of, minute_stamp, Clock};
use crate::storage::eviction::{
    advances, decayed, decayed_counter, law_counter_grows_slowly, probabilistic_increment,
    LFU_INIT_VAL,
};

verus! {

/// Minutes for which an idle key keeps one unit of its access counter.
pub const LFU_DECAY_MINUTES: u16 = 1;

/// A value with its expiry deadline and its access history.
///
/// Instants are nanoseconds on the engine's monotonic clock. A value whose
/// deadline is not after the present is expired and counts as absent.
#[derive(Debug, Clone)]
pub struct ValueEntry {
    pub data: Vec<u8>,
    pub expire_at: Option<u128>,
    pub last_access: u128,
    pub lfu_counter: u8,
    pub lfu_decay_minute: u16,
}

/// The mathematical content of a [`ValueEntry`].
#[verifier::ext_equal]
pub struct EntryView {
    pub data: Seq<u8>,
    pub expire_at: Option<u128>,
    pub last_access: u128,
    pub lfu_counter: u8,
    pub lfu_decay_minute: u16,
}

impl View for ValueEntry {
    type V = EntryView;

    open spec fn view(&self) -> EntryView {
        EntryView {
            data: self.data@,
            expire_at: self.expire_at,
            last_access: self.last_access,
            lfu_counter: self.lfu_counter,
            lfu_decay_minute: self.lfu_decay_minute,
        }
    }
}

impl EntryView {
    /// Whether the deadline has been reached at `now`.
    pub open spec fn expired(self, now: u128) -> bool {
        self.expire_at matches Some(deadline) && deadline <= now
    }

    /// A fresh entry.
    pub open spec fn fresh(data: Seq<u8>, expire_at: Option<u128>, now: Clock) -> EntryView {
        EntryView {
            data,
            expire_at,
            last_access: now.mono_ns as u128,
            lfu_counter: LFU_INIT_VAL,
            lfu_decay_minute: minute_of(now.epoch_ms),
        }
    }

    /// The access counter after an access at `now`: decayed for the idle time,
    /// then advanced if the draw says so.
    pub open spec fn counter_after_access(self, now: Clock, draw: u32) -> u8 {
        let idle = decayed(
            self.lfu_counter,
            self.lfu_decay_minute,
            minute_of(now.epoch_ms),
            LFU_DECAY_MINUTES,
        );
        if advances(idle, draw) {
            (idle + 1) as u8
        } else {
            idle
        }
    }

    /// The entry after an access at `now`.
    pub open spec fn touched(self, now: Clock, draw: u32) -> EntryView {
        EntryView {
            last_access: now.mono_ns as u128,
            lfu_counter: self.counter_after_access(now, draw),
            lfu_decay_minute: minute_of(now.epoch_ms),
            ..self
        }
    }
}

impl ValueEntry {
    /// A fresh entry without a deadline.
    pub fn new(data: Vec<u8>, now: Clock) -> (entry: ValueEntry)
        ensures
            entry@ == EntryView::fresh(data@, None, now),
    {
        ValueEntry::new_with(data, None, now)
    }

    /// A fresh entry that keeps a deadline. The counter starts a little above
    /// zero so that new keys get a chance to be accessed again.
    pub fn new_with(data: Vec<u8>, expire_at: Option<u128>, now: Clock) -> (entry: ValueEntry)
        ensures
            entry@ == EntryView::fresh(data@, expire_at, now),
    {
        ValueEntry {
            data,
            expire_at,
            last_access: now.mono_ns as u128,
            lfu_counter: LFU_INIT_VAL,
            lfu_decay_minute: minute_stamp(now.epoch_ms),
        }
    }

    /// Whether the deadline has been reached.
    pub fn is_expired(&self, now: u128) -> (expired: bool)
        ensures
            expired == self@.expired(now),
    {
        match self.expire_at {
            Some(deadline) => deadline <= now,
            None => false,
        }
    }

    /// Marks the entry as accessed. `draw` is uniform below 2^24 and decides
    /// whether the access counter advances.
    pub fn touch(&mut self, now: Clock, draw: u32)
        ensures
            final(self)@ == old(self)@.touched(now, draw),
    {
        let minute: u16 = minute_stamp(now.epoch_ms);
        let idle: u8 = decayed_counter(
            self.lfu_counter,
            self.lfu_decay_minute,
            minute,
            LFU_DECAY_MINUTES,
        );
        self.last_access = now.mono_ns as u128;
        self.lfu_counter = probabilistic_increment(idle, draw);
        self.lfu_decay_minute = minute;
    }
}

/// The payload of an entry unless it has expired.
pub fn live_payload(entry: ValueEntry, now: u128) -> (payload: Option<Vec<u8>>)
    ensures
        match payload {
            Some(data) => !entry@.expired(now) && data@ == entry@.data,
            None => entry@.expired(now),
        },
{
    if entry.is_expired(now) {
        None
    } else {
        Some(entry.data)
    }
}

/// A new entry holds what it was given, was accessed just now and counts five accesses.
pub proof fn law_fresh_entry(data: Seq<u8>, expire_at: Option<u128>, now: Clock)
    ensures
        ({
            let e = EntryView::fresh(data, expire_at, now);
            &&& e.data == data
            &&& e.expire_at == expire_at
            &&& e.last_access == now.mono_ns
            &&& e.lfu_counter == 5
        }),
{
}

/// An access at a later time takes one from the counter for each minute since the last,
/// down to zero, and then adds one if the draw is lucky. It is the last access from then
/// on; value and deadline stay.
pub proof fn law_access(e: EntryView, sooner: Clock, later: Clock, first: u32, draw: u32)
    requires
        0 <= sooner.epoch_ms <= later.epoch_ms,
        later.epoch_ms / 60_000 - sooner.epoch_ms / 60_000 < 65_536,
        draw < 16_777_216,
    ensures
        ({
            let a = e.touched(sooner, first);
            let b = a.touched(later, draw);
            let minutes = later.epoch_ms / 60_000 - sooner.epoch_ms / 60_000;
            let worn = if minutes >= a.lfu_counter {
                0
            } else {
                a.lfu_counter - minutes
            };
            &&& b.last_access == later.mono_ns
            &&& b.data == e.data
            &&& b.expire_at == e.expire_at
            &&& b.lfu_counter == worn || b.lfu_counter == worn + 1
            &&& worn <= 5 ==> b.lfu_counter == worn + 1
            &&& worn == 255 ==> b.lfu_counter == worn
            &&& 5 < worn < 255 ==> (b.lfu_counter == worn + 1 <==> draw * (10 * (worn - 5) + 1)
                < 16_777_216)
        }),
{
    let a = e.touched(sooner, first);
    let minutes = later.epoch_ms / 60_000 - sooner.epoch_ms / 60_000;
    let x = sooner.epoch_ms / 60_000;
    let y = later.epoch_ms / 60_000;
    assert((y % 65_536 - x % 65_536) % 65_536 == y - x);
    let worn = if minutes >= a.lfu_counter {
        0
    } else {
        a.lfu_counter - minutes
    };
    law_counter_grows_slowly(worn as u8, draw);
}

} // verus!
