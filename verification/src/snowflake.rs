//! Time-ordered unique identifiers.
//!
//! An identifier packs a millisecond timestamp, counted from [`EPOCH`], above
//! a twelve-bit sequence number that tells apart the identifiers issued
//! within one millisecond.

use std::time::{Duration, SystemTime, SystemTimeError, UNIX_EPOCH};
use vstd::prelude::*;

verus! {

/// A reading of the system clock, as std gives it.
#[verifier::external_type_specification]
#[verifier::external_body]
pub struct ExSystemTime(SystemTime);

/// The error of std for a reading of the clock that lies before the moment
/// it is measured from.
#[verifier::external_type_specification]
#[verifier::external_body]
pub struct ExSystemTimeError(SystemTimeError);

/// Calls `SystemTime::now`. Nothing is claimed of the reading.
#[verifier::external_body]
fn clock_reading() -> SystemTime {
    SystemTime::now()
}

/// Calls `SystemTime::duration_since` for the time from `UNIX_EPOCH` to
/// `reading`. Nothing is claimed of the result.
#[verifier::external_body]
fn since_unix_epoch(reading: &SystemTime) -> Result<Duration, SystemTimeError> {
    reading.duration_since(UNIX_EPOCH)
}

/// Calls `Duration::as_millis`. Nothing is claimed of the number.
#[verifier::external_body]
fn whole_milliseconds(span: &Duration) -> u128 {
    span.as_millis()
}

/// January 1, 2024, 00:00:00 UTC, in milliseconds since the Unix epoch.
pub const EPOCH: u128 = 1704067200000;

/// Number of low bits of an identifier that hold the sequence number.
pub const SEQUENCE_BITS: u32 = 12;

/// Largest sequence number within one millisecond.
pub const SEQUENCE_MASK: u128 = 0xfff;

/// Number of identifiers that one millisecond can hold.
pub const SEQUENCE_SPAN: u128 = 0x1000;

/// Latest millisecond whose offset from [`EPOCH`] still fits above the
/// sequence bits of a 128-bit identifier.
pub const MAX_TIMESTAMP: u128 = 0xfffff_ffffffff_ffffffff_ffffffff + 1704067200000;

/// The millisecond that an identifier was issued in.
pub open spec fn timestamp_of(id: u128) -> int {
    id as int / SEQUENCE_SPAN as int + EPOCH as int
}

/// The sequence number that an identifier carries.
pub open spec fn sequence_of(id: u128) -> int {
    id as int % SEQUENCE_SPAN as int
}

/// Whether a clock reading can be packed into an identifier.
pub open spec fn clock_in_range(now: u128) -> bool {
    EPOCH <= now <= MAX_TIMESTAMP
}

/// The identifier for sequence number `sequence` of millisecond `timestamp`.
pub open spec fn pack(timestamp: u128, sequence: u128) -> int {
    (timestamp - EPOCH) * SEQUENCE_SPAN as int + sequence
}

/// Why the generator issued no identifier.
#[derive(Debug, Clone, Copy, PartialEq, Eq, Structural)]
pub enum IdError {
    /// All sequence numbers of the current millisecond are used up; the
    /// caller has to wait until the clock advances.
    Exhausted,
    /// The clock reading lies before [`EPOCH`] or after [`MAX_TIMESTAMP`].
    ClockOutOfRange,
}

/// Generator state: the millisecond of the last identifier and its sequence
/// number. A generator that has issued nothing yet has both at zero.
#[derive(Debug)]
pub struct Snowflake {
    sequence: u128,
    last_timestamp: u128,
}

/// What one request does to a generator in state (`last`, `sequence`) when
/// the clock reads `now`: the new state, or the reason for refusing.
pub open spec fn step(last: u128, sequence: u128, now: u128) -> Result<(u128, u128), IdError> {
    if !clock_in_range(now) {
        Err(IdError::ClockOutOfRange)
    } else if now != last {
        Ok((now, 0u128))
    } else if sequence < SEQUENCE_MASK {
        Ok((now, (sequence + 1) as u128))
    } else {
        Err(IdError::Exhausted)
    }
}

/// Packing with shift and or is packing with multiplication and addition.
pub proof fn lemma_pack_is_shift_or(offset: u128, sequence: u128)
    requires
        offset <= 0xfffff_ffffffff_ffffffff_ffffffff,
        sequence <= SEQUENCE_MASK,
    ensures
        (offset << 12) | sequence == offset * SEQUENCE_SPAN + sequence,
        ((offset << 12) | sequence) >> 12 == offset,
{
    assert((offset << 12) | sequence == offset * 0x1000 + sequence) by (bit_vector)
        requires
            offset <= 0xfffff_ffffffff_ffffffff_ffffffffu128,
            sequence <= 0xfffu128,
    ;
    assert(((offset << 12) | sequence) >> 12 == offset) by (bit_vector)
        requires
            offset <= 0xfffff_ffffffff_ffffffff_ffffffffu128,
            sequence <= 0xfffu128,
    ;
    assert(offset * 0x1000 + sequence <= u128::MAX) by (nonlinear_arith)
        requires
            offset <= 0xfffff_ffffffff_ffffffff_ffffffffu128,
            sequence <= 0xfffu128,
    ;
}

impl Snowflake {
    /// Whether the state is one that a generator can be in.
    pub closed spec fn wf(&self) -> bool {
        &&& self.sequence <= SEQUENCE_MASK
        &&& self.last_timestamp == 0 ==> self.sequence == 0
        &&& self.last_timestamp != 0 ==> clock_in_range(self.last_timestamp)
    }

    #[verifier::type_invariant]
    spec fn inv(&self) -> bool {
        self.wf()
    }

    /// Millisecond of the last identifier issued, zero before the first.
    pub closed spec fn last_timestamp(&self) -> u128 {
        self.last_timestamp
    }

    /// Sequence number of the last identifier issued.
    pub closed spec fn sequence(&self) -> u128 {
        self.sequence
    }

    /// Whether the generator has issued an identifier.
    pub open spec fn has_issued(&self) -> bool {
        self.last_timestamp() != 0
    }

    /// The last identifier issued, meaningful once `has_issued` holds.
    pub open spec fn last_id(&self) -> int {
        pack(self.last_timestamp(), self.sequence())
    }

    /// A generator that has issued nothing.
    pub fn new() -> (g: Snowflake)
        ensures
            g.wf(),
            !g.has_issued(),
            g.last_timestamp() == 0,
            g.sequence() == 0,
    {
        Snowflake { sequence: 0, last_timestamp: 0 }
    }

    /// Issues the next identifier for a clock that reads `now`.
    ///
    /// A millisecond other than the last one starts a new sequence at zero;
    /// the same millisecond takes the next sequence number, and is refused
    /// once all of them are used. A refusal leaves the generator unchanged.
    pub fn issue(&mut self, now: u128) -> (r: Result<u128, IdError>)
        ensures
            final(self).wf(),
            match step(old(self).last_timestamp(), old(self).sequence(), now) {
                Ok((last, sequence)) => {
                    &&& r is Ok
                    &&& r->Ok_0 == pack(last, sequence)
                    &&& final(self).last_timestamp() == last
                    &&& final(self).sequence() == sequence
                },
                Err(e) => r == Err::<u128, IdError>(e) && *final(self) == *old(self),
            },
            r is Ok ==> final(self).has_issued() && r->Ok_0 == final(self).last_id()
                && timestamp_of(r->Ok_0) == now && sequence_of(r->Ok_0) == final(self).sequence(),
            r is Ok && old(self).has_issued() && now >= old(self).last_timestamp()
                ==> r->Ok_0 > old(self).last_id(),
    {
        proof {
            use_type_invariant(&*self);
        }
        if now < EPOCH || now > MAX_TIMESTAMP {
            return Err(IdError::ClockOutOfRange);
        }
        let sequence: u128 = if now != self.last_timestamp {
            0
        } else if self.sequence < SEQUENCE_MASK {
            self.sequence + 1
        } else {
            return Err(IdError::Exhausted);
        };
        let offset: u128 = now - EPOCH;
        proof {
            lemma_pack_is_shift_or(offset, sequence);
            lemma_pack_unpacks(now, sequence);
            if old(self).has_issued() && now >= old(self).last_timestamp() {
                lemma_pack_ordered(
                    old(self).last_timestamp(),
                    old(self).sequence(),
                    now,
                    sequence,
                );
            }
        }
        *self = Snowflake { sequence, last_timestamp: now };
        Ok((offset << SEQUENCE_BITS) | sequence)
    }

    /// The system clock in milliseconds since the Unix epoch. A clock that
    /// stands before the Unix epoch reads as zero, for which no identifier
    /// is issued.
    fn current_timestamp() -> u128 {
        match since_unix_epoch(&clock_reading()) {
            Ok(span) => whole_milliseconds(&span),
            Err(_) => 0,
        }
    }

    /// Issues the next identifier by the system clock.
    ///
    /// When the current millisecond has no sequence number left, the clock is
    /// polled up to [`SPIN_LIMIT`] times for the next millisecond before the
    /// request is refused as exhausted.
    pub fn next_id(&mut self) -> (r: Result<u128, IdError>)
        ensures
            final(self).wf(),
            r is Err ==> *final(self) == *old(self),
            r is Ok ==> {
                &&& final(self).has_issued()
                &&& r->Ok_0 == final(self).last_id()
                &&& timestamp_of(r->Ok_0) == final(self).last_timestamp()
                &&& step(
                    old(self).last_timestamp(),
                    old(self).sequence(),
                    final(self).last_timestamp(),
                ) == Ok::<(u128, u128), IdError>(
                    (final(self).last_timestamp(), final(self).sequence()),
                )
            },
            r is Ok && old(self).has_issued() && final(self).last_timestamp() >= old(
                self,
            ).last_timestamp() ==> r->Ok_0 > old(self).last_id(),
    {
        let first = self.issue(Self::current_timestamp());
        match first {
            Err(IdError::Exhausted) => {},
            _ => {
                return first;
            },
        }
        let mut polls: u32 = 0;
        while polls < SPIN_LIMIT
            invariant
                *self == *old(self),
                self.wf(),
            decreases SPIN_LIMIT - polls,
        {
            let now = Self::current_timestamp();
            proof {
                use_type_invariant(&*self);
            }
            if now != self.last_timestamp {
                return self.issue(now);
            }
            polls = polls + 1;
        }
        Err(IdError::Exhausted)
    }
}

/// How often `Snowflake::next_id` polls the clock for the next millisecond.
pub const SPIN_LIMIT: u32 = 10_000_000;

/// An identifier is taken apart into the millisecond and the sequence number
/// that it was packed from.
pub proof fn lemma_pack_unpacks(timestamp: u128, sequence: u128)
    requires
        clock_in_range(timestamp),
        sequence <= SEQUENCE_MASK,
    ensures
        0 <= pack(timestamp, sequence) <= u128::MAX,
        timestamp_of(pack(timestamp, sequence) as u128) == timestamp,
        sequence_of(pack(timestamp, sequence) as u128) == sequence,
{
    let offset = (timestamp - EPOCH) as int;
    assert(offset * 0x1000 + sequence <= u128::MAX && (offset * 0x1000 + sequence) / 0x1000
        == offset && (offset * 0x1000 + sequence) % 0x1000 == sequence) by (nonlinear_arith)
        requires
            0 <= offset <= 0xfffff_ffffffff_ffffffff_ffffffff,
            0 <= sequence <= 0xfff,
    ;
}

/// Identifiers are ordered as their (millisecond, sequence number) pairs are.
pub proof fn lemma_pack_ordered(t1: u128, s1: u128, t2: u128, s2: u128)
    requires
        clock_in_range(t1),
        clock_in_range(t2),
        s1 <= SEQUENCE_MASK,
        s2 <= SEQUENCE_MASK,
    ensures
        pack(t1, s1) < pack(t2, s2) <==> t1 < t2 || (t1 == t2 && s1 < s2),
        pack(t1, s1) == pack(t2, s2) <==> t1 == t2 && s1 == s2,
{
    let a = (t1 - EPOCH) as int;
    let b = (t2 - EPOCH) as int;
    assert(a < b ==> a * 0x1000 + 0x1000 <= b * 0x1000) by (nonlinear_arith);
    assert(b < a ==> b * 0x1000 + 0x1000 <= a * 0x1000) by (nonlinear_arith);
}

/// Issues the next identifier of `generator` by the system clock.
pub fn next(generator: &mut Snowflake) -> (r: Result<u128, IdError>)
    ensures
        final(generator).wf(),
        r is Err ==> *final(generator) == *old(generator),
        r is Ok ==> {
            &&& final(generator).has_issued()
            &&& r->Ok_0 == final(generator).last_id()
            &&& timestamp_of(r->Ok_0) == final(generator).last_timestamp()
        },
        r is Ok && old(generator).has_issued() && final(generator).last_timestamp() >= old(
            generator,
        ).last_timestamp() ==> r->Ok_0 > old(generator).last_id(),
{
    generator.next_id()
}

/// The millisecond, since the Unix epoch, that `snowflake` was issued in.
pub fn to_timestamp(snowflake: u128) -> (timestamp: u128)
    ensures
        timestamp == timestamp_of(snowflake),
{
    assert(snowflake >> 12 == snowflake / 0x1000 && (snowflake >> 12)
        <= 0xfffff_ffffffff_ffffffff_ffffffffu128) by (bit_vector);
    (snowflake >> SEQUENCE_BITS) + EPOCH
}


/// The state of a generator that started in state (`last`, `sequence`)
/// after one request for each of the clock readings `clocks`; a request
/// that is refused leaves the state as it is.
pub open spec fn state_after(last: u128, sequence: u128, clocks: Seq<u128>) -> (u128, u128)
    decreases clocks.len(),
{
    if clocks.len() == 0 {
        (last, sequence)
    } else {
        let prior = state_after(last, sequence, clocks.drop_last());
        match step(prior.0, prior.1, clocks.last()) {
            Ok(next) => next,
            Err(_) => prior,
        }
    }
}

/// The identifier that request number `i` of the requests `clocks` gets
/// from a generator that started in state (`last`, `sequence`).
pub open spec fn id_at(last: u128, sequence: u128, clocks: Seq<u128>, i: int) -> Option<int> {
    let prior = state_after(last, sequence, clocks.take(i));
    match step(prior.0, prior.1, clocks[i]) {
        Ok((millisecond, number)) => Some(pack(millisecond, number)),
        Err(_) => None,
    }
}

/// Whether no clock reading is less than one before it.
pub open spec fn never_turns_back(clocks: Seq<u128>) -> bool {
    forall|i: int, j: int| 0 <= i <= j < clocks.len() ==> clocks[i] <= clocks[j]
}

proof fn lemma_state_stays_above(
    last: u128,
    sequence: u128,
    clocks: Seq<u128>,
    i: int,
    m: int,
)
    requires
        never_turns_back(clocks),
        0 <= i < m <= clocks.len(),
        id_at(last, sequence, clocks, i) is Some,
    ensures
        clock_in_range(state_after(last, sequence, clocks.take(m)).0),
        state_after(last, sequence, clocks.take(m)).1 <= SEQUENCE_MASK,
        state_after(last, sequence, clocks.take(m)).0 <= clocks[m - 1],
        pack(
            state_after(last, sequence, clocks.take(m)).0,
            state_after(last, sequence, clocks.take(m)).1,
        ) >= id_at(last, sequence, clocks, i)->Some_0,
    decreases m - i,
{
    assert(clocks.take(m).drop_last() =~= clocks.take(m - 1));
    assert(clocks.take(m).last() == clocks[m - 1]);
    if m == i + 1 {
    } else {
        lemma_state_stays_above(last, sequence, clocks, i, m - 1);
        let prior = state_after(last, sequence, clocks.take(m - 1));
        match step(prior.0, prior.1, clocks[m - 1]) {
            Ok(next) => {
                lemma_pack_ordered(prior.0, prior.1, next.0, next.1);
            },
            Err(_) => {},
        }
    }
}

/// Whatever state a generator starts in: while the clock never turns back,
/// each identifier that it issues is greater than every one that it issued
/// before, so none is issued twice.
pub proof fn lemma_identifiers_increase(
    last: u128,
    sequence: u128,
    clocks: Seq<u128>,
    i: int,
    j: int,
)
    requires
        never_turns_back(clocks),
        0 <= i < j < clocks.len(),
        id_at(last, sequence, clocks, i) is Some,
        id_at(last, sequence, clocks, j) is Some,
    ensures
        id_at(last, sequence, clocks, i)->Some_0 < id_at(last, sequence, clocks, j)->Some_0,
{
    lemma_state_stays_above(last, sequence, clocks, i, j);
    let prior = state_after(last, sequence, clocks.take(j));
    let next = step(prior.0, prior.1, clocks[j])->Ok_0;
    lemma_pack_ordered(prior.0, prior.1, next.0, next.1);
}

/// An identifier that is issued holds the clock reading that it was issued
/// for.
pub proof fn lemma_identifier_holds_its_time(last: u128, sequence: u128, now: u128)
    requires
        sequence <= SEQUENCE_MASK,
        step(last, sequence, now) is Ok,
    ensures
        0 <= pack(step(last, sequence, now)->Ok_0.0, step(last, sequence, now)->Ok_0.1)
            <= u128::MAX,
        timestamp_of(
            pack(step(last, sequence, now)->Ok_0.0, step(last, sequence, now)->Ok_0.1) as u128,
        ) == now,
{
    let next = step(last, sequence, now)->Ok_0;
    lemma_pack_unpacks(next.0, next.1);
}

} // verus!
