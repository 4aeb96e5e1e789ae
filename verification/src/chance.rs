//! What nobody can foresee: the clock, and chance.
use crate::bytes::{be_bytes, put_u32_be};
use std::collections::hash_map::RandomState;
use std::hash::BuildHasher;
use std::time::SystemTime;
use vstd::prelude::*;

verus! {

/// A reading of the clock: whole seconds since the start of 1970, and the
/// nanoseconds beyond them. Nothing, where the clock stands before that.
pub type Reading = Option<(u64, u32)>;

/// Whether the clock can be read so. Which of these readings comes, and when, is
/// nobody's to say.
pub uninterp spec fn clock_may_show(reading: Option<(u64, u32)>) -> bool;

/// Whether chance can make `word` of these two numbers. Which of these words
/// comes is nobody's to say.
pub uninterp spec fn may_be_drawn(nanos: u64, salt: u64, word: u64) -> bool;

/// `SystemTime::duration_since` the start of 1970, on `SystemTime::now`. Claimed:
/// this is a reading of the clock, and there are fewer nanoseconds than a second
/// has. What the clock shows is left open.
#[verifier::external_body]
pub(crate) fn read_clock() -> (reading: Reading)
    ensures
        clock_may_show(reading),
        reading matches Some((_, nanos)) ==> nanos < 1_000_000_000,
{
    let since = SystemTime::now().duration_since(SystemTime::UNIX_EPOCH);
    since.ok().map(|span| (span.as_secs(), span.subsec_nanos()))
}

/// `BuildHasher::hash_one` with a `RandomState` of its own. Claimed: the word was
/// made of these two numbers. Which word it is is left open: each state is seeded
/// by chance.
#[verifier::external_body]
pub(crate) fn draw(nanos: u64, salt: u64) -> (word: u64)
    ensures
        may_be_drawn(nanos, salt, word),
{
    RandomState::new().hash_one((nanos, salt))
}

/// Whole seconds since the start of 1970, by this reading.
pub open spec fn seconds_of(reading: Reading) -> int {
    match reading {
        Some((seconds, _)) => seconds as int,
        None => 0,
    }
}

/// Whole milliseconds since the start of 1970, by this reading.
pub open spec fn millis_of(reading: Reading) -> int {
    match reading {
        Some((seconds, nanos)) => seconds * 1_000 + nanos as int / 1_000_000,
        None => 0,
    }
}

/// The low sixty-four bits of the nanoseconds since the start of 1970, by this
/// reading.
pub open spec fn nanos_of(reading: Reading) -> int {
    match reading {
        Some((seconds, nanos)) => (seconds * 1_000_000_000 + nanos) % 0x1_0000_0000_0000_0000,
        None => 0,
    }
}

/// Whole seconds since the start of 1970, by this reading.
pub fn seconds_by(reading: Reading) -> (seconds: u64)
    ensures
        seconds == seconds_of(reading),
{
    match reading {
        Some((seconds, _)) => seconds,
        None => 0,
    }
}

/// Whole milliseconds since the start of 1970, by this reading.
pub fn millis_by(reading: Reading) -> (millis: u128)
    ensures
        millis == millis_of(reading),
{
    match reading {
        Some((seconds, nanos)) => seconds as u128 * 1_000 + nanos as u128 / 1_000_000,
        None => 0,
    }
}

/// The low sixty-four bits of the nanoseconds since the start of 1970, by this
/// reading.
pub fn nanos_by(reading: Reading) -> (nanos: u64)
    ensures
        nanos == nanos_of(reading),
{
    match reading {
        Some((seconds, nanos)) => {
            let all: u128 = seconds as u128 * 1_000_000_000 + nanos as u128;
            (all % 0x1_0000_0000_0000_0000) as u64
        },
        None => 0,
    }
}

/// Whether it can be so many whole seconds since the start of 1970, by the clock.
pub open spec fn may_be_now(seconds: u64) -> bool {
    exists|reading: Reading| #[trigger]
        clock_may_show(reading) && seconds == seconds_of(reading)
}

/// Whether chance can make `word` of the clock and of `salt`.
pub open spec fn unforeseen(salt: u64, word: u64) -> bool {
    exists|reading: Reading| #[trigger]
        clock_may_show(reading) && may_be_drawn(nanos_of(reading) as u64, salt, word)
}

/// Whole milliseconds since the start of 1970, by the clock.
pub fn now_millis() -> (millis: u128)
    ensures
        exists|reading: Reading| #[trigger]
            clock_may_show(reading) && millis == millis_of(reading),
        millis <= u64::MAX * 1_000 + 999,
{
    let reading = read_clock();
    millis_by(reading)
}

/// Whole seconds since the start of 1970, by the clock.
pub fn now_seconds() -> (seconds: u64)
    ensures
        may_be_now(seconds),
{
    let reading = read_clock();
    seconds_by(reading)
}

/// A word that nobody can foresee, made of the clock and of `salt`.
pub fn random_word(salt: u64) -> (word: u64)
    ensures
        unforeseen(salt, word),
{
    let reading = read_clock();
    draw(nanos_by(reading), salt)
}

/// The transaction that three words make: four bytes of each, the highest first.
pub open spec fn transaction_of(a: u64, b: u64, c: u64) -> Seq<u8> {
    be_bytes(a as nat / 0x1_0000_0000, 4) + be_bytes(b as nat / 0x1_0000_0000, 4) + be_bytes(
        c as nat / 0x1_0000_0000,
        4,
    )
}

/// The transaction that three words make.
pub fn transaction_from(a: u64, b: u64, c: u64) -> (id: [u8; 12])
    ensures
        id@ == transaction_of(a, b, c),
{
    let mut bytes: Vec<u8> = Vec::new();
    put_u32_be(&mut bytes, (a / 0x1_0000_0000) as u32);
    put_u32_be(&mut bytes, (b / 0x1_0000_0000) as u32);
    put_u32_be(&mut bytes, (c / 0x1_0000_0000) as u32);
    proof {
        crate::bytes::lemma_be_bytes_len(a as nat / 0x1_0000_0000, 4);
        crate::bytes::lemma_be_bytes_len(b as nat / 0x1_0000_0000, 4);
        crate::bytes::lemma_be_bytes_len(c as nat / 0x1_0000_0000, 4);
    }
    let mut id: [u8; 12] = [0; 12];
    let mut at: usize = 0;
    while at < 12
        invariant
            at <= 12,
            bytes@.len() == 12,
            forall|i: int| 0 <= i < at ==> #[trigger] id@[i] == bytes@[i],
        decreases 12 - at,
    {
        id[at] = bytes[at];
        at += 1;
    }
    assert(id@ =~= bytes@);
    id
}

/// A transaction id. These only need to be unpredictable enough to match a reply
/// to its request.
pub fn random_transaction_id() -> (id: [u8; 12])
    ensures
        exists|reading: Reading, a: u64, b: u64, c: u64|
            #![trigger clock_may_show(reading), transaction_of(a, b, c)]
            {
                &&& clock_may_show(reading)
                &&& may_be_drawn(nanos_of(reading) as u64, 0, a)
                &&& may_be_drawn(nanos_of(reading) as u64, 1, b)
                &&& may_be_drawn(nanos_of(reading) as u64, 2, c)
                &&& id@ == transaction_of(a, b, c)
            },
{
    let reading = read_clock();
    let nanos = nanos_by(reading);
    let (a, b, c): (u64, u64, u64) = (draw(nanos, 0), draw(nanos, 1), draw(nanos, 2));
    assert(clock_may_show(reading));
    transaction_from(a, b, c)
}

/// A transaction is made of the upper four bytes of each of three words, the
/// highest first: whatever any of those bytes is, it is in the transaction.
pub proof fn a_transaction_keeps_the_upper_halves(a: u64, b: u64, c: u64)
    ensures
        transaction_of(a, b, c).len() == 12,
        crate::bytes::be_value(transaction_of(a, b, c).subrange(0, 4)) == a as nat / 0x1_0000_0000,
        crate::bytes::be_value(transaction_of(a, b, c).subrange(4, 8)) == b as nat / 0x1_0000_0000,
        crate::bytes::be_value(transaction_of(a, b, c).subrange(8, 12)) == c as nat / 0x1_0000_0000,
{
    let (x, y, z) = (
        a as nat / 0x1_0000_0000,
        b as nat / 0x1_0000_0000,
        c as nat / 0x1_0000_0000,
    );
    crate::bytes::lemma_byte_rooms();
    crate::bytes::lemma_be_bytes_len(x, 4);
    crate::bytes::lemma_be_bytes_len(y, 4);
    crate::bytes::lemma_be_bytes_len(z, 4);
    crate::bytes::lemma_be_round_trip(x, 4);
    crate::bytes::lemma_be_round_trip(y, 4);
    crate::bytes::lemma_be_round_trip(z, 4);
    let id = transaction_of(a, b, c);
    assert(id.subrange(0, 4) =~= be_bytes(x, 4));
    assert(id.subrange(4, 8) =~= be_bytes(y, 4));
    assert(id.subrange(8, 12) =~= be_bytes(z, 4));
}

/// Seconds, milliseconds and nanoseconds are those of one and the same instant,
/// each rounded down; before 1970 there are none.
pub proof fn all_readings_are_of_one_instant(seconds: u64, nanos: u32)
    requires
        nanos < 1_000_000_000,
    ensures
        ({
            let reading = Some((seconds, nanos));
            let all = seconds * 1_000_000_000 + nanos;
            &&& seconds_of(reading) == all / 1_000_000_000
            &&& millis_of(reading) == all / 1_000_000
            &&& seconds_of(reading) == millis_of(reading) / 1_000
            &&& all < 0x1_0000_0000_0000_0000 ==> nanos_of(reading) == all
            &&& (all - nanos_of(reading)) % 0x1_0000_0000_0000_0000 == 0
        }),
        seconds_of(None) == 0 && millis_of(None) == 0 && nanos_of(None) == 0,
{
    let all = seconds * 1_000_000_000 + nanos;
    assert(all / 1_000_000 == seconds * 1_000 + nanos as int / 1_000_000);
}

} // verus!
