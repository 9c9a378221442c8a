//! The identifier generator and its two shared counters.
use crate::clock::unix_millis;
use crate::clock::ClockError;
use crate::encoding::encode_url_safe;
use crate::encoding::url_safe_text;
use crate::layout::identifier_bytes;
use crate::layout::pack;
use crate::seed::chosen_address;
use crate::seed::get_non_loopback_address;
use crate::seed::NetInterface;
use crate::seed::SeedError;
use std::sync::atomic::AtomicU64;
use std::sync::atomic::Ordering;
use vstd::prelude::*;
use vstd::std_specs::cmp::PartialEqSpecImpl;

verus! {

/// The timestamp that an identifier carries: the clock reading, unless the
/// watermark was already ahead of it.
pub open spec fn effective_time(previous: u64, now_ms: u64) -> u64 {
    if previous >= now_ms {
        previous
    } else {
        now_ms
    }
}

/// The text of the identifier with the given timestamp, seed and sequence number.
pub open spec fn identifier_text(time: u64, seed: Seq<u8>, sequence: u64) -> Seq<char> {
    url_safe_text(identifier_bytes(time, seed, sequence))
}

/// `id` is an identifier that a generator with this seed may hand out when the
/// clock reads `now_ms`: its timestamp is `now_ms` or a watermark above it, and
/// its sequence number is whatever the counter held.
pub open spec fn issued_at(id: Seq<char>, seed: Seq<u8>, now_ms: u64) -> bool {
    exists|previous: u64, sequence: u64|
        id == #[trigger] identifier_text(effective_time(previous, now_ms), seed, sequence)
}

/// `id` is an identifier that a generator with this seed may hand out at some
/// reading of the clock.
pub open spec fn issued(id: Seq<char>, seed: Seq<u8>) -> bool {
    exists|now_ms: u64| issued_at(id, seed, now_ms)
}

/// Two generators count as equal when their seeds are equal and their sequence
/// counters hold the same value.
pub open spec fn same_state(
    seed_a: Seq<u8>,
    sequence_a: u64,
    seed_b: Seq<u8>,
    sequence_b: u64,
) -> bool {
    seed_a == seed_b && sequence_a == sequence_b
}

/// Builds the identifier from the counters' values as one call saw them:
/// `previous` is the watermark before the call, `now_ms` the clock reading and
/// `sequence` the sequence counter before its increment.
pub fn compose(seed: [u8; 6], previous: u64, now_ms: u64, sequence: u64) -> (id: String)
    ensures
        id@ == identifier_text(effective_time(previous, now_ms), seed@, sequence),
{
    let time = if previous >= now_ms {
        previous
    } else {
        now_ms
    };
    let flake_id = pack(time, seed, sequence);
    encode_url_safe(flake_id.as_slice())
}

/// Decides the equality of two generators from their seeds and the values read
/// from their sequence counters.
pub fn equal_state(seed_a: &[u8; 6], sequence_a: u64, seed_b: &[u8; 6], sequence_b: u64) -> (same:
    bool)
    ensures
        same == same_state(seed_a@, sequence_a, seed_b@, sequence_b),
{
    let mut i: usize = 0;
    while i < 6
        invariant
            i <= 6,
            forall|k: int| 0 <= k < i ==> seed_a@[k] == seed_b@[k],
        decreases 6 - i,
    {
        if seed_a[i] != seed_b[i] {
            return false;
        }
        i = i + 1;
    }
    assert(seed_a@ =~= seed_b@);
    sequence_a == sequence_b
}

/// A source of unique, time-ordered identifiers. Any number of threads may share
/// one generator.
#[derive(Debug)]
pub struct Generator {
    seed: [u8; 6],
    sequence: AtomicU64,
    timestamp: AtomicU64,
}

/// What a source of identifiers offers.
pub trait SnowFlaker: Sized {
    /// The six bytes that set this generator's identifiers apart from those of
    /// other generators.
    spec fn seed(&self) -> Seq<u8>;

    /// A generator seeded with the hardware address of the first of `interfaces`
    /// that is up and not a loopback interface.
    fn new(interfaces: &[NetInterface]) -> (made: Result<Self, SeedError>)
        ensures
            match made {
                Ok(generator) => chosen_address(interfaces@) == Ok::<Seq<u8>, SeedError>(
                    generator.seed(),
                ),
                Err(e) => chosen_address(interfaces@) == Err::<Seq<u8>, SeedError>(e),
            },
    ;

    /// A generator with the given seed.
    fn with_seed(seed: [u8; 6]) -> (made: Self)
        ensures
            made.seed() == seed@,
    ;

    /// The next identifier, stamped with the current time.
    fn generate(&self) -> (out: Result<String, ClockError>)
        ensures
            match out {
                Ok(id) => issued(id@, self.seed()),
                Err(e) => e == ClockError::BeforeEpoch,
            },
    ;
}

impl Generator {
    /// A generator with the given seed whose watermark and sequence counter start
    /// at the given values.
    pub fn with_counters(seed: [u8; 6], timestamp: u64, sequence: u64) -> (made: Generator)
        ensures
            made.seed() == seed@,
    {
        Generator { seed, sequence: AtomicU64::new(sequence), timestamp: AtomicU64::new(timestamp) }
    }

    /// The next identifier for a clock that reads `now_ms` milliseconds since the
    /// epoch. Raises the watermark to `now_ms` if it was below, and advances the
    /// sequence counter by one.
    pub fn generate_at(&self, now_ms: u64) -> (id: String)
        ensures
            issued_at(id@, self.seed(), now_ms),
    {
        let previous = self.timestamp.fetch_max(now_ms, Ordering::Relaxed);
        let sequence = self.sequence.fetch_add(1, Ordering::SeqCst);
        compose(self.seed, previous, now_ms, sequence)
    }
}

impl SnowFlaker for Generator {
    closed spec fn seed(&self) -> Seq<u8> {
        self.seed@
    }

    fn new(interfaces: &[NetInterface]) -> (made: Result<Generator, SeedError>) {
        match get_non_loopback_address(interfaces) {
            Ok(seed) => Ok(Generator::with_seed(seed)),
            Err(e) => Err(e),
        }
    }

    fn with_seed(seed: [u8; 6]) -> (made: Generator) {
        Generator::with_counters(seed, 0, 0)
    }

    fn generate(&self) -> (out: Result<String, ClockError>) {
        let read = unix_millis();
        let out = self.generate_with(read);
        proof {
            if let Ok(now_ms) = read {
                assert(issued_at(out->Ok_0@, self.seed(), now_ms));
            }
        }
        out
    }
}

impl Generator {
    /// The next identifier, given what the clock read: an identifier for that
    /// reading where the clock could be read, else the clock's error, in which
    /// case neither counter is touched.
    pub fn generate_with(&self, read: Result<u64, ClockError>) -> (out: Result<String, ClockError>)
        ensures
            match read {
                Ok(now_ms) => out is Ok && issued_at(out->Ok_0@, self.seed(), now_ms),
                Err(e) => out == Err::<String, ClockError>(e),
            },
    {
        match read {
            Ok(now_ms) => Ok(self.generate_at(now_ms)),
            Err(e) => Err(e),
        }
    }
}

impl PartialEq for Generator {
    /// Compares the seeds and the sequence counters as they stand at the call.
    fn eq(&self, other: &Generator) -> (same: bool) {
        equal_state(
            &self.seed,
            self.sequence.load(Ordering::SeqCst),
            &other.seed,
            other.sequence.load(Ordering::SeqCst),
        )
    }
}

/// `==` reads two shared counters that other threads may advance at any moment,
/// so its result is not a function of the two generators as a contract sees
/// them: nothing is promised of the operator. [`equal_state`] says what it
/// returns for the values it read.
impl PartialEqSpecImpl for Generator {
    open spec fn obeys_eq_spec() -> bool {
        false
    }

    open spec fn eq_spec(&self, other: &Generator) -> bool {
        self.seed() == other.seed()
    }
}

} // verus!
