//! A generator's two counters as one call after another finds them, and what
//! follows for the identifiers that the calls hand out.
//!
//! Every call raises the watermark to the clock reading it made, if that is
//! higher, and adds one to the sequence counter. Each of the two steps is a
//! single atomic operation on its counter, so the calls on one generator,
//! from however many threads, take effect on each counter in one order. The
//! functions here describe a generator by the clock readings of its calls in
//! that order.
use crate::encoding::alphabet_ascends;
use crate::encoding::lemma_text_injective;
use crate::encoding::lemma_text_order;
use crate::generator::effective_time;
use crate::generator::identifier_text;
use crate::generator::same_state;
use crate::layout::be_bytes;
use crate::layout::identifier_bytes;
use crate::layout::lemma_be_bytes_equal;
use crate::layout::lemma_identifier_equal;
use crate::layout::lemma_identifier_order;
use crate::layout::lemma_identifier_value;
use crate::layout::lemma_pow256_values;
use crate::layout::sequence_field;
use crate::layout::time_field;
use crate::order::text_less;
use vstd::prelude::*;

verus! {

/// The values that the two counters of a generator hold between calls.
pub struct Counters {
    /// The highest clock reading of any call so far.
    pub watermark: u64,
    /// The number of calls so far, counted in 64 bits.
    pub sequence: u64,
}

/// The counters of a generator that has not been called.
pub open spec fn fresh() -> Counters {
    Counters { watermark: 0, sequence: 0 }
}

/// The counters after one call that read `now_ms` from the clock. The sequence
/// counter starts again from zero after its highest value.
pub open spec fn after_call(before: Counters, now_ms: u64) -> Counters {
    Counters {
        watermark: effective_time(before.watermark, now_ms),
        sequence: if before.sequence == u64::MAX {
            0
        } else {
            (before.sequence + 1) as u64
        },
    }
}

/// The counters as call number `n` (counted from zero) finds them: `start`
/// after the `n` calls before it, which read `clock[0]`, `clock[1]`, ...
pub open spec fn counters_before(start: Counters, clock: Seq<u64>, n: nat) -> Counters
    decreases n,
{
    if n == 0 {
        start
    } else {
        after_call(counters_before(start, clock, (n - 1) as nat), clock[n - 1])
    }
}

/// The timestamp of the identifier that call number `n` hands out.
pub open spec fn nth_time(start: Counters, clock: Seq<u64>, n: nat) -> u64 {
    effective_time(counters_before(start, clock, n).watermark, clock[n as int])
}

/// The sequence number of the identifier that call number `n` hands out.
pub open spec fn nth_sequence(start: Counters, clock: Seq<u64>, n: nat) -> u64 {
    counters_before(start, clock, n).sequence
}

/// The bytes of the identifier that call number `n` hands out.
pub open spec fn nth_bytes(seed: Seq<u8>, start: Counters, clock: Seq<u64>, n: nat) -> Seq<u8> {
    identifier_bytes(nth_time(start, clock, n), seed, nth_sequence(start, clock, n))
}

/// The identifier that call number `n` hands out.
pub open spec fn nth_identifier(seed: Seq<u8>, start: Counters, clock: Seq<u64>, n: nat) -> Seq<
    char,
> {
    identifier_text(nth_time(start, clock, n), seed, nth_sequence(start, clock, n))
}

/// The sequence counter counts the calls, modulo `2^64`.
pub proof fn lemma_sequence_counts_calls(start: Counters, clock: Seq<u64>, n: nat)
    ensures
        nth_sequence(start, clock, n) == (start.sequence + n) % 0x1_0000_0000_0000_0000,
        sequence_field(nth_sequence(start, clock, n)) == (start.sequence + n) % 0x100_0000,
    decreases n,
{
    if n > 0 {
        lemma_sequence_counts_calls(start, clock, (n - 1) as nat);
    }
    let x = start.sequence + n;
    assert((x % 0x1_0000_0000_0000_0000) % 0x100_0000 == x % 0x100_0000) by {
        vstd::arithmetic::div_mod::lemma_mod_mod(x as int, 0x100_0000, 0x100_0000_0000);
    }
}

/// The watermark is a ratchet: no call finds it lower than an earlier call did,
/// and no identifier carries an earlier time than one handed out before it.
pub proof fn lemma_time_never_decreases(start: Counters, clock: Seq<u64>, i: nat, j: nat)
    requires
        i <= j,
    ensures
        counters_before(start, clock, i).watermark <= counters_before(start, clock, j).watermark,
        i < j ==> nth_time(start, clock, i) <= counters_before(start, clock, j).watermark,
        nth_time(start, clock, i) <= nth_time(start, clock, j),
    decreases j,
{
    if i < j {
        lemma_time_never_decreases(start, clock, i, (j - 1) as nat);
    }
}

/// Distinct sequence fields: two calls on one generator embed the same sequence
/// field only when a multiple of `2^24` calls lies between them. Among any
/// `2^24` calls in a row, whichever threads made them, no two embed the same
/// field.
pub proof fn lemma_sequence_fields(start: Counters, clock: Seq<u64>, i: nat, j: nat)
    requires
        i < j,
    ensures
        be_bytes(nth_sequence(start, clock, i), 3) == be_bytes(nth_sequence(start, clock, j), 3)
            <==> (j - i) % 0x100_0000 == 0,
        j - i < 0x100_0000 ==> be_bytes(nth_sequence(start, clock, i), 3) != be_bytes(
            nth_sequence(start, clock, j),
            3,
        ),
{
    lemma_pow256_values();
    lemma_sequence_counts_calls(start, clock, i);
    lemma_sequence_counts_calls(start, clock, j);
    lemma_be_bytes_equal(nth_sequence(start, clock, i), nth_sequence(start, clock, j), 3);
    lemma_same_residue(start.sequence as int, i as int, j as int);
}

proof fn lemma_same_residue(s: int, i: int, j: int)
    requires
        0 <= s,
        0 <= i < j,
    ensures
        (s + i) % 0x100_0000 == (s + j) % 0x100_0000 <==> (j - i) % 0x100_0000 == 0,
{
}

/// Uniqueness: two calls on one generator hand out the same identifier only
/// when a multiple of `2^24` calls lies between them and both carry the same
/// timestamp field. Calls fewer than `2^24` apart never do.
pub proof fn lemma_identifiers_unique(
    seed: Seq<u8>,
    start: Counters,
    clock: Seq<u64>,
    i: nat,
    j: nat,
)
    requires
        seed.len() == 6,
        i < j,
    ensures
        nth_identifier(seed, start, clock, i) == nth_identifier(seed, start, clock, j) <==> (j - i)
            % 0x100_0000 == 0 && time_field(nth_time(start, clock, i)) == time_field(
            nth_time(start, clock, j),
        ),
        j - i < 0x100_0000 ==> nth_identifier(seed, start, clock, i) != nth_identifier(
            seed,
            start,
            clock,
            j,
        ),
{
    let (ti, si) = (nth_time(start, clock, i), nth_sequence(start, clock, i));
    let (tj, sj) = (nth_time(start, clock, j), nth_sequence(start, clock, j));
    lemma_text_injective(identifier_bytes(ti, seed, si), identifier_bytes(tj, seed, sj));
    lemma_identifier_equal(seed, ti, si, tj, sj);
    lemma_sequence_counts_calls(start, clock, i);
    lemma_sequence_counts_calls(start, clock, j);
    lemma_same_residue(start.sequence as int, i as int, j as int);
}

/// The order of two identifiers of one generator as text, exactly: that of call
/// `i` sorts before that of call `j` when the two differ and either their
/// fields (timestamp, then sequence) stand in that order and the alphabet keeps
/// it, or their fields stand the other way round and the alphabet reverses it.
pub proof fn lemma_identifier_text_order(
    seed: Seq<u8>,
    start: Counters,
    clock: Seq<u64>,
    i: nat,
    j: nat,
)
    requires
        seed.len() == 6,
    ensures
        text_less(nth_identifier(seed, start, clock, i), nth_identifier(seed, start, clock, j))
            <==> nth_bytes(seed, start, clock, i) != nth_bytes(seed, start, clock, j) && ((
        time_field(nth_time(start, clock, i)) < time_field(nth_time(start, clock, j)) || (
        time_field(nth_time(start, clock, i)) == time_field(nth_time(start, clock, j))
            && sequence_field(nth_sequence(start, clock, i)) < sequence_field(
            nth_sequence(start, clock, j),
        ))) <==> alphabet_ascends(
            nth_bytes(seed, start, clock, i),
            nth_bytes(seed, start, clock, j),
        )),
{
    let (ti, si) = (nth_time(start, clock, i), nth_sequence(start, clock, i));
    let (tj, sj) = (nth_time(start, clock, j), nth_sequence(start, clock, j));
    lemma_identifier_value(ti, seed, si);
    lemma_identifier_value(tj, seed, sj);
    lemma_text_order(identifier_bytes(ti, seed, si), identifier_bytes(tj, seed, sj));
    lemma_identifier_order(seed, ti, si, tj, sj);
}

/// Monotonic order: of two calls on one generator, the earlier one's identifier
/// sorts first as text, so long as neither field has run past its width between
/// the two and the alphabet keeps the order of the six bits in which the two
/// identifiers first differ.
pub proof fn lemma_sequential_identifiers_ascend(
    seed: Seq<u8>,
    start: Counters,
    clock: Seq<u64>,
    i: nat,
    j: nat,
)
    requires
        seed.len() == 6,
        i < j,
        nth_time(start, clock, j) < 0x1_0000_0000_0000,
        sequence_field(nth_sequence(start, clock, i)) < sequence_field(
            nth_sequence(start, clock, j),
        ),
        alphabet_ascends(nth_bytes(seed, start, clock, i), nth_bytes(seed, start, clock, j)),
    ensures
        text_less(nth_identifier(seed, start, clock, i), nth_identifier(seed, start, clock, j)),
{
    lemma_time_never_decreases(start, clock, i, j);
    lemma_identifier_text_order(seed, start, clock, i, j);
    let (ti, si) = (nth_time(start, clock, i), nth_sequence(start, clock, i));
    let (tj, sj) = (nth_time(start, clock, j), nth_sequence(start, clock, j));
    lemma_identifier_equal(seed, ti, si, tj, sj);
}

/// Equality: two generators that started fresh count as equal exactly when they
/// have the same seed and have answered the same number of calls, modulo
/// `2^64`. In particular two fresh generators are equal when their seeds are.
pub proof fn lemma_equality(
    seed_a: Seq<u8>,
    clock_a: Seq<u64>,
    calls_a: nat,
    seed_b: Seq<u8>,
    clock_b: Seq<u64>,
    calls_b: nat,
)
    ensures
        same_state(
            seed_a,
            counters_before(fresh(), clock_a, calls_a).sequence,
            seed_b,
            counters_before(fresh(), clock_b, calls_b).sequence,
        ) <==> seed_a == seed_b && calls_a % 0x1_0000_0000_0000_0000 == calls_b
            % 0x1_0000_0000_0000_0000,
        same_state(seed_a, fresh().sequence, seed_b, fresh().sequence) <==> seed_a == seed_b,
{
    lemma_sequence_counts_calls(fresh(), clock_a, calls_a);
    lemma_sequence_counts_calls(fresh(), clock_b, calls_b);
}

} // verus!
