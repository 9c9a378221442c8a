//! The binary layout of an identifier: fixed-width big-endian fields.
use crate::order::below_at;
use crate::order::bytes_less;
use crate::order::lemma_lex_total;
use vstd::arithmetic::div_mod::lemma_div_denominator;
use vstd::arithmetic::div_mod::lemma_mod_breakdown;
use vstd::prelude::*;

verus! {

/// Number of bytes in the timestamp field.
pub const TIME_BYTES: u8 = 6;

/// Number of bytes in the sequence field.
pub const SEQUENCE_BYTES: u8 = 3;

/// `256` to the power `n`: the number of values that `n` bytes can hold.
pub open spec fn pow256(n: nat) -> nat
    decreases n,
{
    if n == 0 {
        1
    } else {
        256 * pow256((n - 1) as nat)
    }
}

/// The number that a big-endian byte string denotes.
pub open spec fn be_value(bytes: Seq<u8>) -> nat
    decreases bytes.len(),
{
    if bytes.len() == 0 {
        0
    } else {
        256 * be_value(bytes.drop_last()) + bytes.last() as nat
    }
}

/// Byte `k` (counted from the most significant end) of `value` written big-endian
/// in `width` bytes. Bytes of `value` above the field's width do not appear.
pub open spec fn be_byte(value: u64, width: nat, k: int) -> u8 {
    ((value as nat / pow256((width - 1 - k) as nat)) % 256) as u8
}

/// `value` written big-endian in `width` bytes, its high-order part cut off.
pub open spec fn be_bytes(value: u64, width: nat) -> Seq<u8> {
    Seq::new(width, |k: int| be_byte(value, width, k))
}

/// `pow256` on the exponents that a `u64` can reach.
pub proof fn lemma_pow256_values()
    ensures
        pow256(0) == 1,
        pow256(1) == 0x100,
        pow256(2) == 0x1_0000,
        pow256(3) == 0x100_0000,
        pow256(4) == 0x1_0000_0000,
        pow256(5) == 0x100_0000_0000,
        pow256(6) == 0x1_0000_0000_0000,
        pow256(7) == 0x100_0000_0000_0000,
        pow256(8) == 0x1_0000_0000_0000_0000,
{
    reveal_with_fuel(pow256, 10);
}

/// Shifting right by `8 * i` bits and keeping the low byte yields the `i`-th
/// base-256 digit.
proof fn lemma_shifted_byte(value: u64, i: u64)
    requires
        i < 8,
    ensures
        (value >> (8 * i)) & 0xff == (value as nat / pow256(i as nat)) % 256,
{
    lemma_pow256_values();
    if i == 0 {
        assert((value >> 0) & 0xff == (value / 0x1) % 256) by (bit_vector);
    } else if i == 1 {
        assert((value >> 8) & 0xff == (value / 0x100) % 256) by (bit_vector);
    } else if i == 2 {
        assert((value >> 16) & 0xff == (value / 0x1_0000) % 256) by (bit_vector);
    } else if i == 3 {
        assert((value >> 24) & 0xff == (value / 0x100_0000) % 256) by (bit_vector);
    } else if i == 4 {
        assert((value >> 32) & 0xff == (value / 0x1_0000_0000) % 256) by (bit_vector);
    } else if i == 5 {
        assert((value >> 40) & 0xff == (value / 0x100_0000_0000) % 256) by (bit_vector);
    } else if i == 6 {
        assert((value >> 48) & 0xff == (value / 0x1_0000_0000_0000) % 256) by (bit_vector);
    } else {
        assert((value >> 56) & 0xff == (value / 0x100_0000_0000_0000) % 256) by (bit_vector);
    }
}

/// Writes the low `number_of_bytes` bytes of `long_value` into `byte_array`,
/// most significant byte first, starting at index `pos`. Everything else in
/// `byte_array` stays as it was.
pub fn put_uint(byte_array: &mut [u8], long_value: u64, pos: u8, number_of_bytes: u8)
    requires
        number_of_bytes <= 8,
        pos + number_of_bytes <= old(byte_array)@.len(),
    ensures
        final(byte_array)@.len() == old(byte_array)@.len(),
        final(byte_array)@.subrange(pos as int, pos + number_of_bytes) == be_bytes(
            long_value,
            number_of_bytes as nat,
        ),
        forall|j: int|
            0 <= j < old(byte_array)@.len() && !(pos <= j < pos + number_of_bytes)
                ==> final(byte_array)@[j] == old(byte_array)@[j],
{
    let mut i: u8 = 0;
    while i < number_of_bytes
        invariant
            i <= number_of_bytes <= 8,
            pos + number_of_bytes <= byte_array@.len(),
            byte_array@.len() == old(byte_array)@.len(),
            forall|j: int|
                0 <= j < byte_array@.len() && !(pos <= j < pos + number_of_bytes)
                    ==> byte_array@[j] == old(byte_array)@[j],
            forall|k: int|
                number_of_bytes - i <= k < number_of_bytes ==> byte_array@[pos + k] == be_byte(
                    long_value,
                    number_of_bytes as nat,
                    k,
                ),
        decreases number_of_bytes - i,
    {
        let shift: u64 = 8 * (i as u64);
        let val: u8 = ((long_value >> shift) & 0xff) as u8;
        let index: usize = pos as usize + (number_of_bytes - i - 1) as usize;
        proof {
            lemma_shifted_byte(long_value, i as u64);
            assert((long_value >> shift) & 0xff < 256) by (bit_vector);
        }
        byte_array[index] = val;
        i = i + 1;
    }
    assert(byte_array@.subrange(pos as int, pos + number_of_bytes) =~= be_bytes(
        long_value,
        number_of_bytes as nat,
    ));
}

/// Copies the six seed bytes into positions 6 to 11 of `byte_array`. Everything
/// else in `byte_array` stays as it was.
pub fn copy_seed(byte_array: &mut [u8], seed_array: [u8; 6])
    requires
        old(byte_array)@.len() >= 12,
    ensures
        final(byte_array)@.len() == old(byte_array)@.len(),
        final(byte_array)@.subrange(6, 12) == seed_array@,
        forall|j: int|
            0 <= j < old(byte_array)@.len() && !(6 <= j < 12) ==> final(byte_array)@[j] == old(
                byte_array,
            )@[j],
{
    let mut i: usize = 0;
    while i < 6
        invariant
            i <= 6,
            byte_array@.len() == old(byte_array)@.len(),
            byte_array@.len() >= 12,
            forall|j: int|
                0 <= j < byte_array@.len() && !(6 <= j < 12) ==> byte_array@[j] == old(
                    byte_array,
                )@[j],
            forall|k: int| 0 <= k < i ==> byte_array@[6 + k] == seed_array@[k],
        decreases 6 - i,
    {
        byte_array[i + 6] = seed_array[i];
        i = i + 1;
    }
    assert(byte_array@.subrange(6, 12) =~= seed_array@);
}

/// The fifteen bytes of an identifier: the low 48 bits of `time`, then the seed,
/// then the low 24 bits of `sequence`, each number big-endian.
pub open spec fn identifier_bytes(time: u64, seed: Seq<u8>, sequence: u64) -> Seq<u8> {
    be_bytes(time, 6) + seed + be_bytes(sequence, 3)
}

/// Builds the binary identifier for a timestamp, a seed and a sequence number.
pub fn pack(time: u64, seed: [u8; 6], sequence: u64) -> (id: [u8; 15])
    ensures
        id@ == identifier_bytes(time, seed@, sequence),
{
    let mut flake_id: [u8; 15] = [0;15];
    put_uint(&mut flake_id, time, 0, TIME_BYTES);
    copy_seed(&mut flake_id, seed);
    put_uint(&mut flake_id, sequence, 12, SEQUENCE_BYTES);
    assert(flake_id@ =~= identifier_bytes(time, seed@, sequence)) by {
        let want = identifier_bytes(time, seed@, sequence);
        assert(flake_id@.len() == 15);
        assert forall|j: int| 0 <= j < 15 implies flake_id@[j] == want[j] by {
            if j < 6 {
                assert(flake_id@.subrange(0, 6)[j] == be_bytes(time, 6)[j]);
            } else if j < 12 {
                assert(flake_id@.subrange(6, 12)[j - 6] == seed@[j - 6]);
            } else {
                assert(flake_id@.subrange(12, 15)[j - 12] == be_bytes(sequence, 3)[j - 12]);
            }
        }
    }
    flake_id
}

/// Every power of 256 is positive.
pub proof fn lemma_pow256_positive(n: nat)
    ensures
        pow256(n) > 0,
    decreases n,
{
    if n > 0 {
        lemma_pow256_positive((n - 1) as nat);
    }
}

/// Powers of 256 multiply as their exponents add.
pub proof fn lemma_pow256_add(m: nat, n: nat)
    ensures
        pow256(m + n) == pow256(m) * pow256(n),
    decreases n,
{
    if n == 0 {
        assert(pow256(m) * 1 == pow256(m));
    } else {
        lemma_pow256_add(m, (n - 1) as nat);
        let a = pow256(m);
        let b = pow256((n - 1) as nat);
        assert(256 * (a * b) == a * (256 * b)) by (nonlinear_arith);
    }
}

/// Truncation: the bytes written for `value` in a field of `width` bytes denote
/// `value` modulo `256^width`. Whatever lies above the field is lost, and
/// nothing else is.
pub proof fn lemma_be_bytes_value(value: u64, width: nat)
    ensures
        be_bytes(value, width).len() == width,
        be_value(be_bytes(value, width)) == value as nat % pow256(width),
    decreases width,
{
    let field = be_bytes(value, width);
    if width > 0 {
        let w = (width - 1) as nat;
        let rest = (value / 256) as u64;
        lemma_be_bytes_value(rest, w);
        lemma_pow256_positive(w);
        assert(field.drop_last() =~= be_bytes(rest, w)) by {
            assert forall|k: int| 0 <= k < w implies field[k] == be_byte(rest, w, k) by {
                let p = pow256((w - 1 - k) as nat);
                lemma_pow256_positive((w - 1 - k) as nat);
                assert(pow256((w - k) as nat) == 256 * p);
                lemma_div_denominator(value as int, 256, p as int);
            }
        }
        assert(field.last() == value % 256) by {
            assert(pow256(0) == 1);
            assert(value as nat / pow256(0) == value as nat);
        }
        lemma_mod_breakdown(value as int, 256, pow256(w) as int);
    }
}

/// A byte string of length `n` denotes a number below `256^n`.
pub proof fn lemma_be_value_bound(bytes: Seq<u8>)
    ensures
        be_value(bytes) < pow256(bytes.len()),
    decreases bytes.len(),
{
    if bytes.len() > 0 {
        lemma_be_value_bound(bytes.drop_last());
    }
}

/// The number denoted by two byte strings written one after the other.
pub proof fn lemma_be_value_concat(high: Seq<u8>, low: Seq<u8>)
    ensures
        be_value(high + low) == be_value(high) * pow256(low.len()) + be_value(low),
    decreases low.len(),
{
    let h = be_value(high);
    if low.len() == 0 {
        assert(high + low =~= high);
        assert(pow256(0) == 1);
        assert(h * 1 == h);
    } else {
        lemma_be_value_concat(high, low.drop_last());
        assert((high + low).drop_last() =~= high + low.drop_last());
        assert((high + low).last() == low.last());
        let p = pow256((low.len() - 1) as nat);
        let l = be_value(low.drop_last());
        assert(be_value(high + low) == 256 * (h * p + l) + low.last());
        assert(pow256(low.len()) == 256 * p);
        assert(256 * (h * p + l) == h * (256 * p) + 256 * l) by (nonlinear_arith);
    }
}

proof fn lemma_less_bytes_less_value(a: Seq<u8>, b: Seq<u8>)
    requires
        a.len() == b.len(),
        bytes_less(a, b),
    ensures
        be_value(a) < be_value(b),
    decreases a.len(),
{
    let rank = |x: u8| x as int;
    let k = choose|k: int| below_at(a, b, rank, k);
    assert(rank(a[k]) < rank(b[k]));
    if k < a.len() - 1 {
        assert(below_at(a.drop_last(), b.drop_last(), rank, k));
        lemma_less_bytes_less_value(a.drop_last(), b.drop_last());
    } else {
        assert(a.drop_last() =~= b.drop_last());
    }
}

/// Big-endian order: of two byte strings of one length, the one that sorts first
/// denotes the lower number.
pub proof fn lemma_be_value_order(a: Seq<u8>, b: Seq<u8>)
    requires
        a.len() == b.len(),
    ensures
        bytes_less(a, b) <==> be_value(a) < be_value(b),
        a == b <==> be_value(a) == be_value(b),
{
    let rank = |x: u8| x as int;
    if bytes_less(a, b) {
        lemma_less_bytes_less_value(a, b);
    } else if a != b {
        assert forall|x: u8, y: u8| #[trigger] rank(x) == #[trigger] rank(y) implies x == y by {}
        lemma_lex_total(a, b, rank);
        lemma_less_bytes_less_value(b, a);
    }
}

/// Two values fill a field with the same bytes exactly when they agree modulo
/// `256^width`.
pub proof fn lemma_be_bytes_equal(v1: u64, v2: u64, width: nat)
    ensures
        be_bytes(v1, width) == be_bytes(v2, width) <==> v1 as nat % pow256(width) == v2 as nat
            % pow256(width),
{
    lemma_be_bytes_value(v1, width);
    lemma_be_bytes_value(v2, width);
    lemma_be_value_order(be_bytes(v1, width), be_bytes(v2, width));
}

/// The number that the timestamp field of an identifier holds.
pub open spec fn time_field(time: u64) -> nat {
    time as nat % 0x1_0000_0000_0000
}

/// The number that the sequence field of an identifier holds.
pub open spec fn sequence_field(sequence: u64) -> nat {
    sequence as nat % 0x100_0000
}

/// The fifteen bytes of an identifier read as one big-endian number.
pub open spec fn identifier_value(time: u64, seed: Seq<u8>, sequence: u64) -> nat {
    time_field(time) * pow256(9) + be_value(seed) * pow256(3) + sequence_field(sequence)
}

/// An identifier is fifteen bytes long and, read as one number, is made of its
/// three fields.
pub proof fn lemma_identifier_value(time: u64, seed: Seq<u8>, sequence: u64)
    requires
        seed.len() == 6,
    ensures
        identifier_bytes(time, seed, sequence).len() == 15,
        be_value(identifier_bytes(time, seed, sequence)) == identifier_value(time, seed, sequence),
        be_value(seed) < pow256(6),
{
    lemma_pow256_values();
    lemma_be_bytes_value(time, 6);
    lemma_be_bytes_value(sequence, 3);
    lemma_be_value_bound(seed);
    let t = be_bytes(time, 6);
    let s = be_bytes(sequence, 3);
    lemma_be_value_concat(t + seed, s);
    lemma_be_value_concat(t, seed);
    lemma_pow256_add(6, 3);
    let tv = be_value(t);
    let sv = be_value(seed);
    assert((tv * pow256(6) + sv) * pow256(3) == tv * (pow256(6) * pow256(3)) + sv * pow256(3))
        by (nonlinear_arith);
}

/// Two identifiers of one seed are the same bytes exactly when their timestamp
/// fields and their sequence fields hold the same numbers.
pub proof fn lemma_identifier_equal(seed: Seq<u8>, t1: u64, s1: u64, t2: u64, s2: u64)
    requires
        seed.len() == 6,
    ensures
        identifier_bytes(t1, seed, s1) == identifier_bytes(t2, seed, s2) <==> time_field(t1)
            == time_field(t2) && sequence_field(s1) == sequence_field(s2),
{
    lemma_pow256_values();
    lemma_identifier_value(t1, seed, s1);
    lemma_identifier_value(t2, seed, s2);
    lemma_be_value_order(identifier_bytes(t1, seed, s1), identifier_bytes(t2, seed, s2));
    let (a, b) = (time_field(t1), time_field(t2));
    let (c, d) = (sequence_field(s1), sequence_field(s2));
    let m = be_value(seed) * pow256(3);
    assert(a * pow256(9) + m + c == b * pow256(9) + m + d <==> a == b && c == d) by {
        lemma_two_digits(a as int, c as int, b as int, d as int, pow256(9) as int);
    }
}

/// Two identifiers of one seed sort, as bytes, by timestamp field and then by
/// sequence field.
pub proof fn lemma_identifier_order(seed: Seq<u8>, t1: u64, s1: u64, t2: u64, s2: u64)
    requires
        seed.len() == 6,
    ensures
        bytes_less(identifier_bytes(t1, seed, s1), identifier_bytes(t2, seed, s2)) <==> time_field(
            t1,
        ) < time_field(t2) || (time_field(t1) == time_field(t2) && sequence_field(s1)
            < sequence_field(s2)),
{
    lemma_pow256_values();
    lemma_identifier_value(t1, seed, s1);
    lemma_identifier_value(t2, seed, s2);
    lemma_be_value_order(identifier_bytes(t1, seed, s1), identifier_bytes(t2, seed, s2));
    let (a, b) = (time_field(t1), time_field(t2));
    let (c, d) = (sequence_field(s1), sequence_field(s2));
    lemma_two_digits(a as int, c as int, b as int, d as int, pow256(9) as int);
    lemma_two_digits(b as int, d as int, a as int, c as int, pow256(9) as int);
}

/// Numbers `a * base + c` with `c` below `base` compare by `a`, then by `c`.
proof fn lemma_two_digits(a: int, c: int, b: int, d: int, base: int)
    requires
        0 <= c < base,
        0 <= d < base,
    ensures
        a * base + c < b * base + d <==> a < b || (a == b && c < d),
        a * base + c == b * base + d <==> a == b && c == d,
{
    if a < b {
        assert(a * base + base <= b * base) by (nonlinear_arith)
            requires
                a + 1 <= b,
                base > 0,
        ;
    } else if b < a {
        assert(b * base + base <= a * base) by (nonlinear_arith)
            requires
                b + 1 <= a,
                base > 0,
        ;
    }
}

} // verus!
