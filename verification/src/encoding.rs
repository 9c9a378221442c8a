//! URL-safe base64 text, with padding, as a function of the bytes it encodes.
use crate::order::agree_below;
use crate::order::below_at;
use crate::order::bytes_less;
use crate::order::lemma_first_difference;
use crate::order::lemma_lex_asymmetric;
use crate::order::lemma_lex_at_first_difference;
use crate::order::text_less;
use vstd::prelude::*;

verus! {

/// The character that stands for the six-bit value `v` in the URL-safe alphabet:
/// `A`-`Z`, `a`-`z`, `0`-`9`, `-`, `_`.
pub open spec fn symbol(v: int) -> char {
    if v < 26 {
        (0x41 + v) as char
    } else if v < 52 {
        (0x61 + (v - 26)) as char
    } else if v < 62 {
        (0x30 + (v - 52)) as char
    } else if v == 62 {
        '-'
    } else {
        '_'
    }
}

/// The byte at index `i`, or zero past the end of `bytes`.
pub open spec fn byte_or_zero(bytes: Seq<u8>, i: int) -> int {
    if 0 <= i < bytes.len() {
        bytes[i] as int
    } else {
        0
    }
}

/// The `k`-th group of six bits of `bytes` read as one string of bits, most
/// significant bit first, with zero bits after the last byte.
pub open spec fn sextet(bytes: Seq<u8>, k: int) -> int {
    let g = 3 * (k / 4);
    let b0 = byte_or_zero(bytes, g);
    let b1 = byte_or_zero(bytes, g + 1);
    let b2 = byte_or_zero(bytes, g + 2);
    if k % 4 == 0 {
        b0 / 4
    } else if k % 4 == 1 {
        (b0 % 4) * 16 + b1 / 16
    } else if k % 4 == 2 {
        (b1 % 16) * 4 + b2 / 64
    } else {
        b2 % 64
    }
}

/// Number of alphabet characters in the encoding of `len` bytes.
pub open spec fn symbol_count(len: nat) -> nat {
    (4 * len + 2) / 3
}

/// Number of characters, padding included, in the encoding of `len` bytes.
pub open spec fn text_len(len: nat) -> nat {
    4 * ((len + 2) / 3)
}

/// The URL-safe base64 encoding of `bytes`: one alphabet character for each group
/// of six bits, then `=` up to a multiple of four characters.
pub open spec fn url_safe_text(bytes: Seq<u8>) -> Seq<char> {
    Seq::new(
        text_len(bytes.len()),
        |k: int|
            if k < symbol_count(bytes.len()) {
                symbol(sextet(bytes, k))
            } else {
                '='
            },
    )
}

/// `base64::encode_config` with the configuration `base64::URL_SAFE`.
///
/// Trusted: the text returned is the URL-safe alphabet with padding applied to
/// the input exactly as [`url_safe_text`] writes it out. The length bound keeps
/// the size of the output within `usize`, beyond which the call panics.
#[verifier::external_body]
pub(crate) fn encode_url_safe(bytes: &[u8]) -> (text: String)
    requires
        4 * (bytes@.len() / 3) + 4 <= usize::MAX,
    ensures
        text@ == url_safe_text(bytes@),
{
    base64::encode_config(bytes, base64::URL_SAFE)
}

/// The six-bit value that an alphabet character stands for.
pub open spec fn symbol_value(c: char) -> int {
    if 'A' <= c <= 'Z' {
        c as int - 0x41
    } else if 'a' <= c <= 'z' {
        c as int - 0x61 + 26
    } else if '0' <= c <= '9' {
        c as int - 0x30 + 52
    } else if c == '-' {
        62
    } else {
        63
    }
}

/// Number of `=` characters at the end of an encoded text: none, one or two.
pub open spec fn padding_len(text: Seq<char>) -> nat {
    if text.len() >= 2 && text[text.len() - 2] == '=' {
        2
    } else if text.len() >= 1 && text[text.len() - 1] == '=' {
        1
    } else {
        0
    }
}

/// Byte `i` of the bytes that `text` encodes: eight of the bits that the four
/// characters of its group carry.
pub open spec fn decoded_byte(text: Seq<char>, i: int) -> u8 {
    let g = 4 * (i / 3);
    let s0 = symbol_value(text[g]);
    let s1 = symbol_value(text[g + 1]);
    let s2 = symbol_value(text[g + 2]);
    let s3 = symbol_value(text[g + 3]);
    if i % 3 == 0 {
        (s0 * 4 + s1 / 16) as u8
    } else if i % 3 == 1 {
        ((s1 % 16) * 16 + s2 / 4) as u8
    } else {
        ((s2 % 4) * 64 + s3) as u8
    }
}

/// The bytes that an encoded text stands for: three for every four characters,
/// less those that padding replaces.
pub open spec fn url_safe_bytes(text: Seq<char>) -> Seq<u8> {
    Seq::new((3 * (text.len() - padding_len(text)) / 4) as nat, |i: int| decoded_byte(text, i))
}

/// The alphabet has sixty-four different characters, none of them `=`, and
/// [`symbol_value`] reads each of them back.
pub proof fn lemma_symbol(v: int)
    requires
        0 <= v < 64,
    ensures
        symbol_value(symbol(v)) == v,
        symbol(v) != '=',
        symbol(v) as int <= 0x7a,
{
}

/// A group of six bits is a number below sixty-four.
pub proof fn lemma_sextet_range(bytes: Seq<u8>, k: int)
    requires
        0 <= k,
    ensures
        0 <= sextet(bytes, k) < 64,
{
}

/// Each byte is made of the six-bit groups that cover it.
pub proof fn lemma_byte_of_sextets(bytes: Seq<u8>, i: int)
    requires
        0 <= i < bytes.len(),
    ensures
        4 * (i / 3) + 1 + i % 3 < symbol_count(bytes.len()),
        i % 3 == 0 ==> bytes[i] == sextet(bytes, 4 * (i / 3)) * 4 + sextet(bytes, 4 * (i / 3) + 1)
            / 16,
        i % 3 == 1 ==> bytes[i] == (sextet(bytes, 4 * (i / 3) + 1) % 16) * 16 + sextet(
            bytes,
            4 * (i / 3) + 2,
        ) / 4,
        i % 3 == 2 ==> bytes[i] == (sextet(bytes, 4 * (i / 3) + 2) % 4) * 64 + sextet(
            bytes,
            4 * (i / 3) + 3,
        ),
{
    let g = i / 3;
    assert((4 * g) / 4 == g && (4 * g) % 4 == 0);
    assert((4 * g + 1) / 4 == g && (4 * g + 1) % 4 == 1);
    assert((4 * g + 2) / 4 == g && (4 * g + 2) % 4 == 2);
    assert((4 * g + 3) / 4 == g && (4 * g + 3) % 4 == 3);
}

/// The length of an encoded text, and where its padding begins.
pub proof fn lemma_text_shape(bytes: Seq<u8>)
    ensures
        url_safe_text(bytes).len() == text_len(bytes.len()),
        symbol_count(bytes.len()) <= text_len(bytes.len()),
        padding_len(url_safe_text(bytes)) == text_len(bytes.len()) - symbol_count(bytes.len()),
        forall|k: int|
            0 <= k < symbol_count(bytes.len()) ==> #[trigger] url_safe_text(bytes)[k] == symbol(
                sextet(bytes, k),
            ),
        3 * symbol_count(bytes.len()) / 4 == bytes.len(),
{
    let text = url_safe_text(bytes);
    let n = bytes.len();
    let m = symbol_count(n);
    assert forall|k: int| 0 <= k < m implies #[trigger] text[k] != '=' by {
        lemma_sextet_range(bytes, k);
        lemma_symbol(sextet(bytes, k));
    }
    if n % 3 == 1 {
        assert(text[text.len() - 2] == '=');
    } else if n % 3 == 2 {
        assert(text[text.len() - 1] == '=');
        assert(text[text.len() - 2] != '=');
    } else if n > 0 {
        assert(text[text.len() - 1] != '=');
        assert(text[text.len() - 2] != '=');
    }
}

/// Decodability: the text of any bytes stands for exactly those bytes.
pub proof fn lemma_text_round_trip(bytes: Seq<u8>)
    ensures
        url_safe_bytes(url_safe_text(bytes)) == bytes,
{
    let text = url_safe_text(bytes);
    lemma_text_shape(bytes);
    let back = url_safe_bytes(text);
    assert(back.len() == bytes.len());
    assert forall|i: int| 0 <= i < bytes.len() implies back[i] == bytes[i] by {
        lemma_byte_of_sextets(bytes, i);
        let g = 4 * (i / 3);
        lemma_sextet_range(bytes, g);
        lemma_sextet_range(bytes, g + 1);
        lemma_sextet_range(bytes, g + 2);
        lemma_sextet_range(bytes, g + 3);
        lemma_symbol(sextet(bytes, g));
        lemma_symbol(sextet(bytes, g + 1));
        lemma_symbol(sextet(bytes, g + 2));
        lemma_symbol(sextet(bytes, g + 3));
        assert(text[g] == symbol(sextet(bytes, g)));
        assert(text[g + 1] == symbol(sextet(bytes, g + 1)));
        if i % 3 >= 1 {
            assert(text[g + 2] == symbol(sextet(bytes, g + 2)));
        }
        if i % 3 == 2 {
            assert(text[g + 3] == symbol(sextet(bytes, g + 3)));
        }
    }
    assert(back =~= bytes);
}

/// Different bytes have different texts.
pub proof fn lemma_text_injective(a: Seq<u8>, b: Seq<u8>)
    ensures
        url_safe_text(a) == url_safe_text(b) <==> a == b,
{
    lemma_text_round_trip(a);
    lemma_text_round_trip(b);
}

/// The six-bit groups of `bytes`, one for each alphabet character of its text.
pub open spec fn sextets(bytes: Seq<u8>) -> Seq<int> {
    Seq::new(symbol_count(bytes.len()), |k: int| sextet(bytes, k))
}

/// The alphabet keeps the order of `a` and `b`: in the first six-bit group in
/// which they differ, the lower value is written with the lower character.
/// The alphabet runs `A`-`Z`, `a`-`z`, `0`-`9`, `-`, `_`, which is not the order
/// of these characters' codes, so this does not hold of every pair.
pub open spec fn alphabet_ascends(a: Seq<u8>, b: Seq<u8>) -> bool {
    forall|k: int|
        #[trigger] agree_below(sextets(a), sextets(b), k) && k < sextets(a).len() && sextet(a, k)
            != sextet(b, k) ==> (sextet(a, k) < sextet(b, k) <==> symbol(sextet(a, k)) < symbol(
            sextet(b, k),
        ))
}

/// Bytes that agree in every six-bit group are the same bytes.
proof fn lemma_sextets_injective(a: Seq<u8>, b: Seq<u8>)
    requires
        a.len() == b.len(),
        sextets(a) == sextets(b),
    ensures
        a == b,
{
    assert forall|i: int| 0 <= i < a.len() implies a[i] == b[i] by {
        lemma_byte_of_sextets(a, i);
        lemma_byte_of_sextets(b, i);
        let g = 4 * (i / 3);
        assert(sextets(a)[g] == sextet(a, g) && sextets(b)[g] == sextet(b, g));
        assert(sextets(a)[g + 1] == sextet(a, g + 1) && sextets(b)[g + 1] == sextet(b, g + 1));
        if i % 3 >= 1 {
            assert(sextets(a)[g + 2] == sextet(a, g + 2) && sextets(b)[g + 2] == sextet(b, g + 2));
        }
        if i % 3 == 2 {
            assert(sextets(a)[g + 3] == sextet(a, g + 3) && sextets(b)[g + 3] == sextet(b, g + 3));
        }
    }
    assert(a =~= b);
}

/// Where the six-bit groups first differ and `a` holds the lower group, `a` is
/// the lower byte string.
proof fn lemma_lower_sextet_lower_bytes(a: Seq<u8>, b: Seq<u8>, k: int)
    requires
        a.len() == b.len(),
        agree_below(sextets(a), sextets(b), k),
        k < sextets(a).len(),
        sextet(a, k) < sextet(b, k),
    ensures
        bytes_less(a, b),
{
    let rank = |x: u8| x as int;
    let g = k / 4;
    let r = k % 4;
    let sa = sextet(a, k);
    let sb = sextet(b, k);
    let j = if r == 0 {
        3 * g
    } else if r == 1 {
        if sa / 16 != sb / 16 {
            3 * g
        } else {
            3 * g + 1
        }
    } else if r == 2 {
        if sa / 4 != sb / 4 {
            3 * g + 1
        } else {
            3 * g + 2
        }
    } else {
        3 * g + 2
    };
    assert forall|i: int| 0 <= i < k implies sextet(a, i) == sextet(b, i) by {
        assert(sextets(a)[i] == sextets(b)[i]);
    }
    assert(r >= 1 ==> sextet(a, k - 1) == sextet(b, k - 1));
    assert(r >= 2 ==> sextet(a, k - 2) == sextet(b, k - 2));
    assert(r >= 3 ==> sextet(a, k - 3) == sextet(b, k - 3));
    assert((k - r) / 4 == g && (k - r) % 4 == 0);
    assert(r >= 1 ==> (k - r + 1) / 4 == g && (k - r + 1) % 4 == 1);
    assert(r >= 2 ==> (k - r + 2) / 4 == g && (k - r + 2) % 4 == 2);
    assert(byte_or_zero(a, j) < byte_or_zero(b, j));
    assert(0 <= j < a.len());
    assert forall|i: int| 0 <= i < j implies a[i] == b[i] by {
        if i < 3 * g {
            lemma_byte_of_sextets(a, i);
            lemma_byte_of_sextets(b, i);
            assert(4 * (i / 3) + 3 < k);
        } else {
            assert(byte_or_zero(a, i) == byte_or_zero(b, i));
        }
    }
    assert(below_at(a, b, rank, j));
}

/// The first six-bit group in which two byte strings of one length differ
/// decides their order as bytes and the order of their texts.
pub proof fn lemma_first_split(a: Seq<u8>, b: Seq<u8>) -> (k: int)
    requires
        a.len() == b.len(),
        a != b,
    ensures
        agree_below(sextets(a), sextets(b), k),
        k < sextets(a).len(),
        sextet(a, k) != sextet(b, k),
        bytes_less(a, b) <==> sextet(a, k) < sextet(b, k),
        text_less(url_safe_text(a), url_safe_text(b)) <==> symbol(sextet(a, k)) < symbol(
            sextet(b, k),
        ),
{
    if sextets(a) == sextets(b) {
        lemma_sextets_injective(a, b);
    }
    let k = lemma_first_difference(sextets(a), sextets(b));
    if sextet(a, k) < sextet(b, k) {
        lemma_lower_sextet_lower_bytes(a, b, k);
    } else {
        assert(agree_below(sextets(b), sextets(a), k));
        lemma_lower_sextet_lower_bytes(b, a, k);
        lemma_lex_asymmetric(b, a, |x: u8| x as int);
    }
    let ta = url_safe_text(a);
    let tb = url_safe_text(b);
    let code = |c: char| c as int;
    lemma_text_shape(a);
    lemma_text_shape(b);
    assert forall|i: int| 0 <= i < k implies ta[i] == tb[i] by {
        assert(sextets(a)[i] == sextets(b)[i]);
        assert(ta[i] == symbol(sextet(a, i)));
        assert(tb[i] == symbol(sextet(b, i)));
    }
    lemma_sextet_range(a, k);
    lemma_sextet_range(b, k);
    lemma_symbol(sextet(a, k));
    lemma_symbol(sextet(b, k));
    assert(ta[k] == symbol(sextet(a, k)));
    assert(tb[k] == symbol(sextet(b, k)));
    lemma_lex_at_first_difference(ta, tb, code, k);
    k
}

/// Texts sort as the bytes they encode exactly where the alphabet keeps the
/// order of the first six-bit group in which the bytes differ.
pub proof fn lemma_text_order(a: Seq<u8>, b: Seq<u8>)
    requires
        a.len() == b.len(),
    ensures
        text_less(url_safe_text(a), url_safe_text(b)) <==> a != b && (bytes_less(a, b)
            <==> alphabet_ascends(a, b)),
{
    if a == b {
        if text_less(url_safe_text(a), url_safe_text(b)) {
            lemma_lex_asymmetric(url_safe_text(a), url_safe_text(b), |c: char| c as int);
        }
    } else {
        let k = lemma_first_split(a, b);
        let agrees = sextet(a, k) < sextet(b, k) <==> symbol(sextet(a, k)) < symbol(sextet(b, k));
        if alphabet_ascends(a, b) {
            assert(agrees);
        }
        if agrees {
            assert forall|j: int|
                #[trigger] agree_below(sextets(a), sextets(b), j) && j < sextets(a).len()
                    && sextet(a, j) != sextet(b, j) implies (sextet(a, j) < sextet(b, j)
                <==> symbol(sextet(a, j)) < symbol(sextet(b, j))) by {
                if j < k {
                    assert(sextets(a)[j] == sextets(b)[j]);
                } else if k < j {
                    assert(sextets(a)[k] == sextets(b)[k]);
                }
            }
        }
    }
}

/// Where the alphabet keeps the order of two six-bit values: the characters'
/// codes run `-`, `0`-`9`, `A`-`Z`, `_`, `a`-`z`, so of `u < v` the lower is
/// written with the lower character unless `v` is a digit or `-` and `u` is
/// not, or `v` is `_` and `u` is a small letter.
pub proof fn lemma_symbol_order(u: int, v: int)
    requires
        0 <= u < v < 64,
    ensures
        symbol(u) < symbol(v) <==> v < 52 || (v < 62 && u >= 52) || (v == 63 && (u < 26 || u
            >= 52)),
{
}

} // verus!
