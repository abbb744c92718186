//! Capture identifiers: the 12-character base64url encoding of 72 random
//! bits, and the check that an identifier taken from a URL is well formed.

use vstd::prelude::*;
use vstd::utf8::encode_utf8;
use crate::text::{chars_of, push_char};

verus! {

/// Characters allowed in a capture identifier: ASCII letters, digits, `-` and `_`.
pub open spec fn is_id_char(c: char) -> bool {
    ||| ('A' <= c && c <= 'Z')
    ||| ('a' <= c && c <= 'z')
    ||| ('0' <= c && c <= '9')
    ||| c == '-'
    ||| c == '_'
}

/// A well-formed identifier: 8 to 64 bytes long (UTF-8), every character an id character.
pub open spec fn is_valid_id(s: Seq<char>) -> bool {
    &&& 8 <= encode_utf8(s).len() <= 64
    &&& forall|i: int| 0 <= i < s.len() ==> is_id_char(#[trigger] s[i])
}

/// Whether `id` is a well-formed capture identifier.
pub fn valid_id(id: &str) -> (ok: bool)
    ensures
        ok == is_valid_id(id@),
{
    let cs = chars_of(id);
    let m = cs.len();
    for i in 0..m
        invariant
            m == cs@.len(),
            cs@ == id@,
            forall|k: int| 0 <= k < i ==> is_id_char(#[trigger] cs@[k]),
    {
        let c = cs[i];
        let ok_char = ('A' <= c && c <= 'Z') || ('a' <= c && c <= 'z') || ('0' <= c && c <= '9')
            || c == '-' || c == '_';
        if !ok_char {
            return false;
        }
    }
    proof {
        lemma_id_chars_are_ascii(id@);
    }
    8 <= m && m <= 64
}

/// A sequence of id characters is ASCII, so its UTF-8 encoding has one byte per character.
proof fn lemma_id_chars_are_ascii(s: Seq<char>)
    requires
        forall|i: int| 0 <= i < s.len() ==> is_id_char(#[trigger] s[i]),
    ensures
        encode_utf8(s).len() == s.len(),
{
    assert(vstd::utf8::is_ascii_chars(s));
    vstd::utf8::is_ascii_chars_encode_utf8(s);
}


/// The base64url alphabet: digit `d` (0..64) names `A`-`Z`, `a`-`z`, `0`-`9`, `-`, `_` in that order.
pub open spec fn id_alphabet(d: int) -> char {
    if d < 26 {
        (65 + d) as char
    } else if d < 52 {
        (97 + (d - 26)) as char
    } else if d < 62 {
        (48 + (d - 52)) as char
    } else if d == 62 {
        '-'
    } else {
        '_'
    }
}

/// The number whose big-endian base-256 digits are `bytes`.
pub open spec fn be_value(bytes: Seq<u8>) -> nat
    decreases bytes.len(),
{
    if bytes.len() == 0 {
        0
    } else {
        be_value(bytes.drop_last()) * 256 + bytes.last() as nat
    }
}

/// The `count` base-64 digits of `n`, least significant first, written in the id alphabet.
pub open spec fn id_text(n: nat, count: nat) -> Seq<char>
    decreases count,
{
    if count == 0 {
        seq![]
    } else {
        seq![id_alphabet((n % 64) as int)] + id_text(n / 64, (count - 1) as nat)
    }
}

/// The identifier for nine bytes of randomness: the 72-bit big-endian value of
/// `bytes`, as 12 base64url digits, least significant digit first.
pub open spec fn id_for(bytes: Seq<u8>) -> Seq<char> {
    id_text(be_value(bytes), 12)
}

/// The character of the id alphabet for a digit below 64.
fn alphabet_char(d: u8) -> (c: char)
    requires
        d < 64,
    ensures
        c == id_alphabet(d as int),
{
    if d < 26 {
        (65u8 + d) as char
    } else if d < 52 {
        (97u8 + (d - 26)) as char
    } else if d < 62 {
        (48u8 + (d - 52)) as char
    } else if d == 62 {
        '-'
    } else {
        '_'
    }
}

proof fn lemma_shift_in_byte(n: u128, b: u8)
    requires
        n < 0x1_0000_0000_0000_0000,
    ensures
        (n << 8u128) | (b as u128) == n * 256 + b,
{
    assert((n << 8u128) | (b as u128) == n * 256 + b) by (bit_vector)
        requires
            n < 0x1_0000_0000_0000_0000,
    ;
}

proof fn lemma_low_digit(m: u128)
    ensures
        m & 63 == m % 64,
        m >> 6u128 == m / 64,
{
    assert(m & 63 == m % 64) by (bit_vector);
    assert(m >> 6u128 == m / 64) by (bit_vector);
}

spec fn pow256(k: nat) -> nat
    decreases k,
{
    if k == 0 {
        1
    } else {
        256 * pow256((k - 1) as nat)
    }
}

proof fn lemma_be_value_below_pow(bytes: Seq<u8>)
    ensures
        be_value(bytes) < pow256(bytes.len()),
    decreases bytes.len(),
{
    if bytes.len() > 0 {
        lemma_be_value_below_pow(bytes.drop_last());
    }
}

proof fn lemma_be_value_bound_k(bytes: Seq<u8>)
    requires
        bytes.len() <= 8,
    ensures
        be_value(bytes) < 0x1_0000_0000_0000_0000,
{
    lemma_be_value_below_pow(bytes);
    lemma_pow256_mono(bytes.len(), 8);
    reveal_with_fuel(pow256, 9);
    assert(pow256(8) == 0x1_0000_0000_0000_0000);
}

proof fn lemma_pow256_mono(a: nat, b: nat)
    requires
        a <= b,
    ensures
        pow256(a) <= pow256(b),
    decreases b,
{
    if a < b {
        lemma_pow256_mono(a, (b - 1) as nat);
    }
}

/// The 12-character identifier for nine bytes of randomness.
pub fn encode_id(bytes: &[u8; 9]) -> (id: String)
    ensures
        id@ == id_for(bytes@),
        id@.len() == 12,
        is_valid_id(id@),
{
    proof {
        lemma_generated_id_is_valid(bytes@);
    }
    let mut n: u128 = 0;
    for i in 0..9
        invariant
            bytes@.len() == 9,
            n == be_value(bytes@.take(i as int)),
    {
        proof {
            lemma_be_value_bound_k(bytes@.take(i as int));
            lemma_shift_in_byte(n, bytes[i as int]);
            assert(bytes@.take(i + 1).drop_last() =~= bytes@.take(i as int));
        }
        n = (n << 8u128) | (bytes[i] as u128);
    }
    assert(bytes@.take(9) =~= bytes@);
    let ghost total = n as nat;
    let mut out = String::new();
    let mut m: u128 = n;
    for k in 0..12
        invariant
            out@ + id_text(m as nat, (12 - k) as nat) == id_text(total, 12),
    {
        proof {
            lemma_low_digit(m);
        }
        let d = (m & 63) as u8;
        let ghost before = out@;
        let ghost old_m = m as nat;
        push_char(&mut out, alphabet_char(d));
        m = m >> 6u128;
        assert(out@ + id_text(m as nat, (12 - (k + 1)) as nat) =~= before + id_text(
            old_m,
            (12 - k) as nat,
        ));
    }
    out
}

/// The nine bytes used when the system gives no randomness: the eight bytes of
/// `hash` in big-endian order, then the low byte of `nanos`.
pub fn fallback_id_bytes(hash: u64, nanos: u128) -> (bytes: [u8; 9])
    ensures
        be_value(bytes@.take(8)) == hash,
        bytes@[8] == nanos % 256,
{
    let b0 = #[verifier::truncate] ((hash >> 56u64) as u8);
    let b1 = #[verifier::truncate] (((hash >> 48u64) & 0xff) as u8);
    let b2 = #[verifier::truncate] (((hash >> 40u64) & 0xff) as u8);
    let b3 = #[verifier::truncate] (((hash >> 32u64) & 0xff) as u8);
    let b4 = #[verifier::truncate] (((hash >> 24u64) & 0xff) as u8);
    let b5 = #[verifier::truncate] (((hash >> 16u64) & 0xff) as u8);
    let b6 = #[verifier::truncate] (((hash >> 8u64) & 0xff) as u8);
    let b7 = #[verifier::truncate] ((hash & 0xff) as u8);
    let last = #[verifier::truncate] ((nanos & 0xff) as u8);
    let bytes = [b0, b1, b2, b3, b4, b5, b6, b7, last];
    proof {
        assert(hash == ((((((b0 as int * 256 + b1) * 256 + b2) * 256 + b3) * 256 + b4) * 256 + b5)
            * 256 + b6) * 256 + b7) by (bit_vector)
            requires
                b0 == (hash >> 56u64) as u8,
                b1 == ((hash >> 48u64) & 0xff) as u8,
                b2 == ((hash >> 40u64) & 0xff) as u8,
                b3 == ((hash >> 32u64) & 0xff) as u8,
                b4 == ((hash >> 24u64) & 0xff) as u8,
                b5 == ((hash >> 16u64) & 0xff) as u8,
                b6 == ((hash >> 8u64) & 0xff) as u8,
                b7 == (hash & 0xff) as u8,
        ;
        assert(last == nanos % 256) by (bit_vector)
            requires
                last == (nanos & 0xff) as u8,
        ;
        let q = bytes@;
        assert(q[0] == b0 && q[1] == b1 && q[2] == b2 && q[3] == b3 && q[4] == b4 && q[5] == b5 && q[6] == b6 && q[7] == b7 && q[8] == last);
        assert(be_value(q.take(0)) == 0);
        lemma_be_value_step(q, 1);
        lemma_be_value_step(q, 2);
        lemma_be_value_step(q, 3);
        lemma_be_value_step(q, 4);
        lemma_be_value_step(q, 5);
        lemma_be_value_step(q, 6);
        lemma_be_value_step(q, 7);
        lemma_be_value_step(q, 8);
    }
    bytes
}

/// Appending one byte multiplies the value by 256 and adds the byte.
proof fn lemma_be_value_step(q: Seq<u8>, k: int)
    requires
        0 < k <= q.len(),
    ensures
        be_value(q.take(k)) == be_value(q.take(k - 1)) * 256 + q[k - 1],
{
    assert(q.take(k).drop_last() =~= q.take(k - 1));
}

spec fn pow64(k: nat) -> nat
    decreases k,
{
    if k == 0 {
        1
    } else {
        64 * pow64((k - 1) as nat)
    }
}

proof fn lemma_id_text_shape(n: nat, count: nat)
    ensures
        id_text(n, count).len() == count,
        forall|i: int| 0 <= i < count ==> is_id_char(#[trigger] id_text(n, count)[i]),
    decreases count,
{
    if count > 0 {
        lemma_id_text_shape(n / 64, (count - 1) as nat);
        let d = (n % 64) as int;
        assert(is_id_char(id_alphabet(d)));
        let rest = id_text(n / 64, (count - 1) as nat);
        assert forall|i: int| 0 <= i < count implies is_id_char(#[trigger] id_text(n, count)[i]) by {
            if i > 0 {
                assert(id_text(n, count)[i] == rest[i - 1]);
            }
        }
    }
}

proof fn lemma_alphabet_injective(d: int, e: int)
    requires
        0 <= d < 64,
        0 <= e < 64,
        id_alphabet(d) == id_alphabet(e),
    ensures
        d == e,
{
    let cd = id_alphabet(d);
    let ce = id_alphabet(e);
    assert(cd as int == ce as int);
}

proof fn lemma_id_text_injective(n: nat, m: nat, count: nat)
    requires
        n < pow64(count),
        m < pow64(count),
        id_text(n, count) == id_text(m, count),
    ensures
        n == m,
    decreases count,
{
    if count > 0 {
        let tn = id_text(n, count);
        let tm = id_text(m, count);
        assert(tn[0] == tm[0]);
        lemma_alphabet_injective((n % 64) as int, (m % 64) as int);
        assert(id_text(n / 64, (count - 1) as nat) =~= tn.skip(1));
        assert(id_text(m / 64, (count - 1) as nat) =~= tm.skip(1));
        lemma_id_text_injective(n / 64, m / 64, (count - 1) as nat);
    }
}

proof fn lemma_be_value_injective(a: Seq<u8>, b: Seq<u8>)
    requires
        a.len() == b.len(),
        be_value(a) == be_value(b),
    ensures
        a == b,
    decreases a.len(),
{
    if a.len() > 0 {
        let x = be_value(a.drop_last());
        let y = be_value(b.drop_last());
        assert(a.last() as int == (x * 256 + a.last()) % 256);
        assert(b.last() as int == (y * 256 + b.last()) % 256);
        assert(x == (x * 256 + a.last()) / 256);
        assert(y == (y * 256 + b.last()) / 256);
        lemma_be_value_injective(a.drop_last(), b.drop_last());
        assert(a =~= a.drop_last().push(a.last()));
        assert(b =~= b.drop_last().push(b.last()));
    }
}

/// Every identifier made from nine bytes is 12 characters long and passes `valid_id`.
pub proof fn lemma_generated_id_is_valid(bytes: Seq<u8>)
    ensures
        id_for(bytes).len() == 12,
        is_valid_id(id_for(bytes)),
{
    lemma_id_text_shape(be_value(bytes), 12);
    lemma_id_chars_are_ascii(id_for(bytes));
}

/// Distinct nine-byte inputs give distinct identifiers: the encoding loses nothing,
/// so identifiers are as unique as the randomness behind them.
pub proof fn lemma_id_encoding_injective(a: Seq<u8>, b: Seq<u8>)
    requires
        a.len() == 9,
        b.len() == 9,
        id_for(a) == id_for(b),
    ensures
        a == b,
{
    lemma_be_value_below_pow(a);
    lemma_be_value_below_pow(b);
    reveal_with_fuel(pow256, 10);
    reveal_with_fuel(pow64, 13);
    assert(pow256(9) == pow64(12));
    lemma_id_text_injective(be_value(a), be_value(b), 12);
    lemma_be_value_injective(a, b);
}

/// A valid identifier holds neither `.` nor `/`, so it cannot name a path outside the store.
pub proof fn lemma_valid_id_is_path_safe(s: Seq<char>)
    requires
        is_valid_id(s),
    ensures
        !s.contains('.'),
        !s.contains('/'),
{
}

} // verus!
