use vstd::prelude::*;
use vstd::string::StringSliceAdditionalSpecFns;

use crate::text::lex_lt;

verus! {

/// Milliseconds since the UNIX epoch, read from the system clock with
/// `SystemTime::now` and `duration_since(UNIX_EPOCH)`: `None` when the clock
/// stands before the epoch (the error of `duration_since`). Nothing is
/// promised of the value.
#[verifier::external_body]
fn clock_msec() -> Option<u64> {
    match std::time::SystemTime::now().duration_since(std::time::UNIX_EPOCH) {
        Ok(d) => Some(d.as_millis() as u64),
        Err(_) => None,
    }
}

/// Milliseconds since the UNIX epoch; a clock set before the epoch reads as
/// the epoch itself, 0.
pub fn now_msec() -> u64 {
    match clock_msec() {
        Some(t) => t,
        None => 0,
    }
}

/// A random 64-bit number from `rand`'s thread-local generator
/// (`rand::Rng::gen::<u64>`). Nothing is promised of the value.
#[verifier::external_body]
pub(crate) fn random_u64() -> u64 {
    rand::Rng::gen::<u64>(&mut rand::thread_rng())
}

/// The error `hex::decode` reports.
#[verifier::external_type_specification]
#[verifier::external_body]
pub struct ExFromHexError(hex::FromHexError);

/// The lowercase hexadecimal digit of a nibble.
pub open spec fn hex_digit(n: u8) -> char {
    if n < 10 {
        (('0' as u8) + n) as char
    } else {
        (('a' as u8) + n - 10) as char
    }
}

/// The lowercase hexadecimal text of a byte string: two digits per byte,
/// high nibble first.
pub open spec fn hex_lower(b: Seq<u8>) -> Seq<char> {
    Seq::new(
        2 * b.len(),
        |i: int| if i % 2 == 0 { hex_digit(b[i / 2] / 16) } else { hex_digit(b[i / 2] % 16) },
    )
}

/// The value of a hexadecimal digit, either case; `None` for any other byte.
pub open spec fn hex_val(c: u8) -> Option<u8> {
    if 48 <= c <= 57 {
        Some((c - 48) as u8)
    } else if 65 <= c <= 70 {
        Some((c - 55) as u8)
    } else if 97 <= c <= 102 {
        Some((c - 87) as u8)
    } else {
        None
    }
}

/// Whether `hex::decode` accepts a byte string: an even number of
/// hexadecimal digits.
pub open spec fn hex_decodable(s: Seq<u8>) -> bool {
    s.len() % 2 == 0 && forall|i: int| 0 <= i < s.len() ==> (#[trigger] hex_val(s[i])) is Some
}

/// What `hex::decode` gives for a decodable byte string.
pub open spec fn hex_decoded(s: Seq<u8>) -> Seq<u8> {
    Seq::new(
        s.len() / 2,
        |i: int| (hex_val(s[2 * i])->0 * 16 + hex_val(s[2 * i + 1])->0) as u8,
    )
}

/// `hex::encode`: lowercase hexadecimal text, two digits per byte.
#[verifier::external_body]
fn hex_encode(data: &[u8]) -> (r: String)
    ensures
        r@ == hex_lower(data@),
{
    hex::encode(data)
}

/// `hex::decode`: an even number of hexadecimal digits of either case
/// decode to one byte per pair; anything else is an error.
#[verifier::external_body]
fn hex_decode(data: &[u8]) -> (r: Result<Vec<u8>, hex::FromHexError>)
    ensures
        r is Ok <==> hex_decodable(data@),
        r matches Ok(v) ==> v@ == hex_decoded(data@),
{
    hex::decode(data)
}

/// A log timestamp: milliseconds, then random bits that order operations
/// made in the same millisecond.
#[derive(Clone, Copy, PartialEq, Eq, PartialOrd, Ord, Debug)]
pub struct Timestamp {
    pub msec: u64,
    pub rand: u64,
}

/// The order of timestamps: by milliseconds, then by random bits.
pub open spec fn ts_lt(a: Timestamp, b: Timestamp) -> bool {
    a.msec < b.msec || (a.msec == b.msec && a.rand < b.rand)
}

/// The eight big-endian bytes of a number.
pub open spec fn be_bytes(x: u64) -> Seq<u8> {
    Seq::new(8, |i: int| ((x as int / pow256(7 - i)) % 256) as u8)
}

/// 256 to the power `n`.
pub open spec fn pow256(n: int) -> int
    decreases n,
{
    if n <= 0 {
        1
    } else {
        256 * pow256(n - 1)
    }
}

/// The sixteen bytes a timestamp is written as.
pub open spec fn ts_bytes(t: Timestamp) -> Seq<u8> {
    be_bytes(t.msec) + be_bytes(t.rand)
}

/// The number that eight big-endian bytes stand for.
pub open spec fn be_value(b: Seq<u8>) -> int
    decreases b.len(),
{
    if b.len() == 0 {
        0
    } else {
        be_value(b.drop_last()) * 256 + b.last()
    }
}

/// The timestamp that a text of these bytes stands for, if it is one: 32
/// hexadecimal digits, big-endian milliseconds then random bits.
pub open spec fn ts_parse(b: Seq<u8>) -> Option<Timestamp> {
    if hex_decodable(b) && hex_decoded(b).len() == 16 {
        Some(
            Timestamp {
                msec: be_value(hex_decoded(b).take(8)) as u64,
                rand: be_value(hex_decoded(b).skip(8)) as u64,
            },
        )
    } else {
        None
    }
}

/// Whether a timestamp is strictly before another.
pub fn ts_less(a: &Timestamp, b: &Timestamp) -> (r: bool)
    ensures
        r == ts_lt(*a, *b),
{
    a.msec < b.msec || (a.msec == b.msec && a.rand < b.rand)
}

impl Timestamp {
    /// The current time, with fresh random bits. Nothing is promised of the value.
    pub fn now() -> Self {
        Timestamp { msec: now_msec(), rand: random_u64() }
    }

    /// A timestamp strictly after `other`: the current time, or one
    /// millisecond after `other` if the clock lags behind it.
    pub fn after(other: &Self) -> (r: Self)
        requires
            other.msec < u64::MAX,
        ensures
            r.msec > other.msec,
            ts_lt(*other, r),
    {
        Self::after_at(other, now_msec(), random_u64())
    }

    /// `after` with the clock reading and the random bits given.
    pub fn after_at(other: &Self, now: u64, rand: u64) -> (r: Self)
        requires
            other.msec < u64::MAX,
        ensures
            r.msec == if now > other.msec + 1 { now as int } else { other.msec + 1 },
            r.rand == rand,
    {
        let next = other.msec + 1;
        let msec = if now > next { now } else { next };
        Timestamp { msec, rand }
    }

    /// The zero timestamp, before every other.
    pub fn zero() -> (r: Self)
        ensures
            r.msec == 0 && r.rand == 0,
    {
        Timestamp { msec: 0, rand: 0 }
    }

    /// The 32 lowercase hexadecimal digits of the big-endian milliseconds
    /// followed by the big-endian random bits.
    pub fn to_string(&self) -> (r: String)
        ensures
            r@ == hex_lower(ts_bytes(*self)),
    {
        let mut bytes: Vec<u8> = Vec::new();
        push_be(&mut bytes, self.msec);
        push_be(&mut bytes, self.rand);
        hex_encode(bytes.as_slice())
    }

    /// Reads the form `to_string` writes (either case): an error if the text
    /// is not hexadecimal or does not hold sixteen bytes.
    pub fn from_str(s: &str) -> (r: Result<Timestamp, &'static str>)
        ensures
            !hex_decodable(s.spec_bytes()) ==> r == Err::<Timestamp, &'static str>("invalid hex"),
            hex_decodable(s.spec_bytes()) && hex_decoded(s.spec_bytes()).len() != 16
                ==> r == Err::<Timestamp, &'static str>("bad length"),
            hex_decodable(s.spec_bytes()) && hex_decoded(s.spec_bytes()).len() == 16 ==> (r matches Ok(t)
                && t.msec == be_value(hex_decoded(s.spec_bytes()).take(8))
                && t.rand == be_value(hex_decoded(s.spec_bytes()).skip(8))),
            match r {
                Ok(t) => ts_parse(s.spec_bytes()) == Some(t),
                Err(_) => ts_parse(s.spec_bytes()) is None,
            },
    {
        let bytes = match hex_decode(s.as_bytes()) {
            Ok(b) => b,
            Err(_) => return Err("invalid hex"),
        };
        if bytes.len() != 16 {
            return Err("bad length");
        }
        let msec = read_be(&bytes, 0);
        let rand = read_be(&bytes, 8);
        proof {
            assert(bytes@.subrange(0, 8) =~= bytes@.take(8));
            assert(bytes@.subrange(8, 16) =~= bytes@.skip(8));
        }
        Ok(Timestamp { msec, rand })
    }
}

/// Appends the eight big-endian bytes of `x`.
fn push_be(v: &mut Vec<u8>, x: u64)
    ensures
        final(v)@ == old(v)@ + be_bytes(x),
{
    let ghost start = v@;
    let mut i: usize = 0;
    while i < 8
        invariant
            i <= 8,
            v@ == start + be_bytes(x).take(i as int),
        decreases 8 - i,
    {
        let shift: u64 = (7 - i as u64) * 8;
        let byte: u8 = ((x >> shift) & 0xff) as u8;
        proof {
            lemma_be_byte(x, i as int);
            assert(byte == be_bytes(x)[i as int]) by {
                assert(shift == (7 - i) * 8);
            }
            assert(be_bytes(x).take(i + 1) == be_bytes(x).take(i as int).push(be_bytes(x)[i as int]));
        }
        v.push(byte);
        i = i + 1;
    }
    proof {
        assert(be_bytes(x).take(8) =~= be_bytes(x));
    }
}

/// The byte at position `i` of the big-endian form is a shift and a mask.
proof fn lemma_be_byte(x: u64, i: int)
    requires
        0 <= i < 8,
    ensures
        ((x >> (((7 - i) * 8) as u64)) & 0xff) as u8 == be_bytes(x)[i],
{
    let s: u64 = ((7 - i) * 8) as u64;
    lemma_shift_is_div(x, s);
    lemma_pow256_shift(7 - i);
    assert((x >> s) & 0xff == (x >> s) % 256) by (bit_vector);
}

/// A right shift divides by a power of two.
proof fn lemma_shift_is_div(x: u64, s: u64)
    requires
        s <= 56,
        s % 8 == 0,
    ensures
        (x >> s) as int == x as int / pow256((s / 8) as int),
{
    vstd::bits::lemma_u64_shr_is_div(x, s);
    lemma_pow256_is_pow2((s / 8) as int);
    assert(s == 8 * (s / 8));
}

/// 256 to the power `n` is 2 to the power `8 n`.
proof fn lemma_pow256_is_pow2(n: int)
    requires
        0 <= n,
    ensures
        pow256(n) == vstd::arithmetic::power2::pow2((8 * n) as nat),
    decreases n,
{
    if n > 0 {
        lemma_pow256_is_pow2(n - 1);
        vstd::arithmetic::power2::lemma_pow2_adds((8 * (n - 1)) as nat, 8);
        vstd::arithmetic::power2::lemma2_to64();
    } else {
        vstd::arithmetic::power2::lemma2_to64();
    }
}

/// A name for the shift amount of byte `7 - k`.
proof fn lemma_pow256_shift(k: int)
    requires
        0 <= k < 8,
    ensures
        (((k * 8) as u64) / 8) as int == k,
{
}

/// The number held by the eight big-endian bytes `b[from..from + 8]`.
fn read_be(b: &Vec<u8>, from: usize) -> (r: u64)
    requires
        from + 8 <= b@.len(),
    ensures
        r == be_value(b@.subrange(from as int, from + 8)),
{
    let mut acc: u64 = 0;
    let mut i: usize = 0;
    let n = b.len();
    while i < 8
        invariant
            i <= 8,
            n == b@.len(),
            from + 8 <= b@.len(),
            acc == be_value(b@.subrange(from as int, from + i)),
            acc < pow256(i as int),
        decreases 8 - i,
    {
        proof {
            let s = b@.subrange(from as int, from + i + 1);
            assert(s.drop_last() =~= b@.subrange(from as int, from + i));
            assert(pow256(i + 1) == 256 * pow256(i as int));
            reveal_with_fuel(pow256, 8);
            assert(pow256(7) == 0x100000000000000);
            lemma_pow256_mono(i as int, 7);
            assert(acc * 256 + b@[from + i] < 256 * pow256(i as int)) by (nonlinear_arith)
                requires acc < pow256(i as int), b@[from + i] < 256;
        }
        let byte: u8 = b[from + i];
        assert(acc * 256 + byte < 0x10000000000000000);
        acc = acc * 256 + byte as u64;
        i = i + 1;
    }
    acc
}

/// `pow256` grows with its exponent.
proof fn lemma_pow256_mono(a: int, b: int)
    requires
        0 <= a <= b,
    ensures
        pow256(a) <= pow256(b),
    decreases b - a,
{
    if a < b {
        lemma_pow256_mono(a, b - 1);
        lemma_pow256_pos(b - 1);
        assert(pow256(b) == 256 * pow256(b - 1));
    }
}

/// `pow256` is positive.
proof fn lemma_pow256_pos(n: int)
    ensures
        pow256(n) > 0,
    decreases n,
{
    if n > 0 {
        lemma_pow256_pos(n - 1);
    }
}

/// Reading back the first `k` big-endian bytes of `x` gives `x` without its
/// last `8 - k` bytes.
proof fn lemma_be_value_prefix(x: u64, k: int)
    requires
        0 <= k <= 8,
    ensures
        be_value(be_bytes(x).take(k)) == x as int / pow256(8 - k),
    decreases k,
{
    lemma_pow256_pos(8 - k);
    if k == 0 {
        assert(be_bytes(x).take(0) == Seq::<u8>::empty());
        reveal_with_fuel(pow256, 9);
        assert(pow256(8) == 0x10000000000000000);
        assert(x as int / pow256(8) == 0) by (nonlinear_arith)
            requires x < 0x10000000000000000, pow256(8) == 0x10000000000000000;
    } else {
        lemma_be_value_prefix(x, k - 1);
        let s = be_bytes(x).take(k);
        assert(s.drop_last() == be_bytes(x).take(k - 1));
        assert(s.last() == be_bytes(x)[k - 1]);
        let p = pow256(8 - k);
        lemma_pow256_pos(8 - k);
        assert(pow256(8 - (k - 1)) == 256 * p);
        let y = x as int / p;
        assert(be_bytes(x)[k - 1] == (y % 256) as u8);
        vstd::arithmetic::div_mod::lemma_div_denominator(x as int, p, 256);
        assert(x as int / (p * 256) == y / 256);
        assert(256 * p == p * 256) by (nonlinear_arith);
        vstd::arithmetic::div_mod::lemma_fundamental_div_mod(y, 256);
        assert(y % 256 < 256) by {
            vstd::arithmetic::div_mod::lemma_mod_bound(y, 256);
        }
        assert(y >= 0) by {
            vstd::arithmetic::div_mod::lemma_div_pos_is_pos(x as int, p);
        }
    }
}

/// The value of a lowercase hexadecimal digit is the nibble it was made from.
proof fn lemma_hex_digit_val(n: u8)
    requires
        n < 16,
    ensures
        '\0' <= hex_digit(n) <= '\u{7f}',
        hex_val(hex_digit(n) as u8) == Some(n),
{
}

/// What `to_string` writes, `from_str` reads back: a timestamp survives
/// being written as text and read again.
#[verifier::spinoff_prover]
#[verifier::rlimit(40)]
pub proof fn law_timestamp_text_roundtrip(t: Timestamp)
    ensures
        ts_parse(vstd::utf8::encode_utf8(hex_lower(ts_bytes(t)))) == Some(t),
{
    let b = ts_bytes(t);
    let cs = hex_lower(b);
    assert forall|i: int| 0 <= i < cs.len() implies '\0' <= #[trigger] cs[i] <= '\u{7f}' by {
        if i % 2 == 0 {
            lemma_hex_digit_val(b[i / 2] / 16);
        } else {
            lemma_hex_digit_val(b[i / 2] % 16);
        }
    }
    vstd::utf8::is_ascii_chars_encode_utf8(cs);
    let e = vstd::utf8::encode_utf8(cs);
    assert(e.len() == 32);
    assert forall|i: int| 0 <= i < e.len() implies (#[trigger] hex_val(e[i])) is Some && hex_val(e[i])->0 == (
    if i % 2 == 0 {
        b[i / 2] / 16
    } else {
        b[i / 2] % 16
    }) by {
        assert(e[i] == cs[i] as u8);
        if i % 2 == 0 {
            lemma_hex_digit_val(b[i / 2] / 16);
        } else {
            lemma_hex_digit_val(b[i / 2] % 16);
        }
    }
    assert(hex_decodable(e));
    assert(hex_decoded(e) =~= b) by {
        assert forall|k: int| 0 <= k < 16 implies hex_decoded(e)[k] == b[k] by {
            assert((2 * k) % 2 == 0);
            assert((2 * k + 1) % 2 == 1);
            assert((2 * k) / 2 == k);
            assert((2 * k + 1) / 2 == k);
        }
    }
    assert(b.take(8) == be_bytes(t.msec));
    assert(b.skip(8) == be_bytes(t.rand));
    lemma_be_value_prefix(t.msec, 8);
    lemma_be_value_prefix(t.rand, 8);
    assert(be_bytes(t.msec).take(8) == be_bytes(t.msec));
    assert(be_bytes(t.rand).take(8) == be_bytes(t.rand));
    assert(pow256(0) == 1);
    assert(pow256(8 - 8) == 1);
    assert(t.msec as int / pow256(8 - 8) == t.msec) by (nonlinear_arith)
        requires
            pow256(8 - 8) == 1,
    ;
    assert(t.rand as int / pow256(8 - 8) == t.rand) by (nonlinear_arith)
        requires
            pow256(8 - 8) == 1,
    ;
    assert(hex_decoded(e).take(8) == be_bytes(t.msec));
    assert(hex_decoded(e).skip(8) == be_bytes(t.rand));
    assert(be_value(hex_decoded(e).take(8)) == t.msec);
    assert(be_value(hex_decoded(e).skip(8)) == t.rand);
    assert(hex_decoded(e).len() == 16);
}

/// 16 to the power `n`.
pub open spec fn pow16(n: int) -> int
    decreases n,
{
    if n <= 0 {
        1
    } else {
        16 * pow16(n - 1)
    }
}

/// The number hexadecimal digits stand for, the most significant first.
pub open spec fn digits_value(d: Seq<int>) -> int
    decreases d.len(),
{
    if d.len() == 0 {
        0
    } else {
        d[0] * pow16(d.len() - 1) + digits_value(d.drop_first())
    }
}

/// The `k` lowest hexadecimal digits of `x`, the most significant first.
pub open spec fn nibbles(x: int, k: int) -> Seq<int> {
    Seq::new(k as nat, |i: int| (x / pow16(k - 1 - i)) % 16)
}

/// The lowercase characters of hexadecimal digits.
pub open spec fn hex_chars(d: Seq<int>) -> Seq<char> {
    Seq::new(d.len(), |i: int| hex_digit(d[i] as u8))
}

/// Whether every element is a hexadecimal digit.
pub open spec fn all_nibbles(d: Seq<int>) -> bool {
    forall|i: int| 0 <= i < d.len() ==> 0 <= #[trigger] d[i] < 16
}

/// `pow16` is positive.
proof fn lemma_pow16_pos(n: int)
    ensures
        pow16(n) > 0,
    decreases n,
{
    if n > 0 {
        lemma_pow16_pos(n - 1);
    }
}

/// A power of 256 is the power of 16 with twice the exponent.
proof fn lemma_pow256_pow16(n: int)
    requires
        0 <= n,
    ensures
        pow256(n) == pow16(2 * n),
    decreases n,
{
    if n > 0 {
        lemma_pow256_pow16(n - 1);
        assert(pow16(2 * n) == 16 * pow16(2 * n - 1));
        assert(pow16(2 * n - 1) == 16 * pow16(2 * n - 2));
    }
}

/// Digits stand for a number below the next power of 16.
proof fn lemma_digits_bound(d: Seq<int>)
    requires
        all_nibbles(d),
    ensures
        0 <= digits_value(d) < pow16(d.len() as int),
    decreases d.len(),
{
    if d.len() > 0 {
        let r = d.drop_first();
        assert(all_nibbles(r)) by {
            assert forall|i: int| 0 <= i < r.len() implies 0 <= #[trigger] r[i] < 16 by {
                assert(r[i] == d[i + 1]);
            }
        }
        lemma_digits_bound(r);
        lemma_pow16_pos(d.len() - 1);
        let p = pow16(d.len() - 1);
        assert(pow16(d.len() as int) == 16 * p);
        let v = digits_value(r);
        assert(0 <= d[0] * p + v < 16 * p) by (nonlinear_arith)
            requires
                0 <= d[0] < 16,
                0 <= v < p,
                p > 0,
        ;
    }
}

/// Lowercase hexadecimal digits compare as the nibbles they stand for.
proof fn lemma_hex_digit_order(n: int, m: int)
    requires
        0 <= n < 16,
        0 <= m < 16,
    ensures
        ((hex_digit(n as u8) as int) < (hex_digit(m as u8) as int)) == (n < m),
        (hex_digit(n as u8) == hex_digit(m as u8)) == (n == m),
{
}

/// Digit strings of the same length compare, character by character, as
/// the numbers they stand for.
proof fn lemma_hex_chars_order(d1: Seq<int>, d2: Seq<int>)
    requires
        d1.len() == d2.len(),
        all_nibbles(d1),
        all_nibbles(d2),
    ensures
        lex_lt(hex_chars(d1), hex_chars(d2)) == (digits_value(d1) < digits_value(d2)),
    decreases d1.len(),
{
    if d1.len() > 0 {
        let (c1, c2) = (hex_chars(d1), hex_chars(d2));
        let (r1, r2) = (d1.drop_first(), d2.drop_first());
        assert(all_nibbles(r1)) by {
            assert forall|i: int| 0 <= i < r1.len() implies 0 <= #[trigger] r1[i] < 16 by {
                assert(r1[i] == d1[i + 1]);
            }
        }
        assert(all_nibbles(r2)) by {
            assert forall|i: int| 0 <= i < r2.len() implies 0 <= #[trigger] r2[i] < 16 by {
                assert(r2[i] == d2[i + 1]);
            }
        }
        assert(c1.drop_first() =~= hex_chars(r1));
        assert(c2.drop_first() =~= hex_chars(r2));
        lemma_hex_digit_order(d1[0], d2[0]);
        lemma_digits_bound(r1);
        lemma_digits_bound(r2);
        lemma_pow16_pos(d1.len() - 1);
        let p = pow16(d1.len() - 1);
        let (v1, v2) = (digits_value(r1), digits_value(r2));
        if d1[0] != d2[0] {
            assert((d1[0] < d2[0]) == (d1[0] * p + v1 < d2[0] * p + v2)) by (nonlinear_arith)
                requires
                    0 <= v1 < p,
                    0 <= v2 < p,
                    d1[0] != d2[0],
            ;
        } else {
            lemma_hex_chars_order(r1, r2);
        }
    }
}

/// The `k` lowest digits of a number stand for its remainder by `16^k`.
proof fn lemma_nibbles_value(x: int, k: int)
    requires
        0 <= x,
        0 <= k,
    ensures
        digits_value(nibbles(x, k)) == x % pow16(k),
        all_nibbles(nibbles(x, k)),
    decreases k,
{
    let d = nibbles(x, k);
    assert forall|i: int| 0 <= i < d.len() implies 0 <= #[trigger] d[i] < 16 by {
        lemma_pow16_pos(k - 1 - i);
        vstd::arithmetic::div_mod::lemma_mod_bound(x / pow16(k - 1 - i), 16);
    }
    if k == 0 {
        assert(x % 1 == 0);
    } else {
        lemma_nibbles_value(x, k - 1);
        assert(d.drop_first() =~= nibbles(x, k - 1));
        let p = pow16(k - 1);
        lemma_pow16_pos(k - 1);
        vstd::arithmetic::div_mod::lemma_mod_breakdown(x, p, 16);
        assert(pow16(k) == p * 16);
        assert(d[0] == (x / p) % 16);
        assert(p * ((x / p) % 16) == ((x / p) % 16) * p) by (nonlinear_arith);
    }
}

/// The hexadecimal text of the big-endian bytes of a number is the text of
/// its sixteen digits.
proof fn lemma_hex_be_bytes(x: u64)
    ensures
        hex_lower(be_bytes(x)) == hex_chars(nibbles(x as int, 16)),
{
    let h = hex_lower(be_bytes(x));
    let c = hex_chars(nibbles(x as int, 16));
    assert forall|i: int| 0 <= i < 16 implies #[trigger] h[i] == c[i] by {
        let j = i / 2;
        let pb = pow256(7 - j);
        lemma_pow256_pow16(7 - j);
        lemma_pow16_pos(14 - 2 * j);
        assert(pb == pow16(14 - 2 * j));
        let q = x as int / pb;
        assert(q >= 0) by {
            vstd::arithmetic::div_mod::lemma_div_pos_is_pos(x as int, pb);
        }
        let byte = be_bytes(x)[j];
        assert(byte == (q % 256) as u8);
        vstd::arithmetic::div_mod::lemma_mod_bound(q, 256);
        vstd::arithmetic::div_mod::lemma_mod_breakdown(q, 16, 16);
        vstd::arithmetic::div_mod::lemma_mod_bound(q, 16);
        vstd::arithmetic::div_mod::lemma_mod_bound(q / 16, 16);
        let hi = (q / 16) % 16;
        let lo = q % 16;
        assert(q % 256 == 16 * hi + lo);
        assert(byte / 16 == hi && byte % 16 == lo) by (nonlinear_arith)
            requires
                byte == 16 * hi + lo,
                0 <= hi < 16,
                0 <= lo < 16,
        ;
        if i % 2 == 0 {
            assert(i == 2 * j);
            vstd::arithmetic::div_mod::lemma_div_denominator(x as int, pb, 16);
            assert(pow16(15 - i) == pb * 16);
            assert(nibbles(x as int, 16)[i] == hi);
        } else {
            assert(i == 2 * j + 1);
            assert(nibbles(x as int, 16)[i] == lo);
        }
    }
    assert(h =~= c);
}

/// Two texts made of pieces of the same lengths compare by their first
/// pieces, then, where those are equal, by their second.
proof fn lemma_lex_lt_concat(p1: Seq<char>, q1: Seq<char>, p2: Seq<char>, q2: Seq<char>)
    requires
        p1.len() == p2.len(),
    ensures
        lex_lt(p1 + q1, p2 + q2) == (lex_lt(p1, p2) || (p1 == p2 && lex_lt(q1, q2))),
    decreases p1.len(),
{
    if p1.len() == 0 {
        assert(p1 + q1 =~= q1);
        assert(p2 + q2 =~= q2);
        assert(p1 =~= p2);
    } else {
        assert((p1 + q1).drop_first() =~= p1.drop_first() + q1);
        assert((p2 + q2).drop_first() =~= p2.drop_first() + q2);
        lemma_lex_lt_concat(p1.drop_first(), q1, p2.drop_first(), q2);
        if p1[0] == p2[0] && p1.drop_first() == p2.drop_first() {
            assert(p1 =~= p2) by {
                assert(p1 =~= seq![p1[0]] + p1.drop_first());
                assert(p2 =~= seq![p2[0]] + p2.drop_first());
            }
        }
    }
}

/// The text of a number's bytes orders numbers as `<` does.
proof fn lemma_u64_text_order(x: u64, y: u64)
    ensures
        lex_lt(hex_lower(be_bytes(x)), hex_lower(be_bytes(y))) == (x < y),
        (hex_lower(be_bytes(x)) == hex_lower(be_bytes(y))) == (x == y),
{
    lemma_hex_be_bytes(x);
    lemma_hex_be_bytes(y);
    lemma_nibbles_value(x as int, 16);
    lemma_nibbles_value(y as int, 16);
    reveal_with_fuel(pow16, 17);
    assert(pow16(16) == 0x10000000000000000);
    assert(x as int % pow16(16) == x);
    assert(y as int % pow16(16) == y);
    lemma_hex_chars_order(nibbles(x as int, 16), nibbles(y as int, 16));
    lemma_hex_chars_order(nibbles(y as int, 16), nibbles(x as int, 16));
    crate::text::lemma_lex_lt_irreflexive(hex_lower(be_bytes(x)));
}

/// Timestamps and their texts are in the same order: `to_string` of one
/// timestamp is lexicographically before that of another exactly when the
/// first timestamp is before the second, so stored keys sort as the log.
pub proof fn law_timestamp_text_order(a: Timestamp, b: Timestamp)
    ensures
        ts_lt(a, b) == lex_lt(hex_lower(ts_bytes(a)), hex_lower(ts_bytes(b))),
{
    let (am, ar) = (hex_lower(be_bytes(a.msec)), hex_lower(be_bytes(a.rand)));
    let (bm, br) = (hex_lower(be_bytes(b.msec)), hex_lower(be_bytes(b.rand)));
    assert(hex_lower(ts_bytes(a)) =~= am + ar);
    assert(hex_lower(ts_bytes(b)) =~= bm + br);
    lemma_u64_text_order(a.msec, b.msec);
    lemma_u64_text_order(a.rand, b.rand);
    lemma_lex_lt_concat(am, ar, bm, br);
}

} // verus!
