//! Encoding of optional 64-bit floating point numbers.
//!
//! A number is handled as its IEEE-754 bit pattern. Two encodings are
//! offered: a fixed one of eight bytes, in which one pattern is set aside for
//! "no number", and a variable one, which stores the numbers that are small
//! integers in as little as one byte.

use crate::bytes::double::{
    compact_integer, float_as_i32, float_of_i32, has_integer_value, is_finite,
    lemma_compact_integer_injective, lemma_integer_value, NEGATIVE_ZERO,
};
use crate::bytes::varnum::{
    lemma_varnum_len, lemma_varnum_never_reserved, lemma_varnum_prefix_free, read_varnum,
    varnum_bytes, write_varnum, VARNUM_INVALID_ZERO_1, VARNUM_INVALID_ZERO_2,
};
use vstd::prelude::*;

verus! {

/// The pattern that stands for "no number" in the fixed encoding. Read as a
/// number it is a NaN; a number with this very pattern cannot be told from
/// "no number" once it is encoded.
pub const NONE_FLOAT_REPR: u64 = 0x7FF0_0000_0000_0001;

/// The bytes that announce a number in its fixed encoding.
pub const VARNUM_PREFIX_FLOAT: [u8; 2] = VARNUM_INVALID_ZERO_1;

/// The bytes that stand for "no number" in the variable encoding.
pub const VARNUM_NULL: [u8; 3] = VARNUM_INVALID_ZERO_2;

/// `std::io::Error`, the error with which a sink rejects a write. Nothing is
/// claimed of its values; a sink in memory never gives one.
#[verifier::external_type_specification]
#[verifier::external_body]
pub struct ExIoError(std::io::Error);

/// The eight bytes of `bits`, least significant byte first.
pub open spec fn le_bytes(bits: u64) -> Seq<u8> {
    seq![
        (bits % 0x100) as u8,
        ((bits / 0x100) % 0x100) as u8,
        ((bits / 0x1_0000) % 0x100) as u8,
        ((bits / 0x100_0000) % 0x100) as u8,
        ((bits / 0x1_0000_0000) % 0x100) as u8,
        ((bits / 0x100_0000_0000) % 0x100) as u8,
        ((bits / 0x1_0000_0000_0000) % 0x100) as u8,
        ((bits / 0x100_0000_0000_0000) % 0x100) as u8,
    ]
}

/// The number whose eight bytes, least significant byte first, are `s`.
pub open spec fn le_value(s: Seq<u8>) -> u64
    recommends
        s.len() == 8,
{
    (s[0] + 0x100 * s[1] + 0x1_0000 * s[2] + 0x100_0000 * s[3] + 0x1_0000_0000 * s[4]
        + 0x100_0000_0000 * s[5] + 0x1_0000_0000_0000 * s[6] + 0x100_0000_0000_0000
        * s[7]) as u64
}

/// The pattern that is stored for `value` in the fixed encoding.
pub open spec fn float_repr(value: Option<u64>) -> u64 {
    match value {
        None => NONE_FLOAT_REPR,
        Some(bits) => bits,
    }
}

/// The value that a stored pattern is read as.
pub open spec fn float_of_repr(repr: u64) -> Option<u64> {
    if repr == NONE_FLOAT_REPR {
        None
    } else {
        Some(repr)
    }
}

/// The fixed encoding of `value`.
pub open spec fn float_bytes(value: Option<u64>) -> Seq<u8> {
    le_bytes(float_repr(value))
}

/// The unsigned code of the signed integer `n`: 0, -1, 1, -2, 2, ... are
/// numbered 0, 1, 2, 3, 4, ..., so that integers near zero get small codes
/// whatever their sign.
pub open spec fn sign_folded(n: int) -> int {
    if n >= 0 {
        2 * n
    } else {
        -2 * n - 1
    }
}

/// The signed integer with the unsigned code `code`.
pub open spec fn sign_unfolded(code: int) -> int {
    if code % 2 == 0 {
        code / 2
    } else {
        -(code / 2) - 1
    }
}

/// The variable encoding of `value`: the reserved null bytes for "no
/// number"; for a number that is a 32-bit integer other than negative zero,
/// the code of that integer as a varnum; for any other number the reserved
/// prefix and the fixed encoding.
pub open spec fn varfloat_bytes(value: Option<u64>) -> Seq<u8> {
    match value {
        None => VARNUM_NULL@,
        Some(bits) => match compact_integer(bits) {
            Some(n) => varnum_bytes(sign_folded(n as int) as nat),
            None => VARNUM_PREFIX_FLOAT@ + le_bytes(bits),
        },
    }
}

/// Whether `s` starts with `k` bytes that are read as `value`. These bytes
/// are the null bytes; or the prefix and eight bytes that hold the pattern
/// of `value`; or the varnum of the code of an integer, whose pattern
/// `value` is.
pub open spec fn is_varfloat_reading(s: Seq<u8>, value: Option<u64>, k: int) -> bool {
    ||| (k == 3 && s.len() >= 3 && s.take(3) == VARNUM_NULL@ && value is None)
    ||| (k == 10 && s.len() >= 10 && s.take(2) == VARNUM_PREFIX_FLOAT@ && value == float_of_repr(
        le_value(s.subrange(2, 10)),
    ))
    ||| (0 <= k <= s.len() && value is Some && compact_integer(value.unwrap()) is Some && s.take(k)
        == varnum_bytes(sign_folded(compact_integer(value.unwrap()).unwrap() as int) as nat))
}

/// A pattern is the sum of its eight bytes, each at its place.
proof fn lemma_le_split(bits: u64)
    by (bit_vector)
    ensures
        bits == (bits % 0x100) + 0x100 * ((bits / 0x100) % 0x100) + 0x1_0000 * ((bits / 0x1_0000)
            % 0x100) + 0x100_0000 * ((bits / 0x100_0000) % 0x100) + 0x1_0000_0000 * ((bits
            / 0x1_0000_0000) % 0x100) + 0x100_0000_0000 * ((bits / 0x100_0000_0000) % 0x100)
            + 0x1_0000_0000_0000 * ((bits / 0x1_0000_0000_0000) % 0x100) + 0x100_0000_0000_0000 * ((
        bits / 0x100_0000_0000_0000) % 0x100),
{
}

/// The bytes of a sum of eight bytes, each at its place, are these bytes.
proof fn lemma_le_join(v: u64, b0: u8, b1: u8, b2: u8, b3: u8, b4: u8, b5: u8, b6: u8, b7: u8)
    by (bit_vector)
    requires
        v == b0 + 0x100 * b1 + 0x1_0000 * b2 + 0x100_0000 * b3 + 0x1_0000_0000 * b4
            + 0x100_0000_0000 * b5 + 0x1_0000_0000_0000 * b6 + 0x100_0000_0000_0000 * b7,
    ensures
        v % 0x100 == b0,
        (v / 0x100) % 0x100 == b1,
        (v / 0x1_0000) % 0x100 == b2,
        (v / 0x100_0000) % 0x100 == b3,
        (v / 0x1_0000_0000) % 0x100 == b4,
        (v / 0x100_0000_0000) % 0x100 == b5,
        (v / 0x1_0000_0000_0000) % 0x100 == b6,
        (v / 0x100_0000_0000_0000) % 0x100 == b7,
{
}

/// Reading the eight bytes of a pattern gives the pattern back, and writing
/// the pattern that eight bytes hold gives these bytes back.
pub proof fn lemma_le_bytes_round_trip(bits: u64, s: Seq<u8>)
    requires
        s.len() == 8,
    ensures
        le_bytes(bits).len() == 8,
        le_value(le_bytes(bits)) == bits,
        le_bytes(le_value(s)) == s,
{
    lemma_le_split(bits);
    let v = le_value(s);
    lemma_le_join(v, s[0], s[1], s[2], s[3], s[4], s[5], s[6], s[7]);
    assert(le_bytes(v) =~= s);
}

/// What was encoded in the fixed encoding is what is decoded from it: every
/// pattern but the reserved one comes back bit for bit, and "no number"
/// comes back as "no number".
pub proof fn lemma_float_bytes_round_trip(value: Option<u64>)
    ensures
        float_of_repr(le_value(float_bytes(value))) == if value == Some(NONE_FLOAT_REPR) {
            None
        } else {
            value
        },
{
    lemma_le_bytes_round_trip(float_repr(value), le_bytes(0));
}

/// Folding and unfolding are inverse to each other, and the codes of the
/// 32-bit signed integers are the 32-bit unsigned integers.
pub proof fn lemma_fold_round_trip(n: int, code: int)
    ensures
        sign_unfolded(sign_folded(n)) == n,
        code >= 0 ==> sign_folded(sign_unfolded(code)) == code,
        sign_folded(n) >= 0,
        i32::MIN <= n <= i32::MAX <==> sign_folded(n) <= u32::MAX,
{
}

/// Every number that is a 32-bit signed integer, negative zero left aside,
/// is encoded as the varnum of its code, in at most five bytes.
pub proof fn lemma_integer_is_compact(bits: u64, n: i32)
    requires
        has_integer_value(bits, n as int),
        bits != NEGATIVE_ZERO,
    ensures
        varfloat_bytes(Some(bits)) == varnum_bytes(sign_folded(n as int) as nat),
        1 <= varfloat_bytes(Some(bits)).len() <= 5,
{
    lemma_integer_value(bits, n as int);
    lemma_varnum_len(sign_folded(n as int) as nat);
}

/// Negative zero, although it stands for the integer 0, is encoded with the
/// prefix and its eight bytes, which keep its sign.
pub proof fn lemma_negative_zero_is_raw()
    ensures
        has_integer_value(NEGATIVE_ZERO, 0),
        varfloat_bytes(Some(NEGATIVE_ZERO)) == VARNUM_PREFIX_FLOAT@ + le_bytes(NEGATIVE_ZERO),
        varfloat_bytes(Some(NEGATIVE_ZERO)).len() == 10,
{
    assert(0 * vstd::arithmetic::power2::pow2(1075) == 0 * vstd::arithmetic::power2::pow2(1))
        by (nonlinear_arith);
}

/// The variable encoding takes three bytes for "no number", one to five for
/// an integer, and ten for any other number.
pub proof fn lemma_varfloat_len(value: Option<u64>)
    ensures
        value is None ==> varfloat_bytes(value).len() == 3,
        value is Some && compact_integer(value.unwrap()) is Some ==> 1 <= varfloat_bytes(
            value,
        ).len() <= 5,
        value is Some && compact_integer(value.unwrap()) is None ==> varfloat_bytes(value).len()
            == 10,
{
    if let Some(bits) = value {
        if let Some(n) = compact_integer(bits) {
            lemma_varnum_len(sign_folded(n as int) as nat);
        }
    }
}

/// A sequence of bytes is read in one way at most.
pub proof fn lemma_varfloat_reading_unique(
    s: Seq<u8>,
    value1: Option<u64>,
    k1: int,
    value2: Option<u64>,
    k2: int,
)
    requires
        is_varfloat_reading(s, value1, k1),
        is_varfloat_reading(s, value2, k2),
    ensures
        value1 == value2,
        k1 == k2,
{
    let marked_null = s.len() >= 3 && s.take(3) == VARNUM_NULL@;
    let marked_raw = s.len() >= 2 && s.take(2) == VARNUM_PREFIX_FLOAT@;
    if marked_null && marked_raw {
        assert(s.take(3)[1] == s.take(2)[1]);
    }
    let compact1 = 0 <= k1 <= s.len() && value1 is Some && compact_integer(value1.unwrap()) is Some
        && s.take(k1) == varnum_bytes(
        sign_folded(compact_integer(value1.unwrap()).unwrap() as int) as nat,
    );
    let compact2 = 0 <= k2 <= s.len() && value2 is Some && compact_integer(value2.unwrap()) is Some
        && s.take(k2) == varnum_bytes(
        sign_folded(compact_integer(value2.unwrap()).unwrap() as int) as nat,
    );
    if compact1 {
        let n1 = compact_integer(value1.unwrap()).unwrap() as int;
        lemma_varnum_never_reserved(s, k1, sign_folded(n1) as nat);
    }
    if compact2 {
        let n2 = compact_integer(value2.unwrap()).unwrap() as int;
        lemma_varnum_never_reserved(s, k2, sign_folded(n2) as nat);
    }
    if compact1 && compact2 {
        let n1 = compact_integer(value1.unwrap()).unwrap() as int;
        let n2 = compact_integer(value2.unwrap()).unwrap() as int;
        lemma_varnum_prefix_free(s, k1, sign_folded(n1) as nat, k2, sign_folded(n2) as nat);
        lemma_fold_round_trip(n1, 0);
        lemma_fold_round_trip(n2, 0);
        lemma_compact_integer_injective(value1.unwrap(), value2.unwrap());
    }
}

/// What was encoded in the variable encoding is what is read from it,
/// whatever follows: every pattern but the reserved one comes back bit for
/// bit, and "no number" comes back as "no number".
pub proof fn lemma_varfloat_round_trip(value: Option<u64>, rest: Seq<u8>)
    ensures
        is_varfloat_reading(
            varfloat_bytes(value) + rest,
            if value == Some(NONE_FLOAT_REPR) {
                None
            } else {
                value
            },
            varfloat_bytes(value).len() as int,
        ),
{
    let encoded = varfloat_bytes(value);
    let s = encoded + rest;
    assert(s.take(encoded.len() as int) =~= encoded);
    match value {
        None => {},
        Some(bits) => {
            if compact_integer(bits) is Some {
                assert(!is_finite(NONE_FLOAT_REPR));
            } else {
                lemma_le_bytes_round_trip(bits, le_bytes(0));
                assert(s.take(2) =~= VARNUM_PREFIX_FLOAT@);
                assert(s.subrange(2, 10) =~= le_bytes(bits));
            }
        },
    }
}

/// Encodes `value` in eight bytes, least significant byte first: the
/// pattern of the number, or the reserved pattern for "no number".
pub fn bytes_of_float(value: Option<u64>) -> (buf: [u8; 8])
    ensures
        buf@ == float_bytes(value),
{
    let as_u64: u64 = match value {
        None => NONE_FLOAT_REPR,
        Some(bits) => bits,
    };
    let buf: [u8; 8] = [
        (as_u64 % 0x100) as u8,
        ((as_u64 / 0x100) % 0x100) as u8,
        ((as_u64 / 0x1_0000) % 0x100) as u8,
        ((as_u64 / 0x100_0000) % 0x100) as u8,
        ((as_u64 / 0x1_0000_0000) % 0x100) as u8,
        ((as_u64 / 0x100_0000_0000) % 0x100) as u8,
        ((as_u64 / 0x1_0000_0000_0000) % 0x100) as u8,
        ((as_u64 / 0x100_0000_0000_0000) % 0x100) as u8,
    ];
    assert(buf@ =~= float_bytes(value));
    buf
}

/// Decodes eight bytes, least significant byte first: "no number" where
/// they hold the reserved pattern, else the pattern they hold.
pub fn float_of_bytes(buf: &[u8; 8]) -> (value: Option<u64>)
    ensures
        value == float_of_repr(le_value(buf@)),
{
    let as_u64: u64 = buf[0] as u64 + 0x100 * (buf[1] as u64) + 0x1_0000 * (buf[2] as u64)
        + 0x100_0000 * (buf[3] as u64) + 0x1_0000_0000 * (buf[4] as u64) + 0x100_0000_0000 * (
    buf[5] as u64) + 0x1_0000_0000_0000 * (buf[6] as u64) + 0x100_0000_0000_0000 * (buf[7] as u64);
    if as_u64 == NONE_FLOAT_REPR {
        None
    } else {
        Some(as_u64)
    }
}

/// The unsigned code of `n`.
pub fn fold(n: i32) -> (code: u32)
    ensures
        code == sign_folded(n as int),
{
    if n >= 0 {
        2 * (n as u32)
    } else {
        2 * ((-(n + 1)) as u32) + 1
    }
}

/// The signed integer with the code `code`.
pub fn unfold(code: u32) -> (n: i32)
    ensures
        n == sign_unfolded(code as int),
{
    if code % 2 == 0 {
        (code / 2) as i32
    } else {
        -((code / 2) as i32) - 1
    }
}

/// Appends `bytes` to `out`.
fn append(out: &mut Vec<u8>, bytes: &[u8])
    ensures
        final(out)@ == old(out)@ + bytes@,
{
    let ghost before = out@;
    let mut i: usize = 0;
    while i < bytes.len()
        invariant
            i <= bytes@.len(),
            out@ == before + bytes@.take(i as int),
        decreases bytes@.len() - i,
    {
        proof {
            assert(bytes@.take(i + 1) =~= bytes@.take(i as int).push(bytes@[i as int]));
            assert((before + bytes@.take(i as int)).push(bytes@[i as int]) =~= before
                + bytes@.take(i + 1));
        }
        out.push(bytes[i]);
        i = i + 1;
    }
    assert(bytes@.take(i as int) =~= bytes@);
}

/// A sink of bytes to which numbers can be written in the variable encoding.
pub trait WriteVarFloat {
    /// The bytes that the sink has taken.
    spec fn written(&self) -> Seq<u8>;

    /// Writes `value`, a number or "no number", and returns the count of
    /// bytes written.
    fn write_maybe_varfloat(&mut self, value: Option<u64>) -> (res: Result<usize, std::io::Error>)
        ensures
            res matches Ok(n) ==> final(self).written() == old(self).written() + varfloat_bytes(
                value,
            ) && n == varfloat_bytes(value).len(),
    ;

    /// Writes the number with the pattern `bits` and returns the count of
    /// bytes written.
    fn write_varfloat(&mut self, bits: u64) -> (res: Result<usize, std::io::Error>)
        ensures
            res matches Ok(n) ==> final(self).written() == old(self).written() + varfloat_bytes(
                Some(bits),
            ) && n == varfloat_bytes(Some(bits)).len(),
    ;
}

impl WriteVarFloat for Vec<u8> {
    open spec fn written(&self) -> Seq<u8> {
        self@
    }

    fn write_maybe_varfloat(&mut self, value: Option<u64>) -> (res: Result<usize, std::io::Error>)
        ensures
            res is Ok,
    {
        match value {
            None => {
                append(self, VARNUM_NULL.as_slice());
                Ok(3)
            },
            Some(bits) => self.write_varfloat(bits),
        }
    }

    fn write_varfloat(&mut self, bits: u64) -> (res: Result<usize, std::io::Error>)
        ensures
            res is Ok,
    {
        match float_as_i32(bits) {
            Some(n) => {
                let written = write_varnum(self, fold(n));
                Ok(written)
            },
            None => {
                let ghost before = self@;
                let bytes = bytes_of_float(Some(bits));
                append(self, VARNUM_PREFIX_FLOAT.as_slice());
                append(self, bytes.as_slice());
                assert(self@ =~= before + (VARNUM_PREFIX_FLOAT@ + le_bytes(bits)));
                Ok(10)
            },
        }
    }
}

/// The variable encoding of `value`, in a buffer of its own.
pub fn varbytes_of_float(value: Option<u64>) -> (buf: Vec<u8>)
    ensures
        buf@ == varfloat_bytes(value),
{
    let mut buf: Vec<u8> = Vec::with_capacity(4);
    let written = buf.write_maybe_varfloat(value).unwrap();
    assert(buf@ =~= varfloat_bytes(value));
    buf
}

/// Reads one value in the variable encoding from the start of `bytes`.
///
/// Returns the value and the count of bytes it took, or `None` where `bytes`
/// starts with no encoded value.
pub fn read_maybe_varfloat(bytes: &[u8]) -> (res: Option<(Option<u64>, usize)>)
    ensures
        match res {
            Some((value, k)) => is_varfloat_reading(bytes@, value, k as int),
            None => forall|value: Option<u64>, k: int| !is_varfloat_reading(bytes@, value, k),
        },
{
    let len = bytes.len();
    if len >= 3 && bytes[0] == 1 && bytes[1] == 1 && bytes[2] == 0 {
        assert(bytes@.take(3) =~= VARNUM_NULL@);
        return Some((None, 3));
    }
    if len >= 2 && bytes[0] == 1 && bytes[1] == 0 {
        assert(bytes@.take(2) =~= VARNUM_PREFIX_FLOAT@);
        if len < 10 {
            proof {
                assert forall|value: Option<u64>, k: int| !is_varfloat_reading(
                    bytes@,
                    value,
                    k,
                ) by {
                    if is_varfloat_reading(bytes@, value, k) {
                        lemma_reading_is_marked(bytes@, value, k);
                    }
                }
            }
            return None;
        }
        let buf: [u8; 8] = [
            bytes[2],
            bytes[3],
            bytes[4],
            bytes[5],
            bytes[6],
            bytes[7],
            bytes[8],
            bytes[9],
        ];
        assert(buf@ =~= bytes@.subrange(2, 10));
        return Some((float_of_bytes(&buf), 10));
    }
    match read_varnum(bytes) {
        Some((code, k)) => {
            let n = unfold(code);
            let bits = float_of_i32(n);
            proof {
                lemma_fold_round_trip(0, code as int);
            }
            Some((Some(bits), k))
        },
        None => {
            proof {
                assert forall|value: Option<u64>, k: int| !is_varfloat_reading(
                    bytes@,
                    value,
                    k,
                ) by {
                    if is_varfloat_reading(bytes@, value, k) {
                        if len >= 3 && bytes@.take(3) == VARNUM_NULL@ {
                            assert(bytes@.take(3)[0] == bytes@[0]);
                            assert(bytes@.take(3)[1] == bytes@[1]);
                            assert(bytes@.take(3)[2] == bytes@[2]);
                        }
                        if len >= 2 && bytes@.take(2) == VARNUM_PREFIX_FLOAT@ {
                            assert(bytes@.take(2)[0] == bytes@[0]);
                            assert(bytes@.take(2)[1] == bytes@[1]);
                        }
                        let n = compact_integer(value.unwrap()).unwrap();
                        lemma_fold_round_trip(n as int, 0);
                        let code = sign_folded(n as int) as u32;
                        assert(bytes@.take(k) == varnum_bytes(code as nat));
                    }
                }
            }
            None
        },
    }
}

/// A sequence that starts with one of the two reserved sequences is read,
/// if at all, as that sequence asks.
proof fn lemma_reading_is_marked(s: Seq<u8>, value: Option<u64>, k: int)
    requires
        is_varfloat_reading(s, value, k),
    ensures
        s.len() >= 2 && s.take(2) == VARNUM_PREFIX_FLOAT@ ==> k == 10 && s.len() >= 10,
        s.len() >= 3 && s.take(3) == VARNUM_NULL@ ==> k == 3,
{
    if s.len() >= 3 && s.take(3) == VARNUM_NULL@ && s.len() >= 2 && s.take(2)
        == VARNUM_PREFIX_FLOAT@ {
        assert(s.take(3)[1] == s.take(2)[1]);
    }
    if 0 <= k <= s.len() && value is Some && compact_integer(value.unwrap()) is Some && s.take(k)
        == varnum_bytes(sign_folded(compact_integer(value.unwrap()).unwrap() as int) as nat) {
        let n = compact_integer(value.unwrap()).unwrap() as int;
        lemma_varnum_never_reserved(s, k, sign_folded(n) as nat);
    }
}

} // verus!
