//! Variable-length encoding of unsigned 32-bit integers.
//!
//! A number is cut into groups of seven bits, least significant group first.
//! Each group is stored in the upper seven bits of one byte; the lowest bit of
//! the byte tells whether another byte follows. The last group of a number
//! that takes several bytes is never zero, so every number has exactly one
//! encoding, and some short byte sequences are the start of none: they are
//! free to mark other kinds of data in the same stream.

use vstd::prelude::*;

verus! {

/// Two bytes that no encoded number starts with: a zero group that announces
/// a successor, and a zero group that ends the number.
pub const VARNUM_INVALID_ZERO_1: [u8; 2] = [1, 0];

/// Three bytes that no encoded number starts with.
pub const VARNUM_INVALID_ZERO_2: [u8; 3] = [1, 1, 0];

/// The encoding of `n`, as a sequence of bytes.
pub open spec fn varnum_bytes(n: nat) -> Seq<u8>
    decreases n,
{
    if n < 128 {
        seq![(2 * n) as u8]
    } else {
        seq![(2 * (n % 128) + 1) as u8] + varnum_bytes(n / 128)
    }
}

/// The number that the groups of `s` spell, the first byte holding the least
/// significant group.
pub open spec fn varnum_value(s: Seq<u8>) -> nat
    decreases s.len(),
{
    if s.len() == 0 {
        0
    } else {
        (s[0] / 2) as nat + 128 * varnum_value(s.drop_first())
    }
}

/// Whether `s` is, from its first to its last byte, the encoding of a number:
/// every byte but the last announces a successor, the last one does not, and
/// the last group is zero only where it is the only one.
pub open spec fn is_varnum(s: Seq<u8>) -> bool {
    &&& s.len() >= 1
    &&& forall|i: int| 0 <= i < s.len() - 1 ==> #[trigger] s[i] % 2 == 1
    &&& s.last() % 2 == 0
    &&& s.len() > 1 ==> s.last() != 0
}

/// 128 to the power of `e`.
pub open spec fn pow128(e: nat) -> nat
    decreases e,
{
    if e == 0 {
        1
    } else {
        128 * pow128((e - 1) as nat)
    }
}

/// The encoding of every number is well formed and spells that number.
pub proof fn lemma_varnum_bytes_well_formed(n: nat)
    ensures
        is_varnum(varnum_bytes(n)),
        varnum_value(varnum_bytes(n)) == n,
    decreases n,
{
    if n < 128 {
        let s = varnum_bytes(n);
        assert(s.drop_first() =~= Seq::<u8>::empty());
        assert(varnum_value(s.drop_first()) == 0);
    } else {
        lemma_varnum_bytes_well_formed(n / 128);
        let first = (2 * (n % 128) + 1) as u8;
        let rest = varnum_bytes(n / 128);
        let s = varnum_bytes(n);
        assert(s == seq![first] + rest);
        assert(s.drop_first() =~= rest);
        assert(s.last() == rest.last());
        assert forall|i: int| 0 <= i < s.len() - 1 implies #[trigger] s[i] % 2 == 1 by {
            if i > 0 {
                assert(s[i] == rest[i - 1]);
            }
        }
        assert(rest.last() != 0) by {
            if rest.len() == 1 {
                assert(n / 128 >= 1);
                assert(varnum_value(rest.drop_first()) == 0) by {
                    assert(rest.drop_first() =~= Seq::<u8>::empty());
                }
            }
        }
    }
}

/// A well-formed sequence is the encoding of the number that it spells, and
/// of no other.
pub proof fn lemma_varnum_is_encoding(s: Seq<u8>)
    requires
        is_varnum(s),
    ensures
        s == varnum_bytes(varnum_value(s)),
    decreases s.len(),
{
    let rest = s.drop_first();
    if s.len() == 1 {
        assert(rest =~= Seq::<u8>::empty());
        assert(varnum_value(rest) == 0);
        assert(s =~= seq![s[0]]);
    } else {
        assert(rest.last() == s.last());
        assert forall|i: int| 0 <= i < rest.len() - 1 implies #[trigger] rest[i] % 2 == 1 by {
            assert(rest[i] == s[i + 1]);
        }
        assert(s[0] % 2 == 1);
        lemma_varnum_is_encoding(rest);
        lemma_varnum_lower_bound(rest);
        let n = varnum_value(s);
        assert(varnum_value(rest) >= 1) by {
            if rest.len() == 1 {
                assert(rest.drop_first() =~= Seq::<u8>::empty());
                assert(varnum_value(rest.drop_first()) == 0);
                assert(rest[0] == rest.last());
            } else {
                assert(pow128((rest.len() - 1) as nat) >= 1) by {
                    lemma_pow128_positive((rest.len() - 1) as nat);
                }
            }
        }
        assert(n >= 128);
        assert(n % 128 == s[0] / 2);
        assert(n / 128 == varnum_value(rest));
        assert(s =~= seq![s[0]] + rest);
    }
}

/// Powers of 128 are positive.
pub proof fn lemma_pow128_positive(e: nat)
    ensures
        pow128(e) >= 1,
    decreases e,
{
    if e > 0 {
        lemma_pow128_positive((e - 1) as nat);
    }
}

/// A well-formed sequence of several bytes spells a number that needs all of
/// them: one of at least 128 to the power of its length less one.
pub proof fn lemma_varnum_lower_bound(s: Seq<u8>)
    requires
        is_varnum(s),
    ensures
        s.len() > 1 ==> varnum_value(s) >= pow128((s.len() - 1) as nat),
        varnum_value(s) < pow128(s.len()),
    decreases s.len(),
{
    let rest = s.drop_first();
    if s.len() == 1 {
        assert(rest =~= Seq::<u8>::empty());
        assert(varnum_value(rest) == 0);
        assert(pow128(1) == 128 * pow128(0));
    } else {
        assert(rest.last() == s.last());
        assert forall|i: int| 0 <= i < rest.len() - 1 implies #[trigger] rest[i] % 2 == 1 by {
            assert(rest[i] == s[i + 1]);
        }
        lemma_varnum_lower_bound(rest);
        if rest.len() == 1 {
            assert(rest.drop_first() =~= Seq::<u8>::empty());
            assert(varnum_value(rest.drop_first()) == 0);
            assert(rest[0] == rest.last());
            assert(pow128(1) == 128 * pow128(0));
        }
    }
}

/// No encoding is the start of another: where two prefixes of one sequence
/// are both encodings, they are the same prefix and encode the same number.
pub proof fn lemma_varnum_prefix_free(s: Seq<u8>, j: int, m: nat, k: int, n: nat)
    requires
        0 <= j <= s.len(),
        0 <= k <= s.len(),
        s.take(j) == varnum_bytes(m),
        s.take(k) == varnum_bytes(n),
    ensures
        j == k,
        m == n,
{
    lemma_varnum_bytes_well_formed(m);
    lemma_varnum_bytes_well_formed(n);
    let a = s.take(j);
    let b = s.take(k);
    if j < k {
        assert(a.last() == s[j - 1]);
        assert(b[j - 1] == s[j - 1]);
    } else if k < j {
        assert(b.last() == s[k - 1]);
        assert(a[k - 1] == s[k - 1]);
    }
}

/// The encoding of a number below 2^32 takes one to five bytes, and a single
/// byte exactly where the number is below 128.
pub proof fn lemma_varnum_len(n: nat)
    requires
        n <= u32::MAX,
    ensures
        1 <= varnum_bytes(n).len() <= 5,
        varnum_bytes(n).len() == 1 <==> n < 128,
{
    reveal_with_fuel(varnum_bytes, 6);
}

/// A sequence that starts with an encoded number starts with neither of the
/// two reserved sequences.
pub proof fn lemma_varnum_never_reserved(s: Seq<u8>, k: int, n: nat)
    requires
        0 <= k <= s.len(),
        s.take(k) == varnum_bytes(n),
    ensures
        !(s.len() >= 2 && s.take(2) == VARNUM_INVALID_ZERO_1@),
        !(s.len() >= 3 && s.take(3) == VARNUM_INVALID_ZERO_2@),
{
    lemma_varnum_bytes_well_formed(n);
    let t = s.take(k);
    assert(t.last() == s[k - 1]);
    if s.len() >= 2 && s.take(2) == VARNUM_INVALID_ZERO_1@ {
        assert(s[0] == s.take(2)[0] && s[1] == s.take(2)[1]);
        if k > 2 {
            assert(t[1] == s[1]);
        }
    }
    if s.len() >= 3 && s.take(3) == VARNUM_INVALID_ZERO_2@ {
        assert(s[0] == s.take(3)[0] && s[1] == s.take(3)[1] && s[2] == s.take(3)[2]);
        if k > 3 {
            assert(t[2] == s[2]);
        }
    }
}

/// Appends the encoding of `num` to `out` and returns the number of bytes
/// written.
pub fn write_varnum(out: &mut Vec<u8>, num: u32) -> (written: usize)
    ensures
        final(out)@ == old(out)@ + varnum_bytes(num as nat),
        written == varnum_bytes(num as nat).len(),
        1 <= written <= 5,
{
    let ghost before = out@;
    let mut value: u32 = num;
    let mut written: usize = 0;
    proof {
        lemma_varnum_len(num as nat);
    }
    while value >= 128
        invariant
            out@ + varnum_bytes(value as nat) == before + varnum_bytes(num as nat),
            written + varnum_bytes(value as nat).len() == varnum_bytes(num as nat).len(),
            varnum_bytes(num as nat).len() <= 5,
        decreases value,
    {
        let byte: u8 = (2 * (value % 128) + 1) as u8;
        proof {
            let rest = varnum_bytes((value / 128) as nat);
            lemma_varnum_len((value / 128) as nat);
            assert(varnum_bytes(value as nat) == seq![byte] + rest);
            assert(out@.push(byte) + rest =~= out@ + (seq![byte] + rest));
        }
        out.push(byte);
        value = value / 128;
        written = written + 1;
    }
    let last: u8 = (2 * value) as u8;
    proof {
        assert(varnum_bytes(value as nat) == seq![last]);
        assert(out@.push(last) =~= out@ + seq![last]);
    }
    out.push(last);
    written + 1
}

/// Reads one encoded number from the start of `bytes`.
///
/// Returns the number and the count of bytes it took, or `None` where `bytes`
/// does not start with the encoding of a number below 2^32.
pub fn read_varnum(bytes: &[u8]) -> (res: Option<(u32, usize)>)
    ensures
        match res {
            Some((n, k)) => k <= bytes@.len() && bytes@.take(k as int) == varnum_bytes(n as nat),
            None => forall|n: u32, k: int|
                0 <= k <= bytes@.len() ==> #[trigger] bytes@.take(k) != #[trigger] varnum_bytes(
                    n as nat,
                ),
        },
{
    let mut last: usize = 0;
    while last < bytes.len() && last < 5 && bytes[last] % 2 == 1
        invariant
            last <= bytes@.len(),
            last <= 5,
            forall|i: int| 0 <= i < last ==> #[trigger] bytes@[i] % 2 == 1,
        decreases bytes@.len() - last,
    {
        last = last + 1;
    }
    if last >= bytes.len() || last >= 5 || (last > 0 && bytes[last] == 0) {
        proof {
            assert forall|n: u32, k: int| 0 <= k <= bytes@.len() implies #[trigger] bytes@.take(k)
                != #[trigger] varnum_bytes(n as nat) by {
                if bytes@.take(k) == varnum_bytes(n as nat) {
                    lemma_varnum_bytes_well_formed(n as nat);
                    lemma_varnum_len(n as nat);
                    let t = bytes@.take(k);
                    assert(t.last() == bytes@[k - 1]);
                    if k - 1 > last {
                        assert(t[last as int] == bytes@[last as int]);
                    }
                }
            }
        }
        return None;
    }
    let count: usize = last + 1;
    let ghost encoded = bytes@.take(count as int);
    let mut acc: u64 = 0;
    let mut i: usize = count;
    proof {
        assert(bytes@.subrange(count as int, count as int) =~= Seq::<u8>::empty());
    }
    while i > 0
        invariant
            i <= count <= 5,
            count <= bytes@.len(),
            acc == varnum_value(bytes@.subrange(i as int, count as int)),
            acc < pow128((count - i) as nat),
        decreases i,
    {
        proof {
            reveal_with_fuel(pow128, 6);
            let longer = bytes@.subrange(i - 1, count as int);
            assert(longer.drop_first() =~= bytes@.subrange(i as int, count as int));
            assert(longer[0] == bytes@[i - 1]);
        }
        i = i - 1;
        acc = acc * 128 + (bytes[i] / 2) as u64;
    }
    proof {
        assert(bytes@.subrange(0, count as int) =~= encoded);
        assert(is_varnum(encoded)) by {
            assert(encoded.last() == bytes@[last as int]);
            assert forall|j: int| 0 <= j < encoded.len() - 1 implies #[trigger] encoded[j] % 2
                == 1 by {
                assert(encoded[j] == bytes@[j]);
            }
        }
        lemma_varnum_is_encoding(encoded);
    }
    if acc > 0xFFFF_FFFF {
        proof {
            assert forall|n: u32, k: int| 0 <= k <= bytes@.len() implies #[trigger] bytes@.take(k)
                != #[trigger] varnum_bytes(n as nat) by {
                if bytes@.take(k) == varnum_bytes(n as nat) {
                    lemma_varnum_prefix_free(bytes@, k, n as nat, count as int, acc as nat);
                }
            }
        }
        return None;
    }
    Some((acc as u32, count))
}

} // verus!
