//! Little-endian interpretation of byte windows.
//!
//! Every multi-byte read of the scanned memory interprets the bytes as a
//! little-endian integer. The scanner compares such decoded windows against a
//! target bit pattern, so the whole crate is built on one spec function,
//! `decode_le`, together with the executable reader `decode_at` and the
//! executable writer `encode_le`.

use vstd::prelude::*;

verus! {

/// 256 raised to `w`: the number of distinct values of a `w`-byte window.
pub open spec fn pow256(w: nat) -> nat
    decreases w,
{
    if w == 0 {
        1
    } else {
        256 * pow256((w - 1) as nat)
    }
}

/// The value of the `w` bytes `s[j .. j + w]` read as a little-endian integer.
pub open spec fn decode_le(s: Seq<u8>, j: int, w: nat) -> nat
    decreases w,
{
    if w == 0 {
        0
    } else {
        (s[j] + 256 * decode_le(s, j + 1, (w - 1) as nat)) as nat
    }
}

/// A decoded `w`-byte window is always below `pow256(w)`.
pub proof fn lemma_decode_le_bound(s: Seq<u8>, j: int, w: nat)
    requires
        0 <= j,
        j + w <= s.len(),
    ensures
        decode_le(s, j, w) < pow256(w),
    decreases w,
{
    if w > 0 {
        lemma_decode_le_bound(s, j + 1, (w - 1) as nat);
    }
}

/// Decoding only looks at the bytes of the window: two sequences that agree on
/// their respective windows decode to the same value.
pub proof fn lemma_decode_le_agree(s1: Seq<u8>, j1: int, s2: Seq<u8>, j2: int, w: nat)
    requires
        0 <= j1,
        j1 + w <= s1.len(),
        0 <= j2,
        j2 + w <= s2.len(),
        forall|i: int| 0 <= i < w ==> #[trigger] s1[j1 + i] == s2[j2 + i],
    ensures
        decode_le(s1, j1, w) == decode_le(s2, j2, w),
    decreases w,
{
    if w > 0 {
        assert(s1[j1] == s2[j2]) by {
            assert(s1[j1 + 0] == s2[j2 + 0]);
        }
        assert forall|i: int| 0 <= i < w - 1 implies #[trigger] s1[(j1 + 1) + i] == s2[(j2 + 1) + i] by {
            assert(s1[j1 + (i + 1)] == s2[j2 + (i + 1)]);
        }
        lemma_decode_le_agree(s1, j1 + 1, s2, j2 + 1, (w - 1) as nat);
    }
}

/// Reads the `width` bytes at `buffer[j .. j + width]` as a little-endian
/// integer, widened to 64 bits.
pub fn decode_at(buffer: &[u8], j: usize, width: usize) -> (r: u64)
    requires
        1 <= width <= 8,
        j + width <= buffer@.len(),
    ensures
        r == decode_le(buffer@, j as int, width as nat),
{
    let n: usize = buffer.len();
    let mut val: u64 = 0;
    let mut k: usize = width;
    while k > 0
        invariant
            0 <= k <= width <= 8,
            j + width <= n == buffer@.len(),
            val == decode_le(buffer@, j + k, (width - k) as nat),
            val < pow256((width - k) as nat),
        decreases k,
    {
        proof {
            lemma_pow256_le_max((width - k + 1) as nat);
            assert(256 * pow256((width - k) as nat) == pow256((width - k + 1) as nat));
        }
        k = k - 1;
        let b = buffer[j + k];
        val = val * 256 + (b as u64);
        proof {
            lemma_decode_le_bound(buffer@, j + k, (width - k) as nat);
        }
    }
    val
}

/// Extending a window by one byte at its upper end adds that byte at the
/// highest place value.
pub proof fn lemma_decode_le_snoc(s: Seq<u8>, j: int, w: nat)
    requires
        0 <= j,
        j + w + 1 <= s.len(),
    ensures
        decode_le(s, j, w + 1) == decode_le(s, j, w) + pow256(w) * s[j + w],
    decreases w,
{
    if w == 0 {
        assert(decode_le(s, j + 1, 0) == 0);
        assert(decode_le(s, j, 1) == s[j] + 256 * decode_le(s, j + 1, 0));
        assert(pow256(0) == 1);
    } else {
        let w1 = (w - 1) as nat;
        lemma_decode_le_snoc(s, j + 1, w1);
        let a = decode_le(s, j + 1, w1);
        let p = pow256(w1);
        let b = s[j + w];
        assert(j + 1 + w1 == j + w);
        assert(decode_le(s, j + 1, w) == a + p * b);
        assert(decode_le(s, j, w + 1) == s[j] + 256 * decode_le(s, j + 1, w));
        assert(256 * (a + p * b) == 256 * a + (256 * p) * b) by (nonlinear_arith);
        assert(decode_le(s, j, w) == s[j] + 256 * a);
        assert(pow256(w) == 256 * p);
    }
}

/// Serialises `pattern` as its `width` little-endian bytes, the form in which
/// a value is written back into the scanned memory.
pub fn encode_le(pattern: u64, width: usize) -> (r: Vec<u8>)
    requires
        1 <= width <= 8,
        pattern < pow256(width as nat),
    ensures
        r@.len() == width,
        decode_le(r@, 0, width as nat) == pattern,
{
    let mut out: Vec<u8> = Vec::new();
    let mut rem: u64 = pattern;
    let mut i: usize = 0;
    proof {
        assert(pow256(0) == 1);
        assert(decode_le(out@, 0, 0) == 0);
    }
    while i < width
        invariant
            0 <= i <= width <= 8,
            out@.len() == i,
            rem < pow256((width - i) as nat),
            decode_le(out@, 0, i as nat) + pow256(i as nat) * rem == pattern,
        decreases width - i,
    {
        let ghost old_out = out@;
        let ghost old_rem = rem;
        let b: u8 = (rem % 256) as u8;
        out.push(b);
        rem = rem / 256;
        proof {
            assert(pow256(((width - i) - 1) as nat) * 256 == pow256((width - i) as nat));
            assert(old_rem / 256 < pow256(((width - i) - 1) as nat)) by (nonlinear_arith)
                requires
                    old_rem < pow256(((width - i) - 1) as nat) * 256,
            ;
            lemma_decode_le_agree(out@, 0, old_out, 0, i as nat);
            lemma_decode_le_snoc(out@, 0, i as nat);
            assert(out@[i as int] == b);
            assert(pow256(i as nat) * (old_rem % 256) + (pow256(i as nat) * 256) * (old_rem
                / 256) == pow256(i as nat) * old_rem) by (nonlinear_arith)
                requires
                    old_rem % 256 + 256 * (old_rem / 256) == old_rem,
            ;
            assert(pow256((i + 1) as nat) == pow256(i as nat) * 256);
        }
        i = i + 1;
    }
    proof {
        assert(pow256(0) == 1);
    }
    out
}

/// Whether `c` is the code of a decimal digit.
pub open spec fn is_dec_digit(c: u8) -> bool {
    48 <= c <= 57
}

/// The numeric value of a digit; anything else counts as zero.
pub open spec fn digit_val(c: u8) -> nat {
    if is_dec_digit(c) {
        (c - 48) as nat
    } else {
        0
    }
}

/// Whether every byte of `s` is a decimal digit.
pub open spec fn all_dec_digits(s: Seq<u8>) -> bool {
    forall|i: int| 0 <= i < s.len() ==> is_dec_digit(#[trigger] s[i])
}

/// The value denoted by the digit string `s`, most significant digit first.
pub open spec fn dec_value(s: Seq<u8>) -> nat
    decreases s.len(),
{
    if s.len() == 0 {
        0
    } else {
        dec_value(s.drop_last()) * 10 + digit_val(s.last())
    }
}

/// A digit string denotes at least as much as any of its prefixes.
pub proof fn lemma_dec_value_prefix_le(s: Seq<u8>, n: int)
    requires
        0 <= n <= s.len(),
    ensures
        dec_value(s.take(n)) <= dec_value(s),
    decreases s.len(),
{
    if n == s.len() {
        assert(s.take(n) =~= s);
    } else {
        assert(s.drop_last().take(n) =~= s.take(n));
        lemma_dec_value_prefix_le(s.drop_last(), n);
    }
}

/// Reads the decimal digits `s[from ..]` as an unsigned 64-bit value.
/// Fails exactly when there are no digits, when a byte is not a digit, or
/// when the denoted value does not fit in 64 bits.
pub fn parse_decimal(s: &[u8], from: usize) -> (r: Option<u64>)
    requires
        from <= s@.len(),
    ensures
        ({
            let digits = s@.subrange(from as int, s@.len() as int);
            match r {
                Some(v) => from < s@.len() && all_dec_digits(digits) && v == dec_value(digits),
                None => from == s@.len() || !all_dec_digits(digits) || dec_value(digits)
                    > u64::MAX,
            }
        }),
{
    let ghost digits = s@.subrange(from as int, s@.len() as int);
    let n: usize = s.len();
    if from == n {
        return None;
    }
    let mut acc: u64 = 0;
    let mut i: usize = from;
    while i < n
        invariant
            from <= i <= n == s@.len(),
            digits == s@.subrange(from as int, s@.len() as int),
            forall|k: int| 0 <= k < i - from ==> is_dec_digit(#[trigger] digits[k]),
            acc == dec_value(digits.take(i - from)),
        decreases n - i,
    {
        let c = s[i];
        if c < 48 || c > 57 {
            proof {
                assert(digits[i - from] == c);
            }
            return None;
        }
        let d: u64 = (c - 48) as u64;
        let ghost prefix = digits.take(i - from);
        let ghost next = digits.take(i + 1 - from);
        proof {
            assert(next.drop_last() =~= prefix);
            assert(next.last() == digits[i - from] == c);
            assert(dec_value(next) == acc * 10 + d);
        }
        if acc > (u64::MAX - d) / 10 {
            proof {
                assert(dec_value(next) > u64::MAX);
                lemma_dec_value_prefix_le(digits, i + 1 - from);
            }
            return None;
        }
        acc = acc * 10 + d;
        i = i + 1;
    }
    proof {
        assert(digits.take(n - from) =~= digits);
    }
    Some(acc)
}

/// `pow256` fits in 64 bits for widths up to 8.
pub proof fn lemma_pow256_le_max(w: nat)
    requires
        w <= 8,
    ensures
        1 <= pow256(w) <= 0x1_0000_0000_0000_0000,
        w < 8 ==> pow256(w) <= 0x100_0000_0000_0000,
{
    reveal_with_fuel(pow256, 10);
}

} // verus!
