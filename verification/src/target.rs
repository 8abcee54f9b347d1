//! Parsing of the textual target value under one numeric interpretation.
//!
//! A target is compared against memory as a bit pattern: the little-endian
//! value of the interpretation's byte window. For the unsigned kinds the
//! pattern is the parsed value itself; for the signed kinds a negative value
//! becomes its two's complement. A string that does not denote a value
//! representable in the kind parses to nothing, and that kind then takes no
//! part in the scan. The floating-point kinds also parse to nothing here:
//! their bit patterns come from the caller, which owns all floating-point
//! arithmetic, and enter the scan through the pattern-level functions.

use vstd::prelude::*;

use crate::config::{width_of, FilterOption};
use crate::numeric::{
    all_dec_digits, dec_value, encode_le, decode_le, lemma_pow256_le_max, pow256, parse_decimal,
};

verus! {

/// The pattern denoted by `s` as an unsigned value of `w` bytes: an optional
/// leading `+`, then decimal digits whose value fits in `w` bytes.
pub open spec fn unsigned_pattern(s: Seq<u8>, w: nat) -> Option<u64> {
    let d = if s.len() > 0 && s[0] == 43 {
        s.skip(1)
    } else {
        s
    };
    if d.len() > 0 && all_dec_digits(d) && dec_value(d) < pow256(w) {
        Some(dec_value(d) as u64)
    } else {
        None
    }
}

/// The pattern denoted by `s` as a signed value of `w` bytes: an optional
/// sign, then decimal digits; a negative value is stored in two's complement.
pub open spec fn signed_pattern(s: Seq<u8>, w: nat) -> Option<u64> {
    if s.len() > 0 && s[0] == 45 {
        let d = s.skip(1);
        if d.len() > 0 && all_dec_digits(d) && dec_value(d) <= pow256(w) / 2 {
            Some(
                (if dec_value(d) == 0 {
                    0int
                } else {
                    pow256(w) - dec_value(d)
                }) as u64,
            )
        } else {
            None
        }
    } else {
        let d = if s.len() > 0 && s[0] == 43 {
            s.skip(1)
        } else {
            s
        };
        if d.len() > 0 && all_dec_digits(d) && dec_value(d) < pow256(w) / 2 {
            Some(dec_value(d) as u64)
        } else {
            None
        }
    }
}

/// The bit pattern the target string `s` denotes under the interpretation
/// `f`, or nothing when `s` is not representable in `f`. The floating-point
/// kinds always yield nothing: their patterns are parsed by the caller.
pub open spec fn target_pattern(f: FilterOption, s: Seq<u8>) -> Option<u64> {
    match f {
        FilterOption::U8 => unsigned_pattern(s, 1),
        FilterOption::U16 => unsigned_pattern(s, 2),
        FilterOption::U32 => unsigned_pattern(s, 4),
        FilterOption::U64 => unsigned_pattern(s, 8),
        FilterOption::I32 => signed_pattern(s, 4),
        FilterOption::I64 => signed_pattern(s, 8),
        FilterOption::F32 => None,
        FilterOption::F64 => None,
    }
}

/// A parsed pattern always fits in its interpretation's window.
pub proof fn lemma_target_pattern_bound(f: FilterOption, s: Seq<u8>)
    requires
        target_pattern(f, s) is Some,
    ensures
        target_pattern(f, s)->Some_0 < pow256(width_of(f)),
{
    lemma_pow256_le_max(width_of(f));
    lemma_pow256_le_max(8);
    reveal_with_fuel(pow256, 10);
}

/// 256 raised to `width`, for widths below 8, as a 64-bit value.
fn pow256_u64(width: usize) -> (b: u64)
    requires
        1 <= width <= 7,
    ensures
        b == pow256(width as nat),
{
    proof {
        reveal_with_fuel(pow256, 10);
    }
    match width {
        1 => 256,
        2 => 65536,
        3 => 16777216,
        4 => 4294967296,
        5 => 1099511627776,
        6 => 281474976710656,
        _ => 72057594037927936,
    }
}

/// Parses `s` as an unsigned little-endian pattern of `width` bytes.
fn parse_unsigned(s: &[u8], width: usize) -> (r: Option<u64>)
    requires
        1 <= width <= 8,
    ensures
        r == unsigned_pattern(s@, width as nat),
{
    let from: usize = if s.len() > 0 && s[0] == 43 {
        1
    } else {
        0
    };
    proof {
        if from == 1 {
            assert(s@.subrange(1, s@.len() as int) =~= s@.skip(1));
        } else {
            assert(s@.subrange(0, s@.len() as int) =~= s@);
        }
        lemma_pow256_le_max(width as nat);
        lemma_pow256_le_max(8);
        reveal_with_fuel(pow256, 10);
    }
    let v: u64 = match parse_decimal(s, from) {
        Some(v) => v,
        None => {
            return None;
        },
    };
    if width < 8 {
        let bound = pow256_u64(width);
        if v >= bound {
            return None;
        }
    }
    Some(v)
}

/// Parses `s` as a signed value of `width` bytes, stored as its two's
/// complement little-endian pattern.
fn parse_signed(s: &[u8], width: usize) -> (r: Option<u64>)
    requires
        width == 4 || width == 8,
    ensures
        r == signed_pattern(s@, width as nat),
{
    proof {
        reveal_with_fuel(pow256, 10);
    }
    let negative = s.len() > 0 && s[0] == 45;
    let from: usize = if negative || (s.len() > 0 && s[0] == 43) {
        1
    } else {
        0
    };
    proof {
        if from == 1 {
            assert(s@.subrange(1, s@.len() as int) =~= s@.skip(1));
        } else {
            assert(s@.subrange(0, s@.len() as int) =~= s@);
        }
    }
    let m: u64 = match parse_decimal(s, from) {
        Some(m) => m,
        None => {
            return None;
        },
    };
    let half: u64 = if width == 4 {
        2147483648
    } else {
        9223372036854775808
    };
    if negative {
        if m > half {
            return None;
        }
        if m == 0 {
            Some(0)
        } else if width == 4 {
            Some(4294967296u64 - m)
        } else {
            Some((u64::MAX - m) + 1)
        }
    } else {
        if m >= half {
            return None;
        }
        Some(m)
    }
}

/// Parses the target string under the interpretation `f` into the bit pattern
/// that the scan compares windows against.
pub fn parse_target(f: &FilterOption, s: &[u8]) -> (r: Option<u64>)
    ensures
        r == target_pattern(*f, s@),
{
    match f {
        FilterOption::U8 => parse_unsigned(s, 1),
        FilterOption::U16 => parse_unsigned(s, 2),
        FilterOption::U32 => parse_unsigned(s, 4),
        FilterOption::U64 => parse_unsigned(s, 8),
        FilterOption::I32 => parse_signed(s, 4),
        FilterOption::I64 => parse_signed(s, 8),
        FilterOption::F32 => None,
        FilterOption::F64 => None,
    }
}

/// Parses the target string under `f` and serialises it as the bytes a write
/// sweep stores at every match address; nothing when `s` is not representable
/// in `f`.
pub fn encode_target(f: &FilterOption, s: &[u8]) -> (r: Option<Vec<u8>>)
    ensures
        match r {
            Some(bytes) => target_pattern(*f, s@) is Some && bytes@.len() == width_of(*f)
                && decode_le(bytes@, 0, width_of(*f)) == target_pattern(*f, s@)->Some_0,
            None => target_pattern(*f, s@) is None,
        },
{
    match parse_target(f, s) {
        Some(p) => {
            proof {
                lemma_target_pattern_bound(*f, s@);
            }
            Some(encode_le(p, f.width()))
        },
        None => None,
    }
}

} // verus!
