//! # info/size
//!
//! The size column: bytes below 1024, otherwise a value with a unit letter
//! (`k`, `M`, `G`, `T`, `P`, `E`) and at most one decimal (e.g. `1k`, `1.5M`).
//!
//! The value is computed as the binary floating-point value of the size divided by
//! powers of 1024 (exact in binary) and formatted with round-half-to-even; here that
//! computation is carried out in exact integer arithmetic.
use vstd::prelude::*;

use crate::fs::file::EntryKind;
use crate::output::render::RenderedEntry;
use crate::text::{dec_digits, decimal, digit, digit_char, push_char};

verus! {

/// `num / den` rounded to the nearest integer, ties to the even one.
pub open spec fn round_half_even(num: nat, den: nat) -> nat
    recommends
        den > 0,
{
    let q = num / den;
    let r = num % den;
    if 2 * r < den {
        q
    } else if 2 * r > den {
        q + 1
    } else if q % 2 == 0 {
        q
    } else {
        q + 1
    }
}

/// The spacing of 64-bit floating-point numbers around `n` (53 significant bits),
/// for `n` below 2^64.
pub open spec fn float_ulp(n: nat) -> nat {
    if n < 0x20_0000_0000_0000 {
        1
    } else if n < 0x40_0000_0000_0000 {
        2
    } else if n < 0x80_0000_0000_0000 {
        4
    } else if n < 0x100_0000_0000_0000 {
        8
    } else if n < 0x200_0000_0000_0000 {
        16
    } else if n < 0x400_0000_0000_0000 {
        32
    } else if n < 0x800_0000_0000_0000 {
        64
    } else if n < 0x1000_0000_0000_0000 {
        128
    } else if n < 0x2000_0000_0000_0000 {
        256
    } else if n < 0x4000_0000_0000_0000 {
        512
    } else if n < 0x8000_0000_0000_0000 {
        1024
    } else {
        2048
    }
}

/// The value of `n` converted to a 64-bit float (round to nearest, ties to even).
pub open spec fn as_float(n: nat) -> nat {
    round_half_even(n, float_ulp(n)) * float_ulp(n)
}

/// The divisor of the unit chosen for a (float-rounded) size of at least 1024.
/// Sizes of 2^60 and above stay divided by 2^50 while they are labelled `E`.
pub open spec fn unit_scale(s: nat) -> nat {
    if s < 0x10_0000 {
        0x400
    } else if s < 0x4000_0000 {
        0x10_0000
    } else if s < 0x100_0000_0000 {
        0x4000_0000
    } else if s < 0x4_0000_0000_0000 {
        0x100_0000_0000
    } else {
        0x4_0000_0000_0000
    }
}

/// The unit letter chosen for a (float-rounded) size of at least 1024.
pub open spec fn unit_letter(s: nat) -> char {
    if s < 0x10_0000 {
        'k'
    } else if s < 0x4000_0000 {
        'M'
    } else if s < 0x100_0000_0000 {
        'G'
    } else if s < 0x4_0000_0000_0000 {
        'T'
    } else if s < 0x1000_0000_0000_0000 {
        'P'
    } else {
        'E'
    }
}

/// The size text: the byte count below 1024; otherwise `s / scale` with the unit
/// letter, as a whole number when it is at least 10 or its fraction is below 0.05,
/// else with one decimal.
pub open spec fn human_size_text(size: nat) -> Seq<char> {
    if size < 1024 {
        dec_digits(size)
    } else {
        let s = as_float(size);
        let den = unit_scale(s);
        let u = unit_letter(s);
        if s >= 10 * den || 20 * (s % den) < den {
            dec_digits(round_half_even(s, den)).push(u)
        } else {
            let t = round_half_even(10 * s, den);
            dec_digits(t / 10) + seq!['.', digit_char(t % 10), u]
        }
    }
}

/// The size column of an entry: the size text for files, `-` otherwise.
pub open spec fn long_size_text(kind: EntryKind, size: u64) -> Seq<char> {
    if kind == EntryKind::File {
        human_size_text(size as nat)
    } else {
        seq!['-']
    }
}

fn rounded_div(num: u128, den: u128) -> (r: u128)
    requires
        den > 0,
        den <= 0x1_0000_0000_0000_0000,
        num < 0x1_0000_0000_0000_0000_0000,
    ensures
        r as nat == round_half_even(num as nat, den as nat),
        r <= num / den + 1,
{
    let q = num / den;
    let r = num % den;
    if 2 * r < den {
        q
    } else if 2 * r > den {
        q + 1
    } else if q % 2 == 0 {
        q
    } else {
        q + 1
    }
}

fn ulp_of(n: u64) -> (u: u128)
    ensures
        u as nat == float_ulp(n as nat),
        1 <= u <= 2048,
        n as nat / (u as nat) < 0x20_0000_0000_0000,
{
    if n < 0x20_0000_0000_0000 {
        1
    } else if n < 0x40_0000_0000_0000 {
        2
    } else if n < 0x80_0000_0000_0000 {
        4
    } else if n < 0x100_0000_0000_0000 {
        8
    } else if n < 0x200_0000_0000_0000 {
        16
    } else if n < 0x400_0000_0000_0000 {
        32
    } else if n < 0x800_0000_0000_0000 {
        64
    } else if n < 0x1000_0000_0000_0000 {
        128
    } else if n < 0x2000_0000_0000_0000 {
        256
    } else if n < 0x4000_0000_0000_0000 {
        512
    } else if n < 0x8000_0000_0000_0000 {
        1024
    } else {
        2048
    }
}

/// The value of `n` as a 64-bit float.
fn float_value(n: u64) -> (r: u128)
    ensures
        r as nat == as_float(n as nat),
        r <= 0x1_0000_0000_0000_0000,
        n >= 1024 ==> r >= 1024,
{
    let u = ulp_of(n);
    let q = rounded_div(n as u128, u);
    proof {
        assert(q <= 0x20_0000_0000_0000);
        assert(q * u <= 0x1_0000_0000_0000_0000) by (nonlinear_arith)
            requires
                q <= 0x20_0000_0000_0000,
                u <= 2048;
        if n >= 1024 {
            assert(q >= n as u128 / u);
            assert(q * u >= 1024) by (nonlinear_arith)
                requires
                    q >= n as u128 / u,
                    n >= 1024,
                    u >= 1,
                    u <= 2048,
                    u == 1 || n >= 0x20_0000_0000_0000;
        }
    }
    q * u
}

fn unit_of(s: u128) -> (r: (u128, char))
    ensures
        r.0 as nat == unit_scale(s as nat),
        r.1 == unit_letter(s as nat),
{
    if s < 0x10_0000 {
        (0x400, 'k')
    } else if s < 0x4000_0000 {
        (0x10_0000, 'M')
    } else if s < 0x100_0000_0000 {
        (0x4000_0000, 'G')
    } else if s < 0x4_0000_0000_0000 {
        (0x100_0000_0000, 'T')
    } else if s < 0x1000_0000_0000_0000 {
        (0x4_0000_0000_0000, 'P')
    } else {
        (0x4_0000_0000_0000, 'E')
    }
}

/// A size in bytes with a human-readable unit (`k`, `M`, `G`, `T`, `P`, `E`).
pub fn human_size(size: u64) -> (r: String)
    ensures
        r@ == human_size_text(size as nat),
{
    if size < 1024 {
        return decimal(size);
    }
    let s = float_value(size);
    let (den, letter) = unit_of(s);
    if s >= 10 * den || 20 * (s % den) < den {
        let v = rounded_div(s, den);
        proof {
            assert(s / den <= 0x40_0000_0000_0000) by (nonlinear_arith)
                requires
                    s <= 0x1_0000_0000_0000_0000,
                    den >= 0x400;
        }
        let mut out = decimal(v as u64);
        push_char(&mut out, letter);
        out
    } else {
        let t = rounded_div(10 * s, den);
        proof {
            assert((10 * s) as int / (den as int) <= 100) by (nonlinear_arith)
                requires
                    s < 10 * den,
                    den > 0;
        }
        let mut out = decimal((t / 10) as u64);
        push_char(&mut out, '.');
        push_char(&mut out, digit((t % 10) as u64));
        push_char(&mut out, letter);
        proof {
            assert(out@ =~= dec_digits((t / 10) as nat) + seq!['.', digit_char((t % 10) as nat), letter]);
        }
        out
    }
}

/// The size column: the human-readable size for files, `-` for anything else.
pub fn long_size(entry: &RenderedEntry) -> (r: String)
    ensures
        r@ == long_size_text(entry.kind, entry.size),
{
    if !matches!(entry.kind, EntryKind::File) {
        let s = crate::text::string_of("-");
        proof {
            reveal_strlit("-");
            assert(s@ =~= seq!['-']);
        }
        return s;
    }
    human_size(entry.size)
}

/// Sizes below 1024 bytes are shown as the byte count; from 1024 bytes to below 1 MiB
/// the unit is `k`, and from 1 MiB to below 1 GiB it is `M`; a whole number of
/// kibibytes from 10 to 1023 is shown as that number followed by `k`.
pub proof fn lemma_human_size_units(n: nat, m: nat)
    ensures
        n < 1024 ==> human_size_text(n) == dec_digits(n),
        1024 <= n < 0x10_0000 ==> human_size_text(n).last() == 'k',
        0x10_0000 <= n < 0x4000_0000 ==> human_size_text(n).last() == 'M',
        10 <= m < 1024 ==> human_size_text(m * 1024) == dec_digits(m).push('k'),
{
    if 1024 <= n < 0x4000_0000 {
        assert(float_ulp(n) == 1);
        assert(as_float(n) == n);
    }
    if 10 <= m < 1024 {
        let k = m * 1024;
        assert(k == m * 1024);
        assert(10 * 1024 <= k < 1024 * 1024) by (nonlinear_arith)
            requires
                10 <= m < 1024,
                k == m * 1024,
        ;
        assert(float_ulp(k) == 1);
        assert(as_float(k) == k);
        assert(k / 1024 == m && k % 1024 == 0) by (nonlinear_arith)
            requires
                k == m * 1024,
        ;
        assert(round_half_even(k, 1024) == m);
    }
}

} // verus!
