//! Exact decimal numbers.
//!
//! A numeric value of the language is a mantissa `m: i64` standing for the
//! decimal `m / 10^6`: six fractional decimal digits are carried exactly.
//! Arithmetic is exact integer arithmetic on mantissas; a result whose
//! mantissa does not fit in an `i64` is "not representable", reported as
//! `None`, and surfaces in the language as its explicit not-a-number marker.
use vstd::prelude::*;

verus! {

use vstd::arithmetic::div_mod::{
    lemma_div_pos_is_pos,
    lemma_div_nonincreasing,
    lemma_multiply_divide_lt,
};

/// A mantissa counts millionths: the numeric value `1` has mantissa 10^6.
pub const FRAC_UNIT: i64 = 1_000_000;

/// Integer division truncating toward zero, as the `/` of Rust's primitive
/// integers behaves (Verus's own `/` on `int` rounds toward minus infinity).
pub open spec fn trunc_div(x: int, d: int) -> int
    recommends
        d != 0,
{
    if x == 0 {
        0
    } else if x > 0 && d > 0 {
        x / d
    } else if x < 0 && d < 0 {
        (x * -1) / (d * -1)
    } else if x < 0 {
        ((x * -1) / d) * -1
    } else {
        (x / (d * -1)) * -1
    }
}

pub open spec fn fits_i64(x: int) -> bool {
    i64::MIN <= x <= i64::MAX
}

/// Sum of two numbers as mantissas; `None` when not representable.
pub open spec fn spec_add_mant(a: i64, b: i64) -> Option<i64> {
    if fits_i64(a + b) {
        Some((a + b) as i64)
    } else {
        None
    }
}

/// Difference of two numbers as mantissas; `None` when not representable.
pub open spec fn spec_sub_mant(a: i64, b: i64) -> Option<i64> {
    if fits_i64(a - b) {
        Some((a - b) as i64)
    } else {
        None
    }
}

/// Product of two numbers as mantissas: the exact product of the values has
/// twelve fractional digits, of which the six beyond the carried precision
/// are truncated toward zero. `None` when not representable.
pub open spec fn spec_mul_mant(a: i64, b: i64) -> Option<i64> {
    let q = trunc_div(a as int * b as int, FRAC_UNIT as int);
    if fits_i64(q) {
        Some(q as i64)
    } else {
        None
    }
}

/// Quotient of two numbers as mantissas, truncated toward zero at the sixth
/// fractional digit. `None` when not representable.
pub open spec fn spec_div_mant(a: i64, b: i64) -> Option<i64>
    recommends
        b != 0,
{
    let q = trunc_div(a as int * FRAC_UNIT as int, b as int);
    if fits_i64(q) {
        Some(q as i64)
    } else {
        None
    }
}

/// Truncating division shrinks magnitudes: `|trunc_div(x, d)| <= |x|`.
proof fn lemma_trunc_div_bounds(x: int, d: int)
    requires
        d != 0,
    ensures
        trunc_div(x, d) <= (if x >= 0 { x } else { x * -1 }),
        trunc_div(x, d) >= (if x >= 0 { x * -1 } else { x }),
{
    if x == 0 {
    } else if x > 0 && d > 0 {
        lemma_div_pos_is_pos(x, d);
        lemma_div_nonincreasing(x, d);
    } else if x < 0 && d < 0 {
        lemma_div_pos_is_pos(x * -1, d * -1);
        lemma_div_nonincreasing(x * -1, d * -1);
    } else if x < 0 {
        lemma_div_pos_is_pos(x * -1, d);
        lemma_div_nonincreasing(x * -1, d);
    } else {
        lemma_div_pos_is_pos(x, d * -1);
        lemma_div_nonincreasing(x, d * -1);
    }
}

pub fn add_mant(a: i64, b: i64) -> (r: Option<i64>)
    ensures
        r == spec_add_mant(a, b),
{
    a.checked_add(b)
}

pub fn sub_mant(a: i64, b: i64) -> (r: Option<i64>)
    ensures
        r == spec_sub_mant(a, b),
{
    a.checked_sub(b)
}

pub fn mul_mant(a: i64, b: i64) -> (r: Option<i64>)
    ensures
        r == spec_mul_mant(a, b),
{
    proof {
        assert((a as int) * (b as int) <= 0x4000_0000_0000_0000_0000_0000_0000_0000int
            && (a as int) * (b as int) >= -0x4000_0000_0000_0000_0000_0000_0000_0000int)
            by (nonlinear_arith)
            requires
                -0x8000_0000_0000_0000 <= a as int <= 0x7fff_ffff_ffff_ffff,
                -0x8000_0000_0000_0000 <= b as int <= 0x7fff_ffff_ffff_ffff,
        ;
    }
    let p: i128 = (a as i128) * (b as i128);
    proof {
        lemma_trunc_div_bounds(p as int, FRAC_UNIT as int);
    }
    let q: i128 = match p.checked_div(1_000_000i128) {
        Some(q) => q,
        None => 0,
    };
    if q > i64::MAX as i128 || q < i64::MIN as i128 {
        None
    } else {
        Some(q as i64)
    }
}

pub fn div_mant(a: i64, b: i64) -> (r: Option<i64>)
    requires
        b != 0,
    ensures
        r == spec_div_mant(a, b),
{
    let p: i128 = (a as i128) * 1_000_000i128;
    proof {
        lemma_trunc_div_bounds(p as int, b as int);
    }
    let q: i128 = match p.checked_div(b as i128) {
        Some(q) => q,
        None => 0,
    };
    if q > i64::MAX as i128 || q < i64::MIN as i128 {
        None
    } else {
        Some(q as i64)
    }
}

pub open spec fn pow10(e: nat) -> nat
    decreases e,
{
    if e == 0 {
        1
    } else {
        10 * pow10((e - 1) as nat)
    }
}

pub open spec fn digit_char(d: nat) -> char
    recommends
        d < 10,
{
    if d == 0 {
        '0'
    } else if d == 1 {
        '1'
    } else if d == 2 {
        '2'
    } else if d == 3 {
        '3'
    } else if d == 4 {
        '4'
    } else if d == 5 {
        '5'
    } else if d == 6 {
        '6'
    } else if d == 7 {
        '7'
    } else if d == 8 {
        '8'
    } else {
        '9'
    }
}

/// Decimal digits of `n`, most significant first, with no leading zeros
/// (`0` itself is the single digit `0`).
pub open spec fn dec_digits(n: nat) -> Seq<char>
    decreases n,
{
    if n < 10 {
        seq![digit_char(n)]
    } else {
        dec_digits(n / 10) + seq![digit_char(n % 10)]
    }
}

/// The low `width` decimal digits of `n`, zero-padded on the left.
pub open spec fn dec_digits_padded(n: nat, width: nat) -> Seq<char>
    decreases width,
{
    if width == 0 {
        Seq::empty()
    } else {
        dec_digits_padded(n / 10, (width - 1) as nat) + seq![digit_char(n % 10)]
    }
}

/// The fractional digits as printed: `width` digits of `fp`, zero-padded,
/// with trailing zero digits removed.
pub open spec fn frac_part_chars(fp: nat, width: nat) -> Seq<char>
    decreases width,
{
    if width == 0 {
        Seq::empty()
    } else if fp % 10 == 0 {
        frac_part_chars(fp / 10, (width - 1) as nat)
    } else {
        dec_digits_padded(fp, width)
    }
}

/// How a number prints: optional minus sign, the integer part in decimal,
/// and, only when the fractional part is non-zero, a dot and the fractional
/// digits with trailing zeros dropped. An integral value thus prints with no
/// fractional part at all.
pub open spec fn spec_render_mantissa(m: int) -> Seq<char>
    recommends
        fits_i64(m),
{
    let mag = if m < 0 {
        m * -1
    } else {
        m
    };
    let ip = (mag / (FRAC_UNIT as int)) as nat;
    let fp = (mag % (FRAC_UNIT as int)) as nat;
    let digits = if fp == 0 {
        dec_digits(ip)
    } else {
        dec_digits(ip) + seq!['.'] + frac_part_chars(fp, 6)
    };
    if m < 0 {
        seq!['-'] + digits
    } else {
        digits
    }
}

/// A one-character string holding the decimal digit `d`.
fn digit_to_string(d: u64) -> (r: String)
    requires
        d < 10,
    ensures
        r@ =~= seq![digit_char(d as nat)],
{
    let digits: &str = "0123456789";
    proof {
        reveal_strlit("0123456789");
    }
    let piece = digits.substring_char(d as usize, (d + 1) as usize);
    piece.to_owned()
}

pub fn u64_to_dec(n: u64) -> (r: String)
    ensures
        r@ == dec_digits(n as nat),
    decreases n,
{
    if n < 10 {
        digit_to_string(n)
    } else {
        let mut s = u64_to_dec(n / 10);
        let tail = digit_to_string(n % 10);
        s.append(tail.as_str());
        proof {
            assert(s@ == dec_digits(n as nat));
        }
        s
    }
}

pub fn u32_to_dec(n: u32) -> (r: String)
    ensures
        r@ == dec_digits(n as nat),
{
    u64_to_dec(n as u64)
}

/// Renders `n` in exactly `width` decimal digits, zero-padded.
fn dec_padded_string(n: u64, width: u64) -> (r: String)
    requires
        width <= 8,
    ensures
        r@ == dec_digits_padded(n as nat, width as nat),
    decreases width,
{
    if width == 0 {
        String::new()
    } else {
        let mut s = dec_padded_string(n / 10, width - 1);
        let tail = digit_to_string(n % 10);
        s.append(tail.as_str());
        s
    }
}

/// Renders a mantissa the way `print` displays a number.
pub fn render_mantissa(m: i64) -> (r: String)
    ensures
        r@ == spec_render_mantissa(m as int),
{
    let mag: u64 = if m < 0 {
        (-(m as i128)) as u64
    } else {
        m as u64
    };
    let ip: u64 = mag / 1_000_000;
    let fp: u64 = mag % 1_000_000;
    let mut s = String::new();
    if m < 0 {
        proof {
            reveal_strlit("-");
        }
        s.append("-");
    }
    let ip_str = u64_to_dec(ip);
    s.append(ip_str.as_str());
    if fp != 0 {
        proof {
            reveal_strlit(".");
        }
        s.append(".");
        let mut f: u64 = fp;
        let mut w: u64 = 6;
        proof {
            assert(pow10(6) == 1000000) by {
                reveal_with_fuel(pow10, 7);
            };
        }
        while f % 10 == 0
            invariant
                0 < f,
                0 < w <= 6,
                (f as nat) < pow10(w as nat),
                frac_part_chars(fp as nat, 6) == frac_part_chars(f as nat, w as nat),
            decreases w,
        {
            proof {
                assert(f >= 10) by {
                    assert(f % 10 == 0 && f > 0 ==> f >= 10);
                };
                assert(w > 1) by {
                    reveal_with_fuel(pow10, 2);
                    assert(pow10(1) == 10);
                };
                assert((f as int) / 10 < pow10((w - 1) as nat)) by {
                    assert(pow10(w as nat) == 10 * pow10((w - 1) as nat));
                    lemma_multiply_divide_lt(f as int, 10, pow10((w - 1) as nat) as int);
                };
            }
            f = f / 10;
            w = w - 1;
        }
        let frac_str = dec_padded_string(f, w);
        s.append(frac_str.as_str());
    }
    s
}

pub open spec fn is_digit_char(c: char) -> bool {
    48 <= c as u32 <= 57
}

pub open spec fn digit_val(c: char) -> nat
    recommends
        is_digit_char(c),
{
    (c as u32 - 48) as nat
}

pub open spec fn all_digits(s: Seq<char>) -> bool {
    forall|i: int| 0 <= i < s.len() ==> is_digit_char(#[trigger] s[i])
}

/// Value of a string of decimal digits, most significant first; empty is 0.
pub open spec fn digits_val(s: Seq<char>) -> nat
    decreases s.len(),
{
    if s.len() == 0 {
        0
    } else {
        digits_val(s.drop_last()) * 10 + digit_val(s.last())
    }
}

proof fn lemma_digits_val_bound(s: Seq<char>)
    requires
        all_digits(s),
    ensures
        digits_val(s) < pow10(s.len()),
    decreases s.len(),
{
    if s.len() > 0 {
        assert(all_digits(s.drop_last()));
        lemma_digits_val_bound(s.drop_last());
        assert(pow10(s.len()) == 10 * pow10((s.len() - 1) as nat));
    }
}

/// Contribution of the fractional digits to the mantissa: only the first six
/// fractional digits are carried; fewer digits are scaled up to millionths.
pub open spec fn frac_mant(fp: Seq<char>) -> nat
    recommends
        all_digits(fp),
{
    let k = if fp.len() >= 6 {
        6
    } else {
        fp.len() as int
    };
    digits_val(fp.subrange(0, k)) * pow10((6 - k) as nat)
}

/// The mantissa a numeric literal denotes, from its integer-part digits and
/// its fractional-part digits (empty when the literal has no dot); `None`
/// when the value does not fit the number representation.
pub open spec fn mantissa_of_digits(ip: Seq<char>, fp: Seq<char>) -> Option<i64>
    recommends
        all_digits(ip),
        all_digits(fp),
{
    let v = digits_val(ip) * (FRAC_UNIT as nat) + frac_mant(fp);
    if v <= i64::MAX {
        Some(v as i64)
    } else {
        None
    }
}

/// Saturation point for the integer-part accumulator: any digit string whose
/// value reaches it denotes a mantissa beyond `i64::MAX`.
pub open spec fn clamp_cap(v: nat) -> nat {
    if v > 0x8000_0000_0000_0000 {
        0x8000_0000_0000_0000
    } else {
        v
    }
}

fn pow10_small(e: u64) -> (r: u64)
    requires
        e <= 6,
    ensures
        r as nat == pow10(e as nat),
{
    proof {
        reveal_with_fuel(pow10, 7);
    }
    if e == 0 {
        1
    } else if e == 1 {
        10
    } else if e == 2 {
        100
    } else if e == 3 {
        1_000
    } else if e == 4 {
        10_000
    } else if e == 5 {
        100_000
    } else {
        1_000_000
    }
}

/// Turns the scanned digits of a numeric literal into its mantissa.
pub fn mantissa_from_parts(ip: &str, fp: &str) -> (r: Option<i64>)
    requires
        all_digits(ip@),
        all_digits(fp@),
    ensures
        r == mantissa_of_digits(ip@, fp@),
{
    let n = ip.unicode_len();
    let mut acc: u64 = 0;
    let mut i: usize = 0;
    proof {
        assert(ip@.subrange(0, 0) =~= Seq::<char>::empty());
    }
    while i < n
        invariant
            i <= n,
            n == ip@.len(),
            all_digits(ip@),
            acc as nat == clamp_cap(digits_val(ip@.subrange(0, i as int))),
            acc <= 0x8000_0000_0000_0000,
        decreases n - i,
    {
        let c = ip.get_char(i);
        let d: u64 = ((c as u32) - 48) as u64;
        let nv: u128 = (acc as u128) * 10 + (d as u128);
        let new_acc: u64 = if nv > 0x8000_0000_0000_0000u128 {
            0x8000_0000_0000_0000u64
        } else {
            nv as u64
        };
        proof {
            let pre = ip@.subrange(0, i as int);
            let post = ip@.subrange(0, i + 1);
            assert(post.drop_last() =~= pre);
            assert(post.last() == ip@[i as int]);
            assert(digits_val(post) == digits_val(pre) * 10 + digit_val(ip@[i as int]));
        }
        acc = new_acc;
        i = i + 1;
    }
    proof {
        assert(ip@.subrange(0, n as int) =~= ip@);
    }
    let fn_len = fp.unicode_len();
    let k: usize = if fn_len > 6 {
        6
    } else {
        fn_len
    };
    let mut facc: u64 = 0;
    let mut j: usize = 0;
    proof {
        assert(fp@.subrange(0, 0) =~= Seq::<char>::empty());
        reveal_with_fuel(pow10, 7);
    }
    while j < k
        invariant
            j <= k <= 6,
            k <= fp@.len(),
            all_digits(fp@),
            facc as nat == digits_val(fp@.subrange(0, j as int)),
            (facc as nat) < pow10(j as nat),
        decreases k - j,
    {
        let c = fp.get_char(j);
        let d: u64 = ((c as u32) - 48) as u64;
        proof {
            let pre = fp@.subrange(0, j as int);
            let post = fp@.subrange(0, j + 1);
            assert(post.drop_last() =~= pre);
            assert(post.last() == fp@[j as int]);
            assert(pow10((j + 1) as nat) == 10 * pow10(j as nat));
            assert((facc as nat) < pow10(6)) by {
                lemma_pow10_monotone(j as nat, 6);
            };
            reveal_with_fuel(pow10, 7);
        }
        facc = facc * 10 + d;
        j = j + 1;
    }
    let scale = pow10_small((6 - k) as u64);
    proof {
        reveal_with_fuel(pow10, 7);
        lemma_pow10_split(k as nat);
        assert((facc as nat) * (scale as nat) < 1_000_000) by (nonlinear_arith)
            requires
                (facc as nat) < pow10(k as nat),
                scale as nat == pow10((6 - k) as nat),
                pow10(k as nat) * pow10((6 - k) as nat) == 1_000_000,
        ;
    }
    let fm: u64 = facc * scale;
    proof {
        assert(fp@.subrange(0, k as int) == fp@.subrange(
            0,
            if fp@.len() >= 6 {
                6
            } else {
                fp@.len() as int
            },
        ));
        assert(fm as nat == frac_mant(fp@));
    }
    let v: u128 = (acc as u128) * 1_000_000 + (fm as u128);
    if v > i64::MAX as u128 {
        proof {
            let dv = digits_val(ip@);
            if dv <= 0x8000_0000_0000_0000 {
                assert(acc as nat == dv);
            } else {
                assert(acc as nat == 0x8000_0000_0000_0000);
                assert(dv * 1_000_000 >= 0x8000_0000_0000_0000 * 1_000_000);
            }
        }
        None
    } else {
        proof {
            let dv = digits_val(ip@);
            assert(acc as nat == dv);
        }
        Some(v as i64)
    }
}

proof fn lemma_pow10_monotone(a: nat, b: nat)
    requires
        a <= b,
    ensures
        pow10(a) <= pow10(b),
    decreases b,
{
    if a < b {
        lemma_pow10_monotone(a, (b - 1) as nat);
        assert(pow10(b) == 10 * pow10((b - 1) as nat));
    }
}

proof fn lemma_pow10_split(k: nat)
    requires
        k <= 6,
    ensures
        pow10(k) * pow10((6 - k) as nat) == pow10(6),
    decreases k,
{
    if k == 0 {
        assert(pow10(0) == 1);
    } else {
        lemma_pow10_split((k - 1) as nat);
        let a = pow10((k - 1) as nat);
        let b = pow10((6 - k) as nat);
        assert(pow10(k) == 10 * a);
        assert(pow10((6 - (k - 1)) as nat) == 10 * b);
        assert(a * (10 * b) == pow10(6));
        assert((10 * a) * b == a * (10 * b)) by (nonlinear_arith);
    }
}

} // verus!
