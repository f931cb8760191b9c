//! Human-readable sizes such as `512B`, `12.34KiB` or `1.50GiB`.
//!
//! A size is shown with two decimals of its value in the largest binary unit
//! that fits. The value is the byte count converted to the nearest `f64` and
//! divided by a power of two, which is exact; it is then rounded to two
//! decimals, ties going to the even digit. All of this is computed here with
//! integers, which gives the same digits.
use vstd::prelude::*;
use vstd::arithmetic::div_mod::{lemma_div_denominator, lemma_fundamental_div_mod};
use crate::text::{
    all_digits, decimal, decimal_value, digit_char, digit_value, is_digit, lemma_decimal,
    lemma_digit_char, push_char, push_decimal,
};

verus! {

pub const KIB: u64 = 1024;
pub const MIB: u64 = 1048576;
pub const GIB: u64 = 1073741824;
pub const TIB: u64 = 1099511627776;
pub const PIB: u64 = 1125899906842624;

/// 2^53: below it every integer is an `f64`.
pub const F64_EXACT: u128 = 9007199254740992;

// ---------------------------------------------------------------------------
// Rounding
// ---------------------------------------------------------------------------

/// `x / d` rounded to the nearest integer, ties to the even one.
pub open spec fn rounded_div(x: nat, d: nat) -> nat {
    let q = x / d;
    let r = x % d;
    if 2 * r > d || (2 * r == d && q % 2 == 1) {
        q + 1
    } else {
        q
    }
}

/// The spacing of the `f64` values around `n`: 1 below 2^53, and doubling
/// with every further bit.
pub open spec fn f64_spacing(n: nat) -> nat
    decreases n,
{
    if n < F64_EXACT {
        1
    } else {
        2 * f64_spacing(n / 2)
    }
}

/// `n as f64`: the nearest `f64` to `n`, ties to an even mantissa.
pub open spec fn f64_value(n: nat) -> nat {
    rounded_div(n, f64_spacing(n)) * f64_spacing(n)
}

/// Hundredths of `f / unit`, rounded as `{:.2}` rounds them.
pub open spec fn scaled_cents(f: nat, unit: nat) -> nat {
    rounded_div(f * 100, unit)
}

/// `{:.2}` of a value given in hundredths.
pub open spec fn fixed2(cents: nat) -> Seq<char> {
    decimal(cents / 100) + seq!['.', digit_char((cents % 100) / 10), digit_char(cents % 10)]
}

// ---------------------------------------------------------------------------
// Executable rounding
// ---------------------------------------------------------------------------

/// `n as f64`, as an integer (it may be 2^64).
fn nearest_f64(n: u64) -> (f: u128)
    ensures
        f == f64_value(n as nat),
        f <= 2 * (n as nat) + 1,
{
    let mut m: u128 = n as u128;
    let mut u: u128 = 1;
    while m >= F64_EXACT
        invariant
            u >= 1,
            u <= n as nat + 1,
            m == n as nat / u as nat,
            u * m <= n,
            f64_spacing(n as nat) == u * f64_spacing(m as nat),
        decreases m,
    {
        proof {
            lemma_div_denominator(n as int, u as int, 2);
            assert(u * m <= n && m >= 1 ==> u <= n) by (nonlinear_arith);
            let s = f64_spacing((m / 2) as nat);
            assert(f64_spacing(m as nat) == 2 * s);
            assert(u * (2 * s) == (u * 2) * s) by (nonlinear_arith);
            lemma_fundamental_div_mod(m as int, 2);
            assert((u * 2) * (m / 2) <= u * m) by (nonlinear_arith)
                requires
                    2 * (m / 2) <= m,
            ;
            assert((u * 2) * (m / 2) <= n && m / 2 >= 1 ==> u * 2 <= n) by (nonlinear_arith);
        }
        m = m / 2;
        u = u * 2;
    }
    proof {
        lemma_fundamental_div_mod(n as int, u as int);
        assert(u * m == u * (n as nat / u as nat));
        assert(f64_spacing(m as nat) == 1);
        assert(m * u <= n && (m + 1) * u <= 2 * (n as nat) + 1) by (nonlinear_arith)
            requires
                u * m <= n,
                u <= n as nat + 1,
        ;
    }
    let r: u128 = (n as u128) - u * m;
    assert(r == (n as nat) % (u as nat));
    let f: u128 = if 2 * r > u || (2 * r == u && m % 2 == 1) {
        (m + 1) * u
    } else {
        m * u
    };
    proof {
        assert(u * f64_spacing(m as nat) == u) by (nonlinear_arith)
            requires
                f64_spacing(m as nat) == 1,
        ;
        assert(f64_spacing(n as nat) == u);
        assert((m + 1) * u == u * m + u) by (nonlinear_arith);
        assert(u * m == m * u) by (nonlinear_arith);
        if 2 * r > u || (2 * r == u && m % 2 == 1) {
            assert(r < u) by {
                lemma_fundamental_div_mod(n as int, u as int);
            }
        }
    }
    f
}

/// Hundredths of `f / unit`, rounded half to even.
fn cents_of(f: u128, unit: u128) -> (c: u128)
    requires
        f <= 0x2_0000_0000_0000_0000,
        1 <= unit <= 0x1_0000_0000_0000_0000,
    ensures
        c == scaled_cents(f as nat, unit as nat),
        c <= (f as nat) * 100 / (unit as nat) + 1,
{
    let x: u128 = f * 100;
    let q: u128 = x / unit;
    let r: u128 = x % unit;
    if 2 * r > unit || (2 * r == unit && q % 2 == 1) {
        q + 1
    } else {
        q
    }
}

/// Appends `{:.2}` of a value given in hundredths.
fn push_fixed2(s: &mut String, cents: u128)
    requires
        cents / 100 <= u64::MAX,
    ensures
        final(s)@ == old(s)@ + fixed2(cents as nat),
{
    push_decimal(s, (cents / 100) as u64);
    push_char(s, '.');
    let tens: u8 = ((cents % 100) / 10) as u8;
    let ones: u8 = (cents % 10) as u8;
    push_char(s, (tens + 48u8) as char);
    push_char(s, (ones + 48u8) as char);
    assert(s@ =~= old(s)@ + fixed2(cents as nat));
}

// ---------------------------------------------------------------------------
// The two size formats
// ---------------------------------------------------------------------------

pub open spec fn unit_b() -> Seq<char> {
    seq!['B']
}

pub open spec fn unit_kib() -> Seq<char> {
    seq!['K', 'i', 'B']
}

pub open spec fn unit_mib() -> Seq<char> {
    seq!['M', 'i', 'B']
}

pub open spec fn unit_gib() -> Seq<char> {
    seq!['G', 'i', 'B']
}

pub open spec fn unit_tib() -> Seq<char> {
    seq!['T', 'i', 'B']
}

pub open spec fn unit_pib() -> Seq<char> {
    seq!['P', 'i', 'B']
}

/// A byte count, as the trash records show it: whole bytes below 1 KiB,
/// otherwise two decimals of KiB, MiB, GiB or TiB, whichever is the largest
/// unit that the count reaches.
pub open spec fn spec_humanized_size(size: u64) -> Seq<char> {
    let f = f64_value(size as nat);
    if size < KIB {
        decimal(size as nat) + unit_b()
    } else if size < MIB {
        fixed2(scaled_cents(f, KIB as nat)) + unit_kib()
    } else if size < GIB {
        fixed2(scaled_cents(f, MIB as nat)) + unit_mib()
    } else if size < TIB {
        fixed2(scaled_cents(f, GIB as nat)) + unit_gib()
    } else {
        fixed2(scaled_cents(f, TIB as nat)) + unit_tib()
    }
}

/// A size as the file browser shows it: always two decimals, in B up to
/// 1 KiB inclusive, then KiB up to 1 MiB inclusive, and so on up to PiB.
/// The thresholds are compared with the `f64` value of the count.
pub open spec fn spec_tree_size_label(size: u64) -> Seq<char> {
    let f = f64_value(size as nat);
    if f <= KIB {
        fixed2(scaled_cents(f, 1)) + unit_b()
    } else if f <= MIB {
        fixed2(scaled_cents(f, KIB as nat)) + unit_kib()
    } else if f <= GIB {
        fixed2(scaled_cents(f, MIB as nat)) + unit_mib()
    } else if f <= TIB {
        fixed2(scaled_cents(f, GIB as nat)) + unit_gib()
    } else if f <= PIB {
        fixed2(scaled_cents(f, TIB as nat)) + unit_tib()
    } else {
        fixed2(scaled_cents(f, PIB as nat)) + unit_pib()
    }
}

fn push_unit(s: &mut String, a: char)
    ensures
        final(s)@ == old(s)@ + seq![a, 'i', 'B'],
{
    push_char(s, a);
    push_char(s, 'i');
    push_char(s, 'B');
    assert(s@ =~= old(s)@ + seq![a, 'i', 'B']);
}

/// Format a byte count as a human-readable size.
pub fn humanized_size(size: u64) -> (s: String)
    ensures
        s@ == spec_humanized_size(size),
{
    let mut s = String::new();
    if size < KIB {
        push_decimal(&mut s, size);
        push_char(&mut s, 'B');
        assert(s@ =~= spec_humanized_size(size));
        return s;
    }
    let f = nearest_f64(size);
    let (unit, a): (u128, char) = if size < MIB {
        (KIB as u128, 'K')
    } else if size < GIB {
        (MIB as u128, 'M')
    } else if size < TIB {
        (GIB as u128, 'G')
    } else {
        (TIB as u128, 'T')
    };
    let c = cents_of(f, unit);
    assert(c / 100 <= u64::MAX) by (nonlinear_arith)
        requires
            f <= 0x2_0000_0000_0000_0000,
            unit >= 1024,
            c <= (f as nat) * 100 / (unit as nat) + 1,
    ;
    push_fixed2(&mut s, c);
    push_unit(&mut s, a);
    assert(s@ =~= spec_humanized_size(size));
    s
}

/// A size as the file browser lists it, next to each entry.
pub fn tree_size_label(size: u64) -> (s: String)
    ensures
        s@ == spec_tree_size_label(size),
{
    let mut s = String::new();
    let f = nearest_f64(size);
    if f <= KIB as u128 {
        let c = cents_of(f, 1);
        assert(c / 100 <= u64::MAX) by (nonlinear_arith)
            requires
                f <= 1024,
                c <= (f as nat) * 100 / 1 + 1,
        ;
        push_fixed2(&mut s, c);
        push_char(&mut s, 'B');
        assert(s@ =~= spec_tree_size_label(size));
        return s;
    }
    let (unit, a): (u128, char) = if f <= MIB as u128 {
        (KIB as u128, 'K')
    } else if f <= GIB as u128 {
        (MIB as u128, 'M')
    } else if f <= TIB as u128 {
        (GIB as u128, 'G')
    } else if f <= PIB as u128 {
        (TIB as u128, 'T')
    } else {
        (PIB as u128, 'P')
    };
    let c = cents_of(f, unit);
    assert(c / 100 <= u64::MAX) by (nonlinear_arith)
        requires
            f <= 0x2_0000_0000_0000_0000,
            unit >= 1024,
            c <= (f as nat) * 100 / (unit as nat) + 1,
    ;
    push_fixed2(&mut s, c);
    push_unit(&mut s, a);
    assert(s@ =~= spec_tree_size_label(size));
    s
}

// ---------------------------------------------------------------------------
// What the formats promise
// ---------------------------------------------------------------------------

/// Rounding to the nearest: `rounded_div(x, d) * d` is within half of `d`
/// from `x`, and on an exact tie the quotient is even.
pub proof fn lemma_rounded_div_nearest(x: nat, d: nat)
    requires
        d > 0,
    ensures
        2 * (rounded_div(x, d) * d) <= 2 * x + d,
        2 * x <= 2 * (rounded_div(x, d) * d) + d,
        (2 * (rounded_div(x, d) * d) == 2 * x + d || 2 * x == 2 * (rounded_div(x, d) * d) + d)
            ==> rounded_div(x, d) % 2 == 0,
{
    let q = x / d;
    let r = x % d;
    lemma_fundamental_div_mod(x as int, d as int);
    assert(x == q * d + r);
    assert(0 <= r < d);
    assert((q + 1) * d == q * d + d) by (nonlinear_arith);
}

/// Below 2^53 a count is its own `f64` value; above, the `f64` value is
/// within half of the spacing of the `f64` values there.
pub proof fn lemma_f64_value_nearest(n: nat)
    ensures
        n < F64_EXACT ==> f64_value(n) == n,
        2 * f64_value(n) <= 2 * n + f64_spacing(n),
        2 * n <= 2 * f64_value(n) + f64_spacing(n),
{
    lemma_spacing_positive(n);
    lemma_rounded_div_nearest(n, f64_spacing(n));
    if n < F64_EXACT {
        assert(n / 1 == n && n % 1 == 0) by (nonlinear_arith);
        assert(rounded_div(n, 1) == n);
    }
}

proof fn lemma_spacing_positive(n: nat)
    ensures
        f64_spacing(n) >= 1,
    decreases n,
{
    if n >= F64_EXACT {
        lemma_spacing_positive(n / 2);
    }
}

/// Two decimals of a value given in hundredths read back as that value: the
/// whole part in decimal, a point, then the tenths and the hundredths.
pub proof fn lemma_fixed2_reads_back(c: nat)
    ensures
        fixed2(c).len() >= 4,
        all_digits(fixed2(c).take(fixed2(c).len() - 3)),
        decimal_value(fixed2(c).take(fixed2(c).len() - 3)) == c / 100,
        fixed2(c)[fixed2(c).len() - 3] == '.',
        is_digit(fixed2(c)[fixed2(c).len() - 2]),
        is_digit(fixed2(c)[fixed2(c).len() - 1]),
        digit_value(fixed2(c)[fixed2(c).len() - 2]) * 10 + digit_value(fixed2(c)[fixed2(c).len() - 1])
            == c % 100,
{
    let w = decimal(c / 100);
    lemma_decimal(c / 100);
    lemma_digit_char((c % 100) / 10);
    lemma_digit_char(c % 10);
    let s = fixed2(c);
    assert(s.take(s.len() - 3) =~= w);
    assert((c % 100) / 10 * 10 + c % 10 == c % 100) by (nonlinear_arith);
}

/// The unit of a record's size is the largest that the count reaches, and
/// the number shown is the count in that unit, rounded to hundredths.
pub proof fn lemma_humanized_size_units(size: u64)
    ensures
        size < 1024 ==> spec_humanized_size(size) == decimal(size as nat) + seq!['B'],
        1024 <= size < 1048576 ==> spec_humanized_size(size) == fixed2(
            rounded_div(size as nat * 100, 1024),
        ) + seq!['K', 'i', 'B'],
        1048576 <= size < 1073741824 ==> spec_humanized_size(size) == fixed2(
            rounded_div(size as nat * 100, 1048576),
        ) + seq!['M', 'i', 'B'],
        1073741824 <= size < 1099511627776 ==> spec_humanized_size(size) == fixed2(
            rounded_div(size as nat * 100, 1073741824),
        ) + seq!['G', 'i', 'B'],
        1099511627776 <= size ==> spec_humanized_size(size) == fixed2(
            rounded_div(f64_value(size as nat) * 100, 1099511627776),
        ) + seq!['T', 'i', 'B'],
{
    lemma_f64_value_nearest(size as nat);
}

/// The browser's label: plain bytes with two decimals up to 1 KiB inclusive,
/// then the largest unit that the count exceeds, rounded to hundredths.
pub proof fn lemma_tree_size_label_units(size: u64)
    ensures
        size <= 1024 ==> spec_tree_size_label(size) == fixed2(size as nat * 100) + seq!['B'],
        1024 < size <= 1048576 ==> spec_tree_size_label(size) == fixed2(
            rounded_div(size as nat * 100, 1024),
        ) + seq!['K', 'i', 'B'],
        1048576 < size <= 1073741824 ==> spec_tree_size_label(size) == fixed2(
            rounded_div(size as nat * 100, 1048576),
        ) + seq!['M', 'i', 'B'],
        1073741824 < size <= 1099511627776 ==> spec_tree_size_label(size) == fixed2(
            rounded_div(size as nat * 100, 1073741824),
        ) + seq!['G', 'i', 'B'],
{
    lemma_f64_value_nearest(size as nat);
    if size <= 1024 {
        assert((size * 100) as nat / 1 == size * 100 && (size * 100) as nat % 1 == 0)
            by (nonlinear_arith);
    }
}

} // verus!
