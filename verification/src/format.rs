//! Sizes and speeds as people read them.

use vstd::arithmetic::power2::{lemma2_to64, lemma2_to64_rest, lemma_pow2_adds, lemma_pow2_pos,
    lemma_pow2_strictly_increases, pow2};
use vstd::arithmetic::power::pow;
use vstd::prelude::*;

use crate::binary64::{gap, one, power_of_two, rounded, split, units, Binary64, INFINITY, SIGN};
use crate::text::{a_numeral_reads_as_its_number, a_signed_numeral_reads_as_its_number, append_decimal,
    append_last_digits, append_shifted, append_signed, decimal, last_digits, last_digits_read_as_the_remainder,
    numerals_read_on, reading, signed_decimal};

verus! {

/// The integer nearest to `a / b`, the even one of two.
pub open spec fn half_even(a: nat, b: nat) -> nat
    recommends
        b > 0,
{
    let q = a / b;
    let r = a % b;
    if 2 * r > b || (2 * r == b && q % 2 == 1) {
        q + 1
    } else {
        q
    }
}

/// Ten to the power of the number of decimal places.
pub open spec fn ten_to(places: nat) -> nat
    decreases places,
{
    if places == 0 {
        1
    } else {
        10 * ten_to((places - 1) as nat)
    }
}

/// The decimal numeral of the number of a pattern, divided by two to the power of `shift`, with
/// `places` digits behind the point: the nearest one, the even one of two.
pub open spec fn fixed(p: nat, shift: nat, places: nat) -> Seq<char> {
    let n = half_even(units(p) * ten_to(places), one() * pow2(shift));
    if places == 0 {
        decimal(n)
    } else {
        decimal(n / ten_to(places)) + seq!['.'] + last_digits(n, places)
    }
}

/// A common factor does not change the nearest integer of a fraction.
proof fn lemma_half_even_scaled(a: nat, b: nat, x: nat)
    requires
        b > 0,
        x > 0,
    ensures
        half_even(a * x, b * x) == half_even(a, b),
{
    let q = a / b;
    let r = a % b;
    assert(a == q * b + r) by (nonlinear_arith)
        requires
            b > 0,
            q == a / b,
            r == a % b,
    ;
    assert(a * x == q * (b * x) + r * x && 0 <= r * x < b * x) by (nonlinear_arith)
        requires
            a == q * b + r,
            0 <= r < b,
            x > 0,
    ;
    vstd::arithmetic::div_mod::lemma_fundamental_div_mod_converse(
        (a * x) as int,
        (b * x) as int,
        q as int,
        (r * x) as int,
    );
    assert((2 * (r * x) > b * x) == (2 * r > b) && (2 * (r * x) == b * x) == (2 * r == b))
        by (nonlinear_arith)
        requires
            x > 0,
    ;
}

/// A whole number is its own nearest integer.
proof fn lemma_half_even_whole(n: nat, b: nat)
    requires
        b > 0,
    ensures
        half_even(n * b, b) == n,
{
    vstd::arithmetic::div_mod::lemma_fundamental_div_mod_converse(
        (n * b) as int,
        b as int,
        n as int,
        0,
    );
}

/// The nearest integer to a scaled significand, below the point.
proof fn lemma_fraction(p: nat, m: nat, k: nat, shift: nat, scale: nat)
    requires
        units(p) == m * pow2(k),
        k < 1074 + shift,
    ensures
        half_even(units(p) * scale, one() * pow2(shift)) == half_even(
            m * scale,
            pow2((1074 + shift - k) as nat),
        ),
        one() * pow2(shift) > 0,
{
    let t = (1074 + shift - k) as nat;
    let x = pow2(k);
    lemma_pow2_adds(1074, shift);
    lemma_pow2_adds(t, k);
    assert(t + k == 1074 + shift);
    lemma_pow2_pos(k);
    lemma_pow2_pos(t);
    lemma_pow2_pos(1074 + shift);
    assert(units(p) * scale == (m * scale) * x) by (nonlinear_arith)
        requires
            units(p) == m * x,
    ;
    lemma_half_even_scaled(m * scale, pow2(t), x);
}

/// A scaled significand that is a whole number.
proof fn lemma_whole(p: nat, m: nat, k: nat, shift: nat, scale: nat)
    requires
        units(p) == m * pow2(k),
        k >= 1074 + shift,
    ensures
        half_even(units(p) * scale, one() * pow2(shift)) == m * pow2((k - 1074 - shift) as nat) * scale,
{
    let w = pow2((k - 1074 - shift) as nat);
    let b = one() * pow2(shift);
    lemma_pow2_adds(1074, shift);
    lemma_pow2_adds((k - 1074 - shift) as nat, 1074 + shift);
    assert((k - 1074 - shift) as nat + (1074 + shift) == k);
    lemma_pow2_pos(1074 + shift);
    assert(units(p) * scale == (m * w * scale) * b) by (nonlinear_arith)
        requires
            units(p) == m * (w * b),
    ;
    lemma_half_even_whole(m * w * scale, b);
}

/// Behind the point of a whole number stand zeros.
proof fn lemma_whole_digits(v: nat, places: nat)
    requires
        places <= 2,
    ensures
        v * ten_to(places) / ten_to(places) == v,
        last_digits(v * ten_to(places), places) == last_digits(0, places),
{
    reveal_with_fuel(ten_to, 3);
    reveal_with_fuel(last_digits, 3);
    let n = v * ten_to(places);
    if places == 0 {
        assert(n == v) by (nonlinear_arith)
            requires
                n == v * ten_to(places),
                ten_to(places) == 1,
        ;
    } else if places == 1 {
        assert(n == 10 * v) by (nonlinear_arith)
            requires
                n == v * ten_to(places),
                ten_to(places) == 10,
        ;
        assert(n / 10 == v && n % 10 == 0);
        assert(last_digits(n, places) =~= last_digits(0, places));
    } else {
        assert(n == 100 * v) by (nonlinear_arith)
            requires
                n == v * ten_to(places),
                ten_to(places) == 100,
        ;
        assert(n / 100 == v && n % 10 == 0 && (n / 10) % 10 == 0);
        assert(last_digits(n, places) =~= last_digits(0, places));
    }
}

/// Appends a number divided by two to the power of `shift`, with `places` digits behind the point.
fn append_fixed(out: &mut String, value: Binary64, shift: u32, places: u32)
    requires
        value.finite(),
        shift <= 30,
        places <= 2,
    ensures
        final(out)@ == old(out)@ + fixed(value@, shift as nat, places as nat),
{
    proof {
        reveal_strlit(".");
        assert("."@ =~= seq!['.']);
        reveal_with_fuel(ten_to, 3);
        lemma2_to64();
        lemma2_to64_rest();
    }
    let (m, k): (u64, i32) = if value.bits == 0 {
        (0, 1074 + shift as i32)
    } else {
        split(value.bits)
    };
    assert(0 * pow2(k as nat) == 0) by (nonlinear_arith);
    if k >= 1074 + shift as i32 {
        let up: u32 = (k - 1074) as u32 - shift;
        append_shifted(out, m, up);
        proof {
            lemma_whole(value@, m as nat, k as nat, shift as nat, ten_to(places as nat));
            lemma_whole_digits(m as nat * pow2(up as nat), places as nat);
        }
        if places > 0 {
            out.append(".");
            append_last_digits(out, 0, places);
        } else {
            assert(m as nat * pow2(up as nat) * 1 == m as nat * pow2(up as nat));
        }
        assert(out@ =~= old(out)@ + fixed(value@, shift as nat, places as nat));
    } else {
        let down: i32 = 1074 + shift as i32 - k;
        let scale: u128 = if places == 0 {
            1
        } else if places == 1 {
            10
        } else {
            100
        };
        let a: u128 = (m as u128) * scale;
        proof {
            lemma_fraction(value@, m as nat, k as nat, shift as nat, scale as nat);
        }
        let n: u128 = if down >= 62 {
            proof {
                let b = pow2(down as nat);
                if down > 62 {
                    lemma_pow2_strictly_increases(62, down as nat);
                }
                vstd::arithmetic::div_mod::lemma_fundamental_div_mod_converse(
                    a as int,
                    b as int,
                    0,
                    a as int,
                );
            }
            0
        } else {
            let w: u128 = power_of_two(down as u32);
            proof {
                lemma_pow2_pos(down as nat);
                if down < 62 {
                    lemma_pow2_strictly_increases(down as nat, 62);
                }
            }
            let q: u128 = a / w;
            let r: u128 = a % w;
            assert(q <= a) by (nonlinear_arith)
                requires
                    w > 0,
                    q == a / w,
            ;
            if 2 * r > w || (2 * r == w && q % 2 == 1) {
                q + 1
            } else {
                q
            }
        };
        append_decimal(out, n / scale);
        if places > 0 {
            out.append(".");
            append_last_digits(out, n, places);
        }
        assert(out@ =~= old(out)@ + fixed(value@, shift as nat, places as nat));
    }
}

/// A size as text: whole bytes below one kilobyte, then kilobytes without decimals, megabytes with
/// one and gigabytes with two.
pub open spec fn size_text(bytes: int) -> Seq<char> {
    if bytes >= 0x4000_0000 {
        fixed(rounded(bytes as nat), 30, 2) + "GB"@
    } else if bytes >= 0x10_0000 {
        fixed(rounded(bytes as nat), 20, 1) + "MB"@
    } else if bytes >= 0x400 {
        fixed(rounded(bytes as nat), 10, 0) + "KB"@
    } else {
        signed_decimal(bytes) + "B"@
    }
}

/// Writes a size in bytes for people to read.
pub fn format_size(bytes: i64) -> (r: String)
    ensures
        r@ == size_text(bytes as int),
{
    let mut out: String = String::new();
    if bytes >= 0x4000_0000 {
        append_fixed(&mut out, Binary64::from_integer(bytes as u64), 30, 2);
        out.append("GB");
    } else if bytes >= 0x10_0000 {
        append_fixed(&mut out, Binary64::from_integer(bytes as u64), 20, 1);
        out.append("MB");
    } else if bytes >= 0x400 {
        append_fixed(&mut out, Binary64::from_integer(bytes as u64), 10, 0);
        out.append("KB");
    } else {
        append_signed(&mut out, bytes);
        out.append("B");
    }
    assert(out@ =~= size_text(bytes as int));
    out
}

/// The pattern of 1024.
pub const KILO: u64 = 0x4090_0000_0000_0000;

/// The pattern of 1048576.
pub const MEGA: u64 = 0x4130_0000_0000_0000;

/// A speed in bytes per second as text; dashes where there is none.
pub open spec fn speed_text(bps: Binary64) -> Seq<char> {
    if bps.bits == 0 || SIGN <= bps.bits <= SIGN + INFINITY {
        "---"@
    } else if bps.bits == INFINITY {
        "infMB/s"@
    } else if bps.bits > INFINITY {
        "NaNB/s"@
    } else if bps.bits >= MEGA {
        fixed(bps@, 20, 2) + "MB/s"@
    } else if bps.bits >= KILO {
        fixed(bps@, 10, 0) + "KB/s"@
    } else {
        fixed(bps@, 0, 0) + "B/s"@
    }
}

/// Writes a speed in bytes per second for people to read.
pub fn format_speed(bps: Binary64) -> (r: String)
    ensures
        r@ == speed_text(bps),
{
    let mut out: String = String::new();
    if bps.bits == 0 || (SIGN <= bps.bits && bps.bits <= SIGN + INFINITY) {
        out.append("---");
    } else if bps.bits == INFINITY {
        out.append("infMB/s");
    } else if bps.bits > INFINITY {
        out.append("NaNB/s");
    } else if bps.bits >= MEGA {
        append_fixed(&mut out, bps, 20, 2);
        out.append("MB/s");
    } else if bps.bits >= KILO {
        append_fixed(&mut out, bps, 10, 0);
        out.append("KB/s");
    } else {
        append_fixed(&mut out, bps, 0, 0);
        out.append("B/s");
    }
    assert(out@ =~= speed_text(bps));
    out
}

/// The integer nearest to a fraction is no further from it than a half, and is even where it is as far.
pub proof fn half_even_is_nearest(a: nat, b: nat)
    requires
        b > 0,
    ensures
        2 * gap((half_even(a, b) * b) as int, a as int) <= b,
        2 * gap((half_even(a, b) * b) as int, a as int) == b ==> half_even(a, b) % 2 == 0,
{
    let q = a / b;
    let r = a % b;
    assert(a == q * b + r && (q + 1) * b == q * b + b) by (nonlinear_arith)
        requires
            b > 0,
            q == a / b,
            r == a % b,
    ;
}

/// The number that a text with so many digits behind its point shows, without the point.
pub open spec fn shown(text: Seq<char>, places: nat) -> int {
    if places == 0 {
        reading(text)
    } else {
        reading(text.take(text.len() - places - 1) + text.skip(text.len() - places))
    }
}

/// A number with decimal places reads as the nearest one: what it shows is that number times ten to the
/// power of the places, but for a half.
pub proof fn a_fixed_numeral_reads_as_its_number(p: nat, shift: nat, places: nat)
    requires
        places <= 2,
    ensures
        ({
            let text = fixed(p, shift, places);
            let unit = one() * pow2(shift);
            &&& 2 * gap(shown(text, places) * unit, (units(p) * pow(10, places)) as int) <= unit
            &&& shown(text, places) >= 0
            &&& places > 0 ==> text.len() > places + 1 && text[text.len() - places - 1] == '.'
        }),
{
    let text = fixed(p, shift, places);
    let unit = one() * pow2(shift);
    lemma_pow2_pos(1074);
    lemma_pow2_pos(shift);
    assert(unit > 0) by (nonlinear_arith)
        requires
            unit == one() * pow2(shift),
            one() > 0,
            pow2(shift) > 0,
    ;
    lemma_ten_to(places);
    let a = units(p) * ten_to(places);
    let n = half_even(a, unit);
    half_even_is_nearest(a, unit);
    if places == 0 {
        a_numeral_reads_as_its_number(n);
    } else {
        let whole = decimal(n / ten_to(places));
        let part = last_digits(n, places);
        a_numeral_reads_as_its_number(n / ten_to(places));
        last_digits_read_as_the_remainder(n, places);
        assert(text.take(text.len() - places - 1) =~= whole);
        assert(text.skip(text.len() - places) =~= part);
        numerals_read_on(whole, part);
        let m = ten_to(places);
        assert(n == (n / m) * m + n % m) by (nonlinear_arith)
            requires
                m > 0,
        ;
    }
}

proof fn lemma_ten_to(places: nat)
    ensures
        ten_to(places) == pow(10, places),
        ten_to(places) > 0,
    decreases places,
{
    reveal(pow);
    if places == 0 {
        vstd::arithmetic::power::lemma_pow0(10);
    } else {
        lemma_ten_to((places - 1) as nat);
    }
}

/// A text without the unit at its end.
pub open spec fn without_unit(text: Seq<char>, unit: Seq<char>) -> Seq<char> {
    text.take(text.len() - unit.len())
}

/// Whether a text ends with a unit.
pub open spec fn has_unit(text: Seq<char>, unit: Seq<char>) -> bool {
    text.len() > unit.len() && text.skip(text.len() - unit.len()) == unit
}

proof fn lemma_unit(number: Seq<char>, unit: Seq<char>)
    requires
        number.len() > 0,
    ensures
        has_unit(number + unit, unit),
        without_unit(number + unit, unit) == number,
{
    assert((number + unit).skip(number.len() as int) =~= unit);
    assert((number + unit).take(number.len() as int) =~= number);
}

proof fn lemma_fixed_is_text(p: nat, shift: nat, places: nat)
    ensures
        fixed(p, shift, places).len() > 0,
{
    let n = half_even(units(p) * ten_to(places), one() * pow2(shift));
    a_numeral_reads_as_its_number(n);
    a_numeral_reads_as_its_number(n / ten_to(places));
}

proof fn lemma_shown_with_unit(p: nat, shift: nat, places: nat, unit: Seq<char>)
    requires
        places <= 2,
    ensures
        ({
            let text = fixed(p, shift, places) + unit;
            let scale: nat = if places == 0 {
                1
            } else if places == 1 {
                10
            } else {
                100
            };
            &&& has_unit(text, unit)
            &&& 2 * gap(
                shown(without_unit(text, unit), places) * (one() * pow2(shift)),
                scale * units(p) as int,
            ) <= one() * pow2(shift)
        }),
{
    vstd::arithmetic::power::lemma_pow0(10);
    reveal(pow);
    assert(pow(10, 1) == 10 * pow(10, 0));
    assert(pow(10, 2) == 10 * pow(10, 1));
    a_fixed_numeral_reads_as_its_number(p, shift, places);
    lemma_fixed_is_text(p, shift, places);
    lemma_unit(fixed(p, shift, places), unit);
}

/// A size shows the number of bytes: all of them below 1024, and else the nearest number of kilobytes,
/// tenths of megabytes or hundredths of gigabytes. (The bytes are rounded to 53 bits, which changes none
/// below two to the power of 53.)
pub proof fn a_size_shows_its_bytes(bytes: nat)
    ensures
        ({
            let text = size_text(bytes as int);
            let exact = units(rounded(bytes));
            &&& bytes < 0x400 ==> has_unit(text, "B"@) && reading(without_unit(text, "B"@)) == bytes
            &&& 0x400 <= bytes < 0x10_0000 ==> has_unit(text, "KB"@) && 2 * gap(
                shown(without_unit(text, "KB"@), 0) * (one() * pow2(10)),
                exact as int,
            ) <= one() * pow2(10)
            &&& 0x10_0000 <= bytes < 0x4000_0000 ==> has_unit(text, "MB"@) && 2 * gap(
                shown(without_unit(text, "MB"@), 1) * (one() * pow2(20)),
                10 * exact as int,
            ) <= one() * pow2(20)
            &&& bytes >= 0x4000_0000 ==> has_unit(text, "GB"@) && 2 * gap(
                shown(without_unit(text, "GB"@), 2) * (one() * pow2(30)),
                100 * exact as int,
            ) <= one() * pow2(30)
            &&& bytes < 0x20_0000_0000_0000 ==> exact == bytes * one()
        }),
{
    let p = rounded(bytes);
    if bytes < 0x20_0000_0000_0000 {
        crate::binary64::small_integers_are_exact(bytes);
    }
    if bytes < 0x400 {
        a_signed_numeral_reads_as_its_number(bytes as int);
        a_numeral_reads_as_its_number(bytes);
        lemma_unit(signed_decimal(bytes as int), "B"@);
    } else if bytes < 0x10_0000 {
        lemma_shown_with_unit(p, 10, 0, "KB"@);
    } else if bytes < 0x4000_0000 {
        lemma_shown_with_unit(p, 20, 1, "MB"@);
    } else {
        lemma_shown_with_unit(p, 30, 2, "GB"@);
    }
}

/// A negative size shows its bytes, all of them.
pub proof fn a_negative_size_shows_its_bytes(bytes: int)
    requires
        bytes < 0,
    ensures
        has_unit(size_text(bytes), "B"@),
        without_unit(size_text(bytes), "B"@) == signed_decimal(bytes),
{
    a_signed_numeral_reads_as_its_number(bytes);
    a_numeral_reads_as_its_number((-bytes) as nat);
    lemma_unit(signed_decimal(bytes), "B"@);
}

/// A speed shows the number of bytes per second: the nearest whole number of them below 1024, and else
/// the nearest number of kilobytes or hundredths of megabytes; zero and less show none, and what has no end
/// or is no number says so.
pub proof fn a_speed_shows_its_bytes_per_second(bps: Binary64)
    ensures
        ({
            let text = speed_text(bps);
            let u = units(bps@);
            &&& !bps.positive() && bps.bits <= SIGN + INFINITY && !(INFINITY < bps.bits < SIGN)
                ==> text == "---"@
            &&& bps.bits == INFINITY ==> text == "infMB/s"@
            &&& INFINITY < bps.bits < SIGN || bps.bits > SIGN + INFINITY ==> text == "NaNB/s"@
            &&& 0 < bps.bits < INFINITY && u < 1024 * one() ==> has_unit(text, "B/s"@) && 2 * gap(
                shown(without_unit(text, "B/s"@), 0) * one(),
                u as int,
            ) <= one()
            &&& bps.bits < INFINITY && 1024 * one() <= u < 1024 * 1024 * one() ==> has_unit(
                text,
                "KB/s"@,
            ) && 2 * gap(shown(without_unit(text, "KB/s"@), 0) * (one() * pow2(10)), u as int)
                <= one() * pow2(10)
            &&& bps.bits < INFINITY && u >= 1024 * 1024 * one() ==> has_unit(text, "MB/s"@) && 2
                * gap(
                shown(without_unit(text, "MB/s"@), 2) * (one() * pow2(20)),
                100 * u as int,
            ) <= one() * pow2(20)
        }),
{
    let p = bps@;
    let u = units(p);
    let w = one();
    lemma2_to64();
    lemma_pow2_pos(1074);
    crate::binary64::lemma_units_of_power(10);
    crate::binary64::lemma_units_of_power(20);
    assert(KILO == crate::binary64::power_pattern(10));
    assert(MEGA == crate::binary64::power_pattern(20));
    lemma_pow2_adds(10, 1074);
    lemma_pow2_adds(20, 1074);
    assert(pow2(1084) == 1024 * w && pow2(1094) == 1024 * 1024 * w);
    crate::binary64::units_are_ordered(p, KILO as nat);
    crate::binary64::units_are_ordered(p, MEGA as nat);
    lemma_shown_with_unit(p, 0, 0, "B/s"@);
    lemma_shown_with_unit(p, 10, 0, "KB/s"@);
    lemma_shown_with_unit(p, 20, 2, "MB/s"@);
    assert(w * pow2(0) == w);
}

} // verus!
