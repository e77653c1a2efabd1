//! How far a run has come.

use vstd::arithmetic::power2::{lemma2_to64, lemma2_to64_rest, lemma_pow2_pos};
use vstd::prelude::*;

use crate::binary64::{gap, lemma_bound_integer, lemma_bound_product, lemma_bound_quotient,
    lemma_units_of_power, nearest_exists, nearest_is_monotone, one, product, quotient, ratios_are_near,
    round_half_up, rounded, rounded_is_monotone, rounding_half_up_moves_by_a_half, small_integers_are_exact,
    the_nearest_is_near, truncated_to_u64, truncation_takes_less_than_one, units, units_are_ordered, Binary64,
    BINADE, INFINITY};
use crate::format::{format_size, size_text};
use crate::text::{a_numeral_reads_as_its_number, append_decimal, decimal, reading};

verus! {

/// The part of the tasks that is done, in whole percent; everything where there are none.
pub open spec fn percentage(processed: nat, total: nat) -> nat {
    if total == 0 {
        100
    } else {
        let exact = round_half_up(product(quotient(rounded(processed), rounded(total)), rounded(100)));
        if exact <= u32::MAX {
            exact
        } else {
            u32::MAX as nat
        }
    }
}

/// The part of the tasks that is done, in whole percent.
pub fn percent(processed: u32, total: usize) -> (r: u32)
    ensures
        r == percentage(processed as nat, total as nat),
{
    if total == 0 {
        return 100;
    }
    let done: Binary64 = Binary64::from_integer(processed as u64);
    let all: Binary64 = Binary64::from_integer(total as u64);
    let hundred: Binary64 = Binary64::from_integer(100);
    proof {
        lemma2_to64();
        lemma2_to64_rest();
        lemma_bound_integer(done@, processed as nat, 64);
        lemma_bound_integer(all@, total as nat, 64);
        lemma_bound_integer(hundred@, 100, 7);
        lemma_units_of_power(0);
    }
    let part: Binary64 = done.divided_by(all);
    proof {
        lemma_bound_quotient(part@, done@, all@, 64, 0);
        lemma_units_of_power(64);
    }
    let scaled: Binary64 = part.times(hundred);
    proof {
        lemma_bound_product(scaled@, part@, hundred@, 64, 7);
        lemma_units_of_power(71);
    }
    let whole: u64 = scaled.rounded_half_up();
    if whole > u32::MAX as u64 {
        u32::MAX
    } else {
        whole as u32
    }
}

/// As long as no more tasks are done than there are, the percentage is at most a hundred; it is a
/// hundred when all are done, and nothing when none is.
pub proof fn percentage_is_within_bounds(processed: nat, total: nat)
    requires
        processed <= total,
        0 < total <= u64::MAX,
    ensures
        percentage(processed, total) <= 100,
        percentage(total, total) == 100,
        percentage(0, total) == 0,
{
    lemma_percentage(processed, total);
    lemma_percentage(total, total);
    lemma_percentage(0, total);
}

proof fn lemma_percentage(processed: nat, total: nat)
    requires
        processed <= total,
        0 < total <= u64::MAX,
    ensures
        percentage(processed, total) <= 100,
        processed == total ==> percentage(processed, total) == 100,
        processed == 0 ==> percentage(processed, total) == 0,
{
    let a = rounded(processed);
    let b = rounded(total);
    let w = one();
    rounded_is_monotone(processed, total);
    rounded_is_monotone(1, total);
    small_integers_are_exact(0);
    small_integers_are_exact(1);
    small_integers_are_exact(100);
    assert(1 * w == w && 0 * w == 0);
    let unit = rounded(1);
    let hundred = rounded(100);
    lemma_pow2_pos(1074);
    units_are_ordered(a, b);
    units_are_ordered(unit, b);
    units_are_ordered(0, b);
    units_are_ordered(0, a);
    // The part that is done is at most one.
    let q = quotient(a, b);
    nearest_exists(units(a) * w, units(b));
    let x = units(a);
    let y = units(b);
    assert(x * w <= w * y) by (nonlinear_arith)
        requires
            x <= y,
    ;
    nearest_is_monotone(q, x * w, y, unit);
    if processed == total {
        assert(x * w >= w * y) by (nonlinear_arith)
            requires
                x == y,
        ;
    }
    if processed == 0 {
        assert(x * w <= 0 * y) by (nonlinear_arith)
            requires
                x == 0,
        ;
        nearest_is_monotone(q, x * w, y, 0);
    }
    // A hundred times that is at most a hundred.
    let s = product(q, hundred);
    nearest_exists(units(q) * units(hundred), w);
    units_are_ordered(q, unit);
    let u = units(q);
    let h = units(hundred);
    assert(u * h <= h * w) by (nonlinear_arith)
        requires
            u <= w,
    ;
    nearest_is_monotone(s, u * h, w, hundred);
    if processed == total {
        assert(u * h >= h * w) by (nonlinear_arith)
            requires
                u == w,
        ;
    }
    if processed == 0 {
        assert(u * h <= 0 * w) by (nonlinear_arith)
            requires
                u == 0,
        ;
        nearest_is_monotone(s, u * h, w, 0);
    }
    units_are_ordered(s, hundred);
    let v = units(s);
    assert((2 * v + w) / (2 * w) <= 100) by (nonlinear_arith)
        requires
            v <= 100 * w,
            w > 0,
    ;
    if processed == total {
        assert((2 * v + w) / (2 * w) == 100) by (nonlinear_arith)
            requires
                v == 100 * w,
                w > 0,
        ;
    }
    if processed == 0 {
        assert((2 * v + w) / (2 * w) == 0) by (nonlinear_arith)
            requires
                v == 0,
                w > 0,
        ;
    }
}

/// How many bytes all tasks will have, going by those that are done, and no fewer than these have.
pub open spec fn estimated_total(bytes: nat, processed: nat, total: nat) -> nat {
    if processed == 0 {
        bytes
    } else {
        let known = rounded(bytes);
        let scaled = product(quotient(known, rounded(processed)), rounded(total));
        let n = truncated_to_u64(
            if scaled > known {
                scaled
            } else {
                known
            },
        );
        if n <= i64::MAX {
            n
        } else {
            i64::MAX as nat
        }
    }
}

/// No fewer bytes are expected than are there, unless their number is rounded down; none below two to
/// the power of 53 is.
pub proof fn estimate_is_no_less_than_known(bytes: nat, processed: nat, total: nat)
    requires
        bytes <= i64::MAX,
        bytes < 0x20_0000_0000_0000 || units(rounded(bytes)) >= bytes * one(),
    ensures
        estimated_total(bytes, processed, total) >= bytes,
{
    if processed > 0 {
        if bytes < 0x20_0000_0000_0000 {
            small_integers_are_exact(bytes);
        }
        let known = rounded(bytes);
        let scaled = product(quotient(known, rounded(processed)), rounded(total));
        let p = if scaled > known {
            scaled
        } else {
            known
        };
        units_are_ordered(known, p);
        lemma_pow2_pos(1074);
        let u = units(p);
        let w = one();
        assert(u / w >= bytes) by (nonlinear_arith)
            requires
                u >= bytes * w,
                w > 0,
        ;
    }
}

/// How many bytes all tasks will have, going by those that are done.
fn estimate_total(bytes: i64, processed: u32, total: usize) -> (r: i64)
    requires
        bytes > 0,
    ensures
        r == estimated_total(bytes as nat, processed as nat, total as nat),
{
    if processed == 0 {
        return bytes;
    }
    let known: Binary64 = Binary64::from_integer(bytes as u64);
    let done: Binary64 = Binary64::from_integer(processed as u64);
    let all: Binary64 = Binary64::from_integer(total as u64);
    proof {
        lemma2_to64();
        lemma2_to64_rest();
        lemma_bound_integer(known@, bytes as nat, 64);
        lemma_bound_integer(done@, processed as nat, 64);
        lemma_bound_integer(all@, total as nat, 64);
        lemma_units_of_power(0);
    }
    let each: Binary64 = known.divided_by(done);
    proof {
        lemma_bound_quotient(each@, known@, done@, 64, 0);
        lemma_units_of_power(64);
    }
    let scaled: Binary64 = each.times(all);
    proof {
        lemma_bound_product(scaled@, each@, all@, 64, 64);
        lemma_units_of_power(128);
    }
    let n: u64 = if scaled.bits > known.bits {
        scaled.truncated()
    } else {
        known.truncated()
    };
    if n > i64::MAX as u64 {
        i64::MAX
    } else {
        n as i64
    }
}

/// How long it takes, in seconds, until the bytes that are still to be expected are there; nothing is
/// known before a task is done and while no bytes come.
pub open spec fn remaining_seconds(bytes: int, processed: nat, total: nat, rate: nat) -> Option<nat> {
    if bytes <= 0 || processed == 0 || rate == 0 {
        None
    } else {
        let expected = estimated_total(bytes as nat, processed, total);
        let missing = if expected > bytes {
            (expected - bytes) as nat
        } else {
            0
        };
        Some(quotient(rounded(missing), rate))
    }
}

/// Estimates how long it takes until the bytes that are still to be expected are there.
pub fn estimate_remaining(bytes: i64, processed: u32, total: usize, rate: Binary64) -> (r: Option<
    Binary64,
>)
    requires
        rate.finite(),
    ensures
        r is Some <==> remaining_seconds(bytes as int, processed as nat, total as nat, rate@) is Some,
        r matches Some(eta) ==> remaining_seconds(
            bytes as int,
            processed as nat,
            total as nat,
            rate@,
        ) == Some(eta@),
{
    if bytes <= 0 || processed == 0 || rate.bits == 0 {
        return None;
    }
    let expected: i64 = estimate_total(bytes, processed, total);
    let missing: u64 = if expected > bytes {
        (expected - bytes) as u64
    } else {
        0
    };
    Some(Binary64::from_integer(missing).divided_by(rate))
}

/// The bytes that are there, and behind a slash those that are to be expected, as text.
pub open spec fn size_progress(bytes: int, processed: nat, total: nat) -> Seq<char> {
    if bytes > 0 {
        size_text(bytes) + "/"@ + size_text(estimated_total(bytes as nat, processed, total) as int)
    } else {
        size_text(bytes)
    }
}

/// Writes the bytes that are there and those that are to be expected.
pub fn format_progress(bytes: i64, processed: u32, total: usize) -> (r: String)
    ensures
        r@ == size_progress(bytes as int, processed as nat, total as nat),
{
    let mut out: String = format_size(bytes);
    if bytes > 0 {
        out.append("/");
        let rest: String = format_size(estimate_total(bytes, processed, total));
        out.append(rest.as_str());
    }
    out
}

/// The tasks that are done of all tasks, as text.
pub open spec fn count_text(processed: nat, total: nat) -> Seq<char> {
    decimal(processed) + "/"@ + decimal(total)
}

/// Writes how many tasks are done of all tasks.
pub fn format_count(processed: u32, total: usize) -> (r: String)
    ensures
        r@ == count_text(processed as nat, total as nat),
{
    let mut out: String = String::new();
    append_decimal(&mut out, processed as u128);
    out.append("/");
    append_decimal(&mut out, total as u128);
    assert(out@ =~= count_text(processed as nat, total as nat));
    out
}

/// The percentage is the whole number nearest to the hundredfold part of the tasks that is done.
pub proof fn the_percentage_is_the_nearest(processed: nat, total: nat)
    requires
        200 * processed < 0x4_0000_0000_0000,
        0 < total < 2 * BINADE,
        percentage(processed, total) < u32::MAX,
    ensures
        2 * gap((percentage(processed, total) * total) as int, (100 * processed) as int) <= total,
{
    ratios_are_near(processed, total, 100);
    let p = product(quotient(rounded(processed), rounded(total)), rounded(100));
    rounding_half_up_moves_by_a_half(p);
    let w = one();
    lemma_pow2_pos(1074);
    let v = units(p);
    let r = round_half_up(p);
    let y = 100 * processed;
    let k: nat = 0x4_0000_0000_0000;
    assert(processed * 100 * w == y * w);
    let g = gap((v * total) as int, (y * w) as int);
    let h = gap((r * w) as int, v as int);
    crate::binary64::lemma_gap_scaled(r * w, v, total);
    let e = gap((r * total) as int, y as int);
    crate::binary64::lemma_gap_scaled(r * total, y, w);
    assert((r * w) * total == (r * total) * w) by (nonlinear_arith);
    assert(e * w <= h * total + g);
    assert(2 * e <= total) by (nonlinear_arith)
        requires
            e * w <= h * total + g,
            2 * h <= w,
            k * g <= y * w,
            2 * y < k,
            w > 0,
            total >= 0,
    ;
}

/// The bytes to be expected are as many for each task as those that are done have, rounded down.
pub proof fn the_estimate_is_proportional(bytes: nat, processed: nat, total: nat)
    requires
        bytes * total < 0x4_0000_0000_0000,
        bytes < 2 * BINADE,
        0 < processed <= total < 2 * BINADE,
    ensures
        estimated_total(bytes, processed, total) * processed <= bytes * total,
        estimated_total(bytes, processed, total) * processed + processed >= bytes * total,
{
    ratios_are_near(bytes, processed, total);
    let scaled = product(quotient(rounded(bytes), rounded(processed)), rounded(total));
    let known = rounded(bytes);
    small_integers_are_exact(bytes);
    let w = one();
    lemma_pow2_pos(1074);
    let v = units(scaled);
    let y = bytes * total;
    let k: nat = 0x4_0000_0000_0000;
    let g = gap((v * processed) as int, (y * w) as int);
    assert(g < w) by (nonlinear_arith)
        requires
            k * g <= y * w,
            y < k,
            w > 0,
    ;
    assert(v <= v * processed) by (nonlinear_arith)
        requires
            processed >= 1,
    ;
    assert(v < 0x1_0000_0000_0000_0000 * w) by (nonlinear_arith)
        requires
            v <= y * w + g,
            g < w,
            y < k,
            k == 0x4_0000_0000_0000,
            w > 0,
    ;
    assert(bytes * w < 0x1_0000_0000_0000_0000 * w) by (nonlinear_arith)
        requires
            bytes < 0x1_0000_0000_0000_0000,
            w > 0,
    ;
    truncation_takes_less_than_one(scaled);
    truncation_takes_less_than_one(known);
    let t = truncated_to_u64(scaled);
    let kt = truncated_to_u64(known);
    assert(bytes <= y) by (nonlinear_arith)
        requires
            y == bytes * total,
            total >= 1,
    ;
    assert(kt == bytes) by (nonlinear_arith)
        requires
            kt * w <= bytes * w,
            bytes * w < (kt + 1) * w,
            w > 0,
    ;
    let x = t * processed;
    assert(x * w <= v * processed) by (nonlinear_arith)
        requires
            t * w <= v,
            x == t * processed,
    ;
    assert((x + processed) * w > v * processed) by (nonlinear_arith)
        requires
            (t + 1) * w > v,
            x == t * processed,
            processed > 0,
    ;
    assert(x <= y) by (nonlinear_arith)
        requires
            x * w < y * w + w,
            w > 0,
    ;
    let z = x + processed;
    assert(z >= y) by (nonlinear_arith)
        requires
            z * w > y * w - w,
            w > 0,
    ;
    assert(t <= x) by (nonlinear_arith)
        requires
            x == t * processed,
            processed >= 1,
    ;
    assert(bytes * processed <= y) by (nonlinear_arith)
        requires
            y == bytes * total,
            processed <= total,
    ;
    units_are_ordered(scaled, known);
    if scaled <= known {
        crate::binary64::truncation_is_monotone(scaled, known);
        assert(bytes * processed >= x) by (nonlinear_arith)
            requires
                x == t * processed,
                t <= bytes,
        ;
    }
}

/// However great they are, the bytes to be expected are as many for each task as those that are done have,
/// but for less than one byte and one part in two to the power of 50, as far as an `i64` can tell them.
pub proof fn great_estimates_are_near(bytes: nat, processed: nat, total: nat)
    requires
        bytes < 2 * BINADE,
        0 < processed <= total < 2 * BINADE,
        estimated_total(bytes, processed, total) < i64::MAX,
    ensures
        ({
            let part: nat = 0x4_0000_0000_0000;
            let n = estimated_total(bytes, processed, total);
            &&& part * (n * processed) <= (part + 1) * (bytes * total)
            &&& part * ((n + 1) * processed) >= (part - 1) * (bytes * total)
        }),
{
    ratios_are_near(bytes, processed, total);
    let scaled = product(quotient(rounded(bytes), rounded(processed)), rounded(total));
    let known = rounded(bytes);
    small_integers_are_exact(bytes);
    let w = one();
    lemma_pow2_pos(1074);
    let v = units(scaled);
    let y = bytes * total;
    let k: nat = 0x4_0000_0000_0000;
    let g = gap((v * processed) as int, (y * w) as int);
    let greater = if scaled > known {
        scaled
    } else {
        known
    };
    let u = units(greater);
    let n = estimated_total(bytes, processed, total);
    vstd::arithmetic::div_mod::lemma_fundamental_div_mod(u as int, w as int);
    assert(n == u / w);
    assert(n * w <= u < (n + 1) * w) by (nonlinear_arith)
        requires
            u == w * (u / w) + u % w,
            n == u / w,
            0 <= u % w < w,
    ;
    units_are_ordered(scaled, greater);
    let x = n * processed;
    let z = (n + 1) * processed;
    assert(z * w >= v * processed) by (nonlinear_arith)
        requires
            (n + 1) * w > u,
            u >= v,
            z == (n + 1) * processed,
    ;
    assert(k * z >= (k - 1) * y) by (nonlinear_arith)
        requires
            z * w >= y * w - g,
            k * g <= y * w,
            w > 0,
            k > 0,
    ;
    if scaled > known {
        assert(x * w <= v * processed) by (nonlinear_arith)
            requires
                n * w <= v,
                x == n * processed,
        ;
        assert(k * x <= (k + 1) * y) by (nonlinear_arith)
            requires
                x * w <= y * w + g,
                k * g <= y * w,
                w > 0,
                k > 0,
        ;
    } else {
        assert(n <= bytes) by (nonlinear_arith)
            requires
                n * w <= bytes * w,
                w > 0,
        ;
        assert(x <= y) by (nonlinear_arith)
            requires
                x == n * processed,
                y == bytes * total,
                n <= bytes,
                processed <= total,
        ;
        assert(k * x <= (k + 1) * y) by (nonlinear_arith)
            requires
                x <= y,
                k > 0,
                y >= 0,
        ;
    }
}

/// Where nothing is done the bytes to be expected are those that are there.
pub proof fn nothing_done_leaves_nothing_to_expect(bytes: nat, total: nat)
    ensures
        estimated_total(bytes, 0, total) == bytes,
{
}

/// The time to go is that in which the missing bytes come at the rate: multiplied with it, it gives them,
/// but for half of the last place. There is none before a task is done and while no bytes come.
pub proof fn the_time_to_go_brings_the_missing_bytes(
    bytes: nat,
    processed: nat,
    total: nat,
    rate: nat,
    missing: nat,
)
    requires
        bytes > 0,
        processed > 0,
        rate > 0,
        missing < 2 * BINADE,
        bytes + missing == if estimated_total(bytes, processed, total) > bytes {
            estimated_total(bytes, processed, total)
        } else {
            bytes
        },
    ensures
        remaining_seconds(bytes as int, processed, total, 0) is None,
        remaining_seconds(bytes as int, 0, total, rate) is None,
        remaining_seconds(0, processed, total, rate) is None,
        remaining_seconds(bytes as int, processed, total, rate) matches Some(eta) && (eta < INFINITY
            ==> 2 * BINADE * gap(
            (units(eta) * units(rate)) as int,
            (missing * one() * one()) as int,
        ) <= units(eta) * units(rate) + BINADE * units(rate)),
{
    small_integers_are_exact(missing);
    units_are_ordered(0, rate);
    if quotient(rounded(missing), rate) < INFINITY {
        the_nearest_is_near(missing * one() * one(), units(rate));
    }
}

/// A count shows both of its numbers, with a slash between them.
pub proof fn a_count_shows_its_numbers(processed: nat, total: nat)
    ensures
        exists|at: int|
            0 < at < count_text(processed, total).len() && #[trigger] count_text(processed, total)[at]
                == '/' && reading(count_text(processed, total).take(at)) == processed && reading(
                count_text(processed, total).skip(at + 1),
            ) == total,
{
    a_numeral_reads_as_its_number(processed);
    a_numeral_reads_as_its_number(total);
    reveal_strlit("/");
    let at = decimal(processed).len() as int;
    let text = count_text(processed, total);
    assert(text[at] == '/');
    assert(text.take(at) =~= decimal(processed));
    assert(text.skip(at + 1) =~= decimal(total));
}

/// The progress of sizes shows the bytes that are there, and behind a slash those that are to be expected.
pub proof fn a_size_progress_shows_both(bytes: nat, processed: nat, total: nat)
    ensures
        ({
            let here = size_text(bytes as int);
            let text = size_progress(bytes as int, processed, total);
            &&& text.len() >= here.len() && text.take(here.len() as int) == here
            &&& bytes == 0 ==> text == here
            &&& bytes > 0 ==> text.skip(here.len() as int) == seq!['/'] + size_text(
                estimated_total(bytes, processed, total) as int,
            )
        }),
{
    reveal_strlit("/");
    let here = size_text(bytes as int);
    let text = size_progress(bytes as int, processed, total);
    assert(text.take(here.len() as int) =~= here);
    if bytes > 0 {
        assert(text.skip(here.len() as int) =~= seq!['/'] + size_text(
            estimated_total(bytes, processed, total) as int,
        ));
    }
}

/// Where there is nothing to do everything is done.
pub proof fn nothing_to_do_is_done(processed: nat)
    ensures
        percentage(processed, 0) == 100,
{
}

} // verus!
