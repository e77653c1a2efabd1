//! Text helpers: white space, decimal numerals and ASCII comparison.

use vstd::arithmetic::power::{lemma_pow0, pow};
use vstd::arithmetic::power2::{lemma2_to64, lemma_pow2_unfold, pow2};
use vstd::prelude::*;

verus! {

/// Whether `c` has the Unicode `White_Space` property.
pub open spec fn white_space(c: char) -> bool {
    let n = c as u32;
    ||| 0x9 <= n <= 0xd
    ||| n == 0x20
    ||| n == 0x85
    ||| n == 0xa0
    ||| n == 0x1680
    ||| 0x2000 <= n <= 0x200a
    ||| n == 0x2028
    ||| n == 0x2029
    ||| n == 0x202f
    ||| n == 0x205f
    ||| n == 0x3000
}

/// Whether every character of `s` is white space; true of the empty text.
pub open spec fn blank(s: Seq<char>) -> bool {
    forall|i: int| 0 <= i < s.len() ==> white_space(#[trigger] s[i])
}

/// Tests one character for the `White_Space` property.
pub fn is_white_space(c: char) -> (r: bool)
    ensures
        r == white_space(c),
{
    let n: u32 = c as u32;
    (0x9 <= n && n <= 0xd) || n == 0x20 || n == 0x85 || n == 0xa0 || n == 0x1680 || (0x2000 <= n && n
        <= 0x200a) || n == 0x2028 || n == 0x2029 || n == 0x202f || n == 0x205f || n == 0x3000
}

/// Tests whether a text is empty or made of white space alone.
pub fn is_blank(s: &str) -> (r: bool)
    ensures
        r == blank(s@),
{
    for c in it: s.chars()
        invariant
            it.seq() == s@,
            forall|i: int| 0 <= i < it.index() ==> white_space(#[trigger] s@[i]),
    {
        if !is_white_space(c) {
            return false;
        }
    }
    true
}

/// Tests two texts for equality.
pub fn same_text(a: &str, b: &str) -> (r: bool)
    ensures
        r == (a@ == b@),
{
    a.to_owned() == b.to_owned()
}

/// The lower-case form of an ASCII letter; any other character as it is.
pub open spec fn ascii_lower(c: char) -> char {
    if 'A' <= c <= 'Z' {
        (c as u32 + 32) as char
    } else {
        c
    }
}

/// The character of a decimal digit.
pub open spec fn digit(d: int) -> char {
    (48 + d) as char
}

/// The decimal numeral of `n`, without leading zeros.
pub open spec fn decimal(n: nat) -> Seq<char>
    decreases n,
{
    if n < 10 {
        seq![digit(n as int)]
    } else {
        decimal(n / 10).push(digit((n % 10) as int))
    }
}

/// The decimal numeral of `n`, with a leading minus sign when it is negative.
pub open spec fn signed_decimal(n: int) -> Seq<char> {
    if n < 0 {
        seq!['-'] + decimal((-n) as nat)
    } else {
        decimal(n as nat)
    }
}

/// Appends one decimal digit.
pub fn append_digit(out: &mut String, d: u8)
    requires
        d < 10,
    ensures
        final(out)@ == old(out)@.push(digit(d as int)),
{
    proof {
        reveal_strlit("0");
        reveal_strlit("1");
        reveal_strlit("2");
        reveal_strlit("3");
        reveal_strlit("4");
        reveal_strlit("5");
        reveal_strlit("6");
        reveal_strlit("7");
        reveal_strlit("8");
        reveal_strlit("9");
    }
    let t: &str = match d {
        0 => "0",
        1 => "1",
        2 => "2",
        3 => "3",
        4 => "4",
        5 => "5",
        6 => "6",
        7 => "7",
        8 => "8",
        _ => "9",
    };
    assert(t@ =~= seq![digit(d as int)]);
    out.append(t);
    assert(out@ =~= old(out)@.push(digit(d as int)));
}

/// Appends the decimal numeral of `n`.
pub fn append_decimal(out: &mut String, n: u128)
    ensures
        final(out)@ == old(out)@ + decimal(n as nat),
    decreases n,
{
    if n >= 10 {
        append_decimal(out, n / 10);
        append_digit(out, (n % 10) as u8);
    } else {
        append_digit(out, n as u8);
    }
    assert(out@ =~= old(out)@ + decimal(n as nat));
}

/// Appends the decimal numeral of a signed number.
pub fn append_signed(out: &mut String, n: i64)
    ensures
        final(out)@ == old(out)@ + signed_decimal(n as int),
{
    if n < 0 {
        proof {
            reveal_strlit("-");
        }
        out.append("-");
        append_decimal(out, (-(n as i128)) as u128);
        assert("-"@ =~= seq!['-']);
        assert(out@ =~= old(out)@ + signed_decimal(n as int));
    } else {
        append_decimal(out, n as u128);
    }
}

/// The last `places` decimal digits of `n`.
pub open spec fn last_digits(n: nat, places: nat) -> Seq<char>
    decreases places,
{
    if places == 0 {
        Seq::empty()
    } else {
        last_digits(n / 10, (places - 1) as nat).push(digit((n % 10) as int))
    }
}

/// Appends the last `places` decimal digits of `n`.
pub fn append_last_digits(out: &mut String, n: u128, places: u32)
    ensures
        final(out)@ == old(out)@ + last_digits(n as nat, places as nat),
    decreases places,
{
    if places > 0 {
        append_last_digits(out, n / 10, places - 1);
        append_digit(out, (n % 10) as u8);
    }
    assert(out@ =~= old(out)@ + last_digits(n as nat, places as nat));
}

/// The number that decimal digits stand for, the least significant one first.
spec fn digits_value(ds: Seq<u8>) -> nat
    decreases ds.len(),
{
    if ds.len() == 0 {
        0
    } else {
        ds[0] as nat + 10 * digits_value(ds.drop_first())
    }
}

/// Decimal digits, the last of them not zero.
spec fn digits_of(ds: Seq<u8>, n: nat) -> bool {
    &&& ds.len() > 0
    &&& ds.last() > 0
    &&& forall|i: int| 0 <= i < ds.len() ==> #[trigger] ds[i] < 10
    &&& digits_value(ds) == n
}

proof fn lemma_digits_push(ds: Seq<u8>, d: u8)
    ensures
        digits_value(ds.push(d)) == digits_value(ds) + pow(10, ds.len()) * d,
    decreases ds.len(),
{
    reveal(pow);
    if ds.len() == 0 {
        assert(ds.push(d).drop_first() =~= Seq::<u8>::empty());
        assert(digits_value(Seq::<u8>::empty()) == 0);
        lemma_pow0(10);
        assert(1 * d == d);
    } else {
        assert(ds.push(d).drop_first() =~= ds.drop_first().push(d));
        lemma_digits_push(ds.drop_first(), d);
        let p = pow(10, (ds.len() - 1) as nat);
        assert(pow(10, ds.len()) == 10 * p);
        assert(10 * (p * d) == (10 * p) * d) by (nonlinear_arith);
    }
}

/// Doubles a number held as decimal digits.
fn double_digits(ds: &Vec<u8>, Ghost(n): Ghost<nat>) -> (r: Vec<u8>)
    requires
        digits_of(ds@, n),
    ensures
        digits_of(r@, 2 * n),
{
    let mut r: Vec<u8> = Vec::new();
    let mut carry: u8 = 0;
    let mut i: usize = 0;
    proof {
        reveal(pow);
        assert(ds@.skip(0) =~= ds@);
        assert(pow(10, 0) * (2 * digits_value(ds@.skip(0)) + carry) == 2 * n);
    }
    while i < ds.len()
        invariant
            digits_of(ds@, n),
            i <= ds.len(),
            r.len() == i,
            carry <= 1,
            forall|j: int| 0 <= j < r.len() ==> #[trigger] r@[j] < 10,
            2 * n == digits_value(r@) + pow(10, i as nat) * (2 * digits_value(ds@.skip(i as int))
                + carry),
            i == ds.len() ==> carry == 1 || r@.last() > 0,
        decreases ds.len() - i,
    {
        let v: u8 = 2 * ds[i] + carry;
        proof {
            let d = v % 10;
            let c = v / 10;
            let rest = digits_value(ds@.skip(i + 1));
            assert(ds@.skip(i as int).drop_first() =~= ds@.skip(i + 1));
            lemma_digits_push(r@, d);
            reveal(pow);
            let p = pow(10, i as nat);
            assert(pow(10, (i + 1) as nat) == 10 * p);
            assert(p * (2 * (ds@[i as int] + 10 * rest) + carry) == p * d + (10 * p) * (2 * rest + c))
                by (nonlinear_arith)
                requires
                    2 * ds@[i as int] + carry == d + 10 * c,
            ;
        }
        r.push(v % 10);
        carry = v / 10;
        i = i + 1;
    }
    proof {
        assert(ds@.skip(ds.len() as int) =~= Seq::<u8>::empty());
        assert(digits_value(Seq::<u8>::empty()) == 0);
        lemma_digits_push(r@, carry);
        assert(pow(10, i as nat) * (2 * 0 + carry) == pow(10, i as nat) * carry);
        if carry == 0 {
            assert(pow(10, i as nat) * 0 == 0) by (nonlinear_arith);
        }
    }
    if carry > 0 {
        r.push(carry);
    }
    r
}

/// Appends a number held as decimal digits.
fn append_digits(out: &mut String, ds: &Vec<u8>, Ghost(n): Ghost<nat>)
    requires
        digits_of(ds@, n),
    ensures
        final(out)@ == old(out)@ + decimal(n),
{
    let mut i: usize = ds.len() - 1;
    proof {
        let top = ds@.skip(i as int);
        assert(top.drop_first() =~= Seq::<u8>::empty());
        assert(digits_value(Seq::<u8>::empty()) == 0);
        assert(digits_value(top) == ds@.last());
    }
    append_digit(out, ds[i]);
    assert(out@ =~= old(out)@ + decimal(digits_value(ds@.skip(i as int))));
    while i > 0
        invariant
            digits_of(ds@, n),
            i < ds.len(),
            digits_value(ds@.skip(i as int)) > 0,
            out@ == old(out)@ + decimal(digits_value(ds@.skip(i as int))),
        decreases i,
    {
        i = i - 1;
        assert(ds@.skip(i as int).drop_first() =~= ds@.skip(i + 1));
        append_digit(out, ds[i]);
        proof {
            let rest = digits_value(ds@.skip(i + 1));
            let whole = digits_value(ds@.skip(i as int));
            assert(whole / 10 == rest && whole % 10 == ds@[i as int]);
            assert(out@ =~= old(out)@ + decimal(whole));
        }
    }
    assert(ds@.skip(0) =~= ds@);
}

/// Appends the decimal numeral of `m` times two to the power of `shift`.
pub fn append_shifted(out: &mut String, m: u64, shift: u32)
    ensures
        final(out)@ == old(out)@ + decimal(m as nat * pow2(shift as nat)),
{
    if m == 0 {
        append_decimal(out, 0);
        assert(0 * pow2(shift as nat) == 0) by (nonlinear_arith);
        return ;
    }
    let mut ds: Vec<u8> = Vec::new();
    let mut t: u64 = m;
    proof {
        reveal(pow);
        assert(pow(10, 0) * m == m);
        assert(digits_value(ds@) == 0);
    }
    while t > 0
        invariant
            m > 0,
            forall|j: int| 0 <= j < ds.len() ==> #[trigger] ds@[j] < 10,
            m == digits_value(ds@) + pow(10, ds@.len()) * t,
            t == 0 ==> ds.len() > 0 && ds@.last() > 0,
        decreases t,
    {
        proof {
            lemma_digits_push(ds@, (t % 10) as u8);
            reveal(pow);
            let p = pow(10, ds@.len());
            assert(pow(10, (ds@.len() + 1) as nat) == 10 * p);
            let x = t / 10;
            let y = t % 10;
            assert(p * t == p * y + (10 * p) * x) by (nonlinear_arith)
                requires
                    t == 10 * x + y,
            ;
        }
        ds.push((t % 10) as u8);
        t = t / 10;
    }
    proof {
        assert(pow(10, ds@.len()) * 0 == 0) by (nonlinear_arith);
        lemma2_to64();
        assert(m as nat * pow2(0) == m);
    }
    let mut i: u32 = 0;
    while i < shift
        invariant
            i <= shift,
            digits_of(ds@, m as nat * pow2(i as nat)),
        decreases shift - i,
    {
        proof {
            lemma_pow2_unfold((i + 1) as nat);
            let w = pow2(i as nat);
            assert(2 * (m as nat * w) == m as nat * (2 * w)) by (nonlinear_arith);
        }
        ds = double_digits(&ds, Ghost(m as nat * pow2(i as nat)));
        i = i + 1;
    }
    append_digits(out, &ds, Ghost(m as nat * pow2(shift as nat)));
}

/// The number that a text of decimal digits reads as, the most significant one first.
pub open spec fn reading(s: Seq<char>) -> int
    decreases s.len(),
{
    if s.len() == 0 {
        0
    } else {
        10 * reading(s.drop_last()) + (s.last() as u32 as int - 48)
    }
}

/// Whether a text is made of decimal digits alone.
pub open spec fn all_decimal(s: Seq<char>) -> bool {
    forall|i: int| 0 <= i < s.len() ==> '0' <= #[trigger] s[i] <= '9'
}

/// The numeral of a number is made of digits that read as it, with no zero in front but for zero itself.
pub proof fn a_numeral_reads_as_its_number(n: nat)
    ensures
        reading(decimal(n)) == n,
        all_decimal(decimal(n)),
        decimal(n).len() > 0,
        n > 0 ==> decimal(n)[0] != '0',
    decreases n,
{
    reveal_with_fuel(reading, 2);
    if n < 10 {
        let s = seq![digit(n as int)];
        assert(s.drop_last() =~= Seq::<char>::empty());
    } else {
        a_numeral_reads_as_its_number(n / 10);
        let d = digit((n % 10) as int);
        let front = decimal(n / 10);
        assert(front.push(d).drop_last() =~= front);
        assert(all_decimal(front.push(d)));
        assert(front.push(d)[0] == front[0]);
    }
}

/// The numeral of a negative number is a minus sign before that of its opposite.
pub proof fn a_signed_numeral_reads_as_its_number(n: int)
    ensures
        n >= 0 ==> signed_decimal(n) == decimal(n as nat) && reading(signed_decimal(n)) == n,
        n < 0 ==> signed_decimal(n)[0] == '-' && reading(signed_decimal(n).drop_first()) == -n,
{
    if n >= 0 {
        a_numeral_reads_as_its_number(n as nat);
    } else {
        a_numeral_reads_as_its_number((-n) as nat);
        assert(signed_decimal(n).drop_first() =~= decimal((-n) as nat));
    }
}

/// The last digits of a number are that many, and read as what is left when the rest is taken away.
pub proof fn last_digits_read_as_the_remainder(n: nat, places: nat)
    ensures
        last_digits(n, places).len() == places,
        all_decimal(last_digits(n, places)),
        reading(last_digits(n, places)) == n % (pow(10, places) as nat),
        pow(10, places) > 0,
    decreases places,
{
    reveal(pow);
    if places == 0 {
        lemma_pow0(10);
    } else {
        let before = (places - 1) as nat;
        last_digits_read_as_the_remainder(n / 10, before);
        let front = last_digits(n / 10, before);
        let d = digit((n % 10) as int);
        assert(front.push(d).drop_last() =~= front);
        let m = pow(10, before) as nat;
        assert(pow(10, places) == 10 * m);
        let a = n / 10;
        let q = a / m;
        let r = a % m;
        assert(a == q * m + r && 0 <= r < m) by (nonlinear_arith)
            requires
                q == a / m,
                r == a % m,
                m > 0,
        ;
        assert(n == q * (10 * m) + (10 * r + n % 10)) by (nonlinear_arith)
            requires
                n == 10 * a + n % 10,
                a == q * m + r,
        ;
        vstd::arithmetic::div_mod::lemma_fundamental_div_mod_converse(
            n as int,
            (10 * m) as int,
            q as int,
            (10 * r + n % 10) as int,
        );
    }
}

/// Two numerals, one behind the other, read as one.
pub proof fn numerals_read_on(a: Seq<char>, b: Seq<char>)
    ensures
        reading(a + b) == reading(a) * pow(10, b.len()) + reading(b),
    decreases b.len(),
{
    reveal(pow);
    if b.len() == 0 {
        lemma_pow0(10);
        assert(a + b =~= a);
        assert(reading(a) * 1 == reading(a));
    } else {
        numerals_read_on(a, b.drop_last());
        assert((a + b).drop_last() =~= a + b.drop_last());
        let m = pow(10, (b.len() - 1) as nat);
        assert(pow(10, b.len()) == 10 * m);
        let r = reading(a);
        assert(10 * (r * m) == r * (10 * m)) by (nonlinear_arith);
    }
}

/// Only the capital letters of ASCII have another lower-case form: the letter of the same place in the
/// alphabet.
pub proof fn lower_case_changes_capitals_only(c: char)
    ensures
        'A' <= c <= 'Z' ==> ascii_lower(c) as u32 - 'a' as u32 == c as u32 - 'A' as u32,
        !('A' <= c <= 'Z') ==> ascii_lower(c) == c,
        ascii_lower(ascii_lower(c)) == ascii_lower(c),
{
}

/// White space is what shows nothing: of the characters of ASCII the space and the five from the tab to the
/// carriage return, and beyond them no letter of the Latin ones, none before the next line's mark, and none
/// behind the ideographic space.
pub proof fn white_space_shows_nothing(c: char)
    ensures
        (c as u32) < 128 ==> (white_space(c) <==> c == ' ' || c == '\t' || c == '\n' || c == '\r' || c as u32
            == 11 || c as u32 == 12),
        128 <= c as u32 <= 255 ==> (white_space(c) <==> c as u32 == 0x85 || c as u32 == 0xa0),
        256 <= c as u32 <= 0x1fff ==> (white_space(c) <==> c as u32 == 0x1680),
        0x2000 <= c as u32 <= 0x2fff ==> (white_space(c) <==> (c as u32) < 0x200b || c as u32 == 0x2028
            || c as u32 == 0x2029 || c as u32 == 0x202f || c as u32 == 0x205f),
        c as u32 >= 0x3000 ==> (white_space(c) <==> c as u32 == 0x3000),
        white_space(ascii_lower(c)) <==> white_space(c),
{
    lower_case_changes_capitals_only(c);
}

/// A text shows nothing exactly when none of its parts shows anything.
pub proof fn blank_texts_have_blank_parts(a: Seq<char>, b: Seq<char>)
    ensures
        blank(a + b) <==> blank(a) && blank(b),
        !blank(a) <==> exists|i: int| 0 <= i < a.len() && !white_space(#[trigger] a[i]),
{
    if blank(a + b) {
        assert forall|i: int| 0 <= i < a.len() implies white_space(#[trigger] a[i]) by {
            assert((a + b)[i] == a[i]);
        }
        assert forall|i: int| 0 <= i < b.len() implies white_space(#[trigger] b[i]) by {
            assert((a + b)[a.len() + i] == b[i]);
        }
    }
}

} // verus!
