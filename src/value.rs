use vstd::prelude::*;
use vstd::arithmetic::div_mod::{lemma_fundamental_div_mod, lemma_fundamental_div_mod_converse};
use vstd::arithmetic::mul::lemma_mul_inequality;
use crate::reading::{
    all_digits, capped_value, is_digit, digit_at, digit_value, fraction_digits, in_range,
    is_number_text, lemma_number_digits, mantissa_digits, point_of, reading_of, shifted_frac,
    shifted_int, whole_digits, zeros_from, DEGREE_CAP,
};

verus! {

pub open spec fn pow10(n: nat) -> nat
    decreases n,
{
    if n == 0 { 1 } else { 10 * pow10((n - 1) as nat) }
}

/// The value of a digit string, without any bound.
pub open spec fn digits_value(s: Seq<char>) -> int
    decreases s.len(),
{
    if s.len() == 0 { 0 } else { 10 * digits_value(s.drop_last()) + digit_value(s.last()) }
}

/// The denominator of the number a text writes: ten to the number of digits
/// after the point, once the exponent is applied.
pub open spec fn text_den(s: Seq<char>) -> int {
    pow10(fraction_digits(s).len()) as int
}

/// The magnitude of the number a text writes, times `text_den(s)`.
pub open spec fn text_num(s: Seq<char>) -> int {
    digits_value(whole_digits(s)) * text_den(s) + digits_value(fraction_digits(s))
}

/// The number a text writes, as a fraction `written_num(s) / written_den(s)`:
/// the mantissa's digits read as one integer, divided by ten once for each
/// digit after the point, the point moved by the exponent.
pub open spec fn written_num(s: Seq<char>) -> int {
    let d = mantissa_digits(s);
    let p = point_of(s);
    if p <= d.len() { digits_value(d) } else { digits_value(d) * pow10((p - d.len()) as nat) }
}

pub open spec fn written_den(s: Seq<char>) -> int {
    let d = mantissa_digits(s);
    let p = point_of(s);
    if p <= d.len() { pow10((d.len() - p) as nat) as int } else { 1 }
}

proof fn lemma_pow10_pos(n: nat)
    ensures
        pow10(n) >= 1,
    decreases n,
{
    if n > 0 {
        lemma_pow10_pos((n - 1) as nat);
    }
}

proof fn lemma_value_bounds(s: Seq<char>)
    requires
        all_digits(s),
    ensures
        0 <= digits_value(s) < pow10(s.len()),
    decreases s.len(),
{
    if s.len() > 0 {
        lemma_value_bounds(s.drop_last());
    }
}

proof fn lemma_value_concat(a: Seq<char>, b: Seq<char>)
    ensures
        digits_value(a + b) == digits_value(a) * pow10(b.len()) + digits_value(b),
    decreases b.len(),
{
    if b.len() == 0 {
        assert(a + b =~= a);
        assert(pow10(0) == 1);
        assert(digits_value(a) * 1 == digits_value(a));
    } else {
        let b1 = b.drop_last();
        assert((a + b).drop_last() =~= a + b1);
        assert((a + b).last() == b.last());
        assert(digits_value(a + b) == 10 * digits_value(a + b1) + digit_value(b.last()));
        assert(digits_value(b) == 10 * digits_value(b1) + digit_value(b.last()));
        lemma_value_concat(a, b1);
        let va = digits_value(a);
        let p1 = pow10(b1.len());
        assert(pow10(b.len()) == 10 * p1);
        assert(10 * (va * p1 + digits_value(b1)) + digit_value(b.last()) == va * (10 * p1) + (10
            * digits_value(b1) + digit_value(b.last()))) by (nonlinear_arith);
    }
}

proof fn lemma_value_zero(s: Seq<char>)
    requires
        all_digits(s),
    ensures
        digits_value(s) == 0 <==> zeros_from(s, 0),
    decreases s.len(),
{
    if s.len() > 0 {
        let s1 = s.drop_last();
        lemma_value_zero(s1);
        lemma_value_bounds(s1);
        if zeros_from(s, 0) {
            assert(zeros_from(s1, 0)) by {
                assert forall|i: int| 0 <= i < s1.len() implies #[trigger] s1[i] == '0' by {
                    assert(s[i] == '0');
                }
            }
            assert(s[s.len() - 1] == '0');
        }
        if digits_value(s) == 0 {
            assert(s1.len() == s.len() - 1);
            assert forall|i: int| 0 <= i < s.len() implies #[trigger] s[i] == '0' by {
                if i < s.len() - 1 {
                    assert(s1[i] == s[i]);
                }
            }
        }
    }
}

proof fn lemma_capped_value(s: Seq<char>)
    requires
        all_digits(s),
    ensures
        capped_value(s, DEGREE_CAP as int) == if digits_value(s) > DEGREE_CAP { DEGREE_CAP as int } else { digits_value(s) },
    decreases s.len(),
{
    if s.len() > 0 {
        lemma_capped_value(s.drop_last());
        lemma_value_bounds(s.drop_last());
    }
}

/// The hundredths that the digits after the point give, and whether any
/// further digit is other than `0`.
proof fn lemma_fraction(f: Seq<char>)
    requires
        all_digits(f),
    ensures
        (100 * digits_value(f)) / (pow10(f.len()) as int) == 10 * digit_at(f, 0) + digit_at(f, 1),
        (100 * digits_value(f)) % (pow10(f.len()) as int) == 0 <==> zeros_from(f, 2),
{
    let p = pow10(f.len()) as int;
    if f.len() == 0 {
        lemma_fundamental_div_mod_converse(0, 1, 0, 0);
    } else if f.len() == 1 {
        assert(f.drop_last() =~= Seq::<char>::empty());
        assert(pow10(0) == 1);
        assert(pow10(1) == 10 * pow10(0));
        assert(p == 10);
        assert(digits_value(f) == 10 * digits_value(f.drop_last()) + digit_value(f.last()));
        let d0 = digit_value(f[0]);
        lemma_fundamental_div_mod_converse(100 * d0, 10, 10 * d0, 0);
    } else {
        let head = f.subrange(0, 2);
        let rest = f.subrange(2, f.len() as int);
        assert(f =~= head + rest);
        lemma_value_concat(head, rest);
        let one = seq![f[0]];
        assert(head.drop_last() =~= one);
        assert(one.drop_last() =~= Seq::<char>::empty());
        assert(digits_value(one) == 10 * digits_value(one.drop_last()) + digit_value(f[0]));
        assert(digits_value(head) == 10 * digits_value(one) + digit_value(f[1]));
        let h = 10 * digit_value(f[0]) + digit_value(f[1]);
        assert(digits_value(head) == h);
        let q = pow10(rest.len()) as int;
        assert(p == 100 * q) by {
            assert(pow10(f.len()) == 10 * pow10((f.len() - 1) as nat));
            assert(pow10((f.len() - 1) as nat) == 10 * pow10((f.len() - 2) as nat));
        }
        assert(all_digits(rest)) by {
            assert forall|i: int| 0 <= i < rest.len() implies is_digit(#[trigger] rest[i]) by {
                assert(rest[i] == f[i + 2]);
            }
        }
        lemma_value_bounds(rest);
        let r = digits_value(rest);
        assert(100 * digits_value(f) == h * p + 100 * r) by (nonlinear_arith)
            requires
                digits_value(f) == h * q + r,
                p == 100 * q,
        ;
        lemma_fundamental_div_mod_converse(100 * digits_value(f), p, h, 100 * r);
        lemma_value_zero(rest);
        if zeros_from(f, 2) {
            assert forall|i: int| 0 <= i < rest.len() implies #[trigger] rest[i] == '0' by {
                assert(rest[i] == f[i + 2]);
            }
        }
        if zeros_from(rest, 0) {
            assert forall|i: int| 2 <= i < f.len() implies #[trigger] f[i] == '0' by {
                assert(rest[i - 2] == f[i]);
            }
        }
    }
}

proof fn lemma_zeros_value(k: nat)
    ensures
        digits_value(Seq::new(k, |i: int| '0')) == 0,
        all_digits(Seq::new(k, |i: int| '0')),
{
    let z = Seq::new(k, |i: int| '0');
    lemma_value_zero(z);
}

/// Moving the point through the digits `d` keeps the number they write.
proof fn lemma_shift_value(d: Seq<char>, p: int)
    requires
        all_digits(d),
    ensures
        ({
            let w = shifted_int(d, p);
            let f = shifted_frac(d, p);
            let num = digits_value(w) * pow10(f.len()) + digits_value(f);
            if p <= d.len() {
                num == digits_value(d) && pow10(f.len()) == pow10((d.len() - p) as nat)
            } else {
                num == digits_value(d) * pow10((p - d.len()) as nat) && f.len() == 0
            }
        }),
{
    let w = shifted_int(d, p);
    let f = shifted_frac(d, p);
    if p < 0 {
        let k = (-p) as nat;
        lemma_zeros_value(k);
        let z = Seq::new(k, |i: int| '0');
        assert(f =~= z + d);
        lemma_value_concat(z, d);
        assert(w =~= Seq::<char>::empty());
        assert(digits_value(w) == 0);
        assert(0 * pow10(d.len()) == 0);
        assert(0 * pow10(f.len()) == 0);
        assert(f.len() == d.len() - p);
    } else if p <= d.len() {
        assert(w =~= d.subrange(0, p));
        assert(f =~= d.subrange(p, d.len() as int));
        assert(d =~= w + f);
        lemma_value_concat(w, f);
    } else {
        let k = (p - d.len()) as nat;
        lemma_zeros_value(k);
        let z = Seq::new(k, |i: int| '0');
        assert(w =~= d + z);
        lemma_value_concat(d, z);
        assert(f =~= Seq::<char>::empty());
        assert(pow10(0) == 1);
        assert(digits_value(w) * 1 == digits_value(w));
    }
}

proof fn lemma_scaled_compare(c: int, p: int, r: int, k: int)
    requires
        p >= 1,
        0 <= r < p,
    ensures
        c * p + r >= k * p <==> c >= k,
        c * p + r <= k * p <==> (c < k || (c == k && r == 0)),
{
    if c >= k {
        lemma_mul_inequality(k, c, p);
        if c > k {
            lemma_mul_inequality(k + 1, c, p);
            assert((k + 1) * p == k * p + p) by (nonlinear_arith);
        }
    } else {
        lemma_mul_inequality(c + 1, k, p);
        assert((c + 1) * p == c * p + p) by (nonlinear_arith);
    }
}

/// A text that writes a number is shown in the vessel exactly when that
/// number lies from 18 to 21, both included; the reading's hundredths are
/// then the number times 100, rounded down, so the filled part rises 100
/// units per degree above 18. (Exponents beyond `EXP_CAP` either way are
/// read as `EXP_CAP`.)
pub proof fn lemma_reading_matches_value(s: Seq<char>)
    requires
        is_number_text(s),
    ensures
        in_range(reading_of(s)) <==> (s[0] != '-' && 18 * written_den(s) <= written_num(s) <= 21
            * written_den(s)),
        in_range(reading_of(s)) ==> reading_of(s).centi as int == (100 * written_num(s))
            / written_den(s),
{
    lemma_number_digits(s);
    lemma_shift_value(mantissa_digits(s), point_of(s));
    lemma_reading_matches_shifted(s);
}

proof fn lemma_reading_matches_shifted(s: Seq<char>)
    requires
        is_number_text(s),
    ensures
        in_range(reading_of(s)) <==> (s[0] != '-' && 18 * text_den(s) <= text_num(s) <= 21
            * text_den(s)),
        in_range(reading_of(s)) ==> reading_of(s).centi as int == (100 * text_num(s)) / text_den(s),
{
    lemma_number_digits(s);
    let ip = whole_digits(s);
    let fp = fraction_digits(s);
    let i = digits_value(ip);
    let f = digits_value(fp);
    let p = text_den(s);
    lemma_pow10_pos(fp.len());
    lemma_capped_value(ip);
    lemma_value_bounds(ip);
    lemma_value_bounds(fp);
    lemma_fraction(fp);
    let q = 10 * digit_at(fp, 0) + digit_at(fp, 1);
    assert(0 <= digit_at(fp, 0) <= 9);
    assert(0 <= digit_at(fp, 1) <= 9);
    lemma_fundamental_div_mod(100 * f, p);
    let r = (100 * f) % p;
    assert(100 * f == q * p + r) by {
        assert(100 * f == p * ((100 * f) / p) + r);
        assert(p * q == q * p) by (nonlinear_arith);
    }
    let t = reading_of(s);
    assert(t.exact <==> r == 0);
    if i > DEGREE_CAP {
        assert(t.centi as int == 100 * DEGREE_CAP + q);
        assert(text_num(s) >= 22 * p) by (nonlinear_arith)
            requires
                text_num(s) == i * p + f,
                i >= 22,
                p >= 1,
                f >= 0,
        ;
    } else {
        let c = 100 * i + q;
        assert(t.centi as int == c);
        assert(100 * text_num(s) == c * p + r) by (nonlinear_arith)
            requires
                text_num(s) == i * p + f,
                100 * f == q * p + r,
                c == 100 * i + q,
        ;
        lemma_fundamental_div_mod_converse(100 * text_num(s), p, c, r);
        lemma_scaled_compare(c, p, r, 1800);
        lemma_scaled_compare(c, p, r, 2100);
    }
}

} // verus!
