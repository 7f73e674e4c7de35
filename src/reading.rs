use vstd::prelude::*;
use crate::decimal::{digit_char, nat_text, push_nat};

verus! {

/// Whole degrees beyond this are held at this value.
pub const DEGREE_CAP: u64 = 1000000000000;

/// A temperature as the input field gives it, in hundredths of a degree.
///
/// `centi` is the magnitude of the number the text writes, times 100, with
/// further digits dropped; `exact` says that no dropped digit was other than
/// `0`, and `negative` that the text carried a `-` sign.
#[derive(Clone, Copy, Debug, PartialEq, Eq, Structural)]
pub struct Temperature {
    pub negative: bool,
    pub centi: u64,
    pub exact: bool,
}

pub open spec fn is_digit(c: char) -> bool {
    '0' <= c && c <= '9'
}

pub open spec fn digit_value(c: char) -> int {
    (c as u32) as int - 48
}

pub open spec fn all_digits(s: Seq<char>) -> bool {
    forall|i: int| 0 <= i < s.len() ==> is_digit(#[trigger] s[i])
}

/// Every character of `s` from index `k` on is `0`.
pub open spec fn zeros_from(s: Seq<char>, k: int) -> bool {
    forall|i: int| k <= i < s.len() ==> #[trigger] s[i] == '0'
}

/// The value of a digit string, held at `cap` once it gets there.
pub open spec fn capped_value(s: Seq<char>, cap: int) -> int
    decreases s.len(),
{
    if s.len() == 0 {
        0
    } else {
        let v = 10 * capped_value(s.drop_last(), cap) + digit_value(s.last());
        if v > cap { cap } else { v }
    }
}

/// Length of the leading sign of `s`: 1 for `+` or `-`, else 0.
pub open spec fn sign_len(s: Seq<char>) -> int {
    if s.len() > 0 && (s[0] == '+' || s[0] == '-') { 1 } else { 0 }
}

/// The index of the first `.` of `s` at or after `i`, or the length.
pub open spec fn dot_from(s: Seq<char>, i: int) -> int
    decreases s.len() - i,
{
    if i < 0 || i >= s.len() || s[i] == '.' {
        i
    } else {
        dot_from(s, i + 1)
    }
}

/// The index of the first `e` or `E` of `s` at or after `i`, or the length.
pub open spec fn exp_from(s: Seq<char>, i: int) -> int
    decreases s.len() - i,
{
    if i < 0 || i >= s.len() || s[i] == 'e' || s[i] == 'E' {
        i
    } else {
        exp_from(s, i + 1)
    }
}

/// The text before the exponent marker: sign, digits and point.
pub open spec fn mantissa(s: Seq<char>) -> Seq<char> {
    s.subrange(0, exp_from(s, 0))
}

/// Whether the text has an exponent marker.
pub open spec fn has_exponent(s: Seq<char>) -> bool {
    exp_from(s, 0) < s.len()
}

/// The text after the exponent marker.
pub open spec fn exponent_text(s: Seq<char>) -> Seq<char> {
    s.subrange(exp_from(s, 0) + 1, s.len() as int)
}

pub open spec fn dot_index(m: Seq<char>) -> int {
    dot_from(m, sign_len(m))
}

/// The digits of a mantissa before its point.
pub open spec fn int_part(m: Seq<char>) -> Seq<char> {
    m.subrange(sign_len(m), dot_index(m))
}

/// The digits of a mantissa after its point (none without a point).
pub open spec fn frac_part(m: Seq<char>) -> Seq<char> {
    if dot_index(m) < m.len() {
        m.subrange(dot_index(m) + 1, m.len() as int)
    } else {
        Seq::empty()
    }
}

/// Signed exponents are held within this bound; a reading does not change
/// past it.
pub const EXP_CAP: u64 = 100000;

/// An optional sign and at least one digit.
pub open spec fn is_exponent(x: Seq<char>) -> bool {
    x.len() > sign_len(x) && all_digits(x.skip(sign_len(x)))
}

/// The value of an exponent text, held within `EXP_CAP` either way.
pub open spec fn exponent_value(x: Seq<char>) -> int {
    let v = capped_value(x.skip(sign_len(x)), EXP_CAP as int);
    if x[0] == '-' { -v } else { v }
}

/// A decimal number as text: an optional sign, digits with an optional
/// point, at least one digit in all, and an optional exponent (`e` or `E`,
/// an optional sign and digits).
pub open spec fn is_number_text(s: Seq<char>) -> bool {
    let m = mantissa(s);
    &&& all_digits(int_part(m))
    &&& all_digits(frac_part(m))
    &&& int_part(m).len() + frac_part(m).len() > 0
    &&& (has_exponent(s) ==> is_exponent(exponent_text(s)))
}

/// All digits of the mantissa, without its point.
pub open spec fn mantissa_digits(s: Seq<char>) -> Seq<char> {
    int_part(mantissa(s)) + frac_part(mantissa(s))
}

/// Where the point stands among the mantissa's digits once the exponent
/// has moved it.
pub open spec fn point_of(s: Seq<char>) -> int {
    int_part(mantissa(s)).len() + if has_exponent(s) { exponent_value(exponent_text(s)) } else { 0 }
}

/// The digits before the point at `p` among `d`, with zeros added where the
/// point stands past the end.
pub open spec fn shifted_int(d: Seq<char>, p: int) -> Seq<char> {
    Seq::new(if p > 0 { p as nat } else { 0 }, |j: int| if j < d.len() { d[j] } else { '0' })
}

/// The digits after the point at `p` among `d`, with zeros added where the
/// point stands before the start.
pub open spec fn shifted_frac(d: Seq<char>, p: int) -> Seq<char> {
    Seq::new(
        if d.len() > p { (d.len() - p) as nat } else { 0 },
        |j: int| if j + p < 0 { '0' } else { d[j + p] },
    )
}

/// The `k`-th digit of `f`, or 0 past its end.
pub open spec fn digit_at(f: Seq<char>, k: int) -> int {
    if 0 <= k < f.len() { digit_value(f[k]) } else { 0 }
}

/// Digits of a number text before its point, once the exponent is applied.
pub open spec fn whole_digits(s: Seq<char>) -> Seq<char> {
    shifted_int(mantissa_digits(s), point_of(s))
}

/// Digits of a number text after its point, once the exponent is applied.
pub open spec fn fraction_digits(s: Seq<char>) -> Seq<char> {
    shifted_frac(mantissa_digits(s), point_of(s))
}

/// Lowest temperature the vessel shows, in hundredths of a degree.
pub const LOW_CENTI: u64 = 1800;

/// Highest temperature the vessel shows, in hundredths of a degree.
pub const HIGH_CENTI: u64 = 2100;

/// The vessel shows `t`: 18.0 <= t <= 21.0.
pub open spec fn in_range(t: Temperature) -> bool {
    &&& !t.negative
    &&& LOW_CENTI <= t.centi
    &&& (t.centi < HIGH_CENTI || (t.centi == HIGH_CENTI && t.exact))
}

/// The digits after the point that the input field shows: the hundredths
/// without trailing zeros; where digits were dropped, both hundredths and a
/// final `1`, so that the text reads back as the same temperature.
pub open spec fn shown_fraction(t: Temperature) -> Seq<char> {
    let f = (t.centi % 100) as nat;
    if !t.exact {
        nat_text(f / 10) + nat_text(f % 10) + seq!['1']
    } else if f == 0 {
        Seq::empty()
    } else if f % 10 == 0 {
        nat_text(f / 10)
    } else {
        nat_text(f / 10) + nat_text(f % 10)
    }
}

/// The text of a temperature as the input field shows it: "18", "19.5",
/// "21.001" for a value just above 21.
pub open spec fn temperature_text(t: Temperature) -> Seq<char> {
    let g = shown_fraction(t);
    (if t.negative { seq!['-'] } else { Seq::empty() }) + nat_text((t.centi / 100) as nat) + (
    if g.len() == 0 {
        Seq::empty()
    } else {
        seq!['.'] + g
    })
}

/// The temperature that a text gives; text that is no number gives zero.
/// Only decimal digits make a number here: words such as `inf`,
/// `infinity` or `NaN` are no number and give zero, which the vessel does
/// not show either.
pub open spec fn reading_of(s: Seq<char>) -> Temperature {
    if is_number_text(s) {
        Temperature {
            negative: s[0] == '-',
            centi: (100 * capped_value(whole_digits(s), DEGREE_CAP as int) + 10 * digit_at(
                fraction_digits(s),
                0,
            ) + digit_at(fraction_digits(s), 1)) as u64,
            exact: zeros_from(fraction_digits(s), 2),
        }
    } else {
        Temperature { negative: false, centi: 0, exact: true }
    }
}

proof fn lemma_capped_bounds(s: Seq<char>, cap: int)
    requires
        all_digits(s),
        cap >= 0,
    ensures
        0 <= capped_value(s, cap) <= cap,
    decreases s.len(),
{
    if s.len() > 0 {
        lemma_capped_bounds(s.drop_last(), cap);
    }
}

fn char_digit(c: char) -> (r: u64)
    requires
        is_digit(c),
    ensures
        r == digit_value(c),
{
    (c as u32 - 48) as u64
}

/// The value of the digits `v[from..to]`, held at `cap`; `None` where one of
/// them is no digit.
fn read_digits(v: &Vec<char>, from: usize, to: usize, cap: u64) -> (r: Option<u64>)
    requires
        from <= to <= v.len(),
        cap <= DEGREE_CAP,
    ensures
        r is Some <==> all_digits(v@.subrange(from as int, to as int)),
        r matches Some(x) ==> x == capped_value(v@.subrange(from as int, to as int), cap as int),
{
    let mut acc: u64 = 0;
    let mut j: usize = from;
    while j < to
        invariant
            from <= j <= to <= v.len(),
            cap <= DEGREE_CAP,
            all_digits(v@.subrange(from as int, j as int)),
            acc == capped_value(v@.subrange(from as int, j as int), cap as int),
        decreases to - j,
    {
        let c = v[j];
        if !(c >= '0' && c <= '9') {
            assert(v@.subrange(from as int, to as int)[j - from] == c);
            return None;
        }
        let ghost prev = v@.subrange(from as int, j as int);
        assert(v@.subrange(from as int, j + 1).drop_last() =~= prev);
        proof { lemma_capped_bounds(prev, cap as int); }
        let v1 = acc * 10 + char_digit(c);
        acc = if v1 > cap { cap } else { v1 };
        j = j + 1;
    }
    assert forall|i: int| 0 <= i < to - from implies is_digit(
        #[trigger] v@.subrange(from as int, to as int)[i],
    ) by {
        assert(v@.subrange(from as int, to as int)[i] == v@.subrange(from as int, j as int)[i]);
    }
    Some(acc)
}

/// The first two digits of `f` as hundredths, and whether all digits after
/// them are `0`.
fn read_fraction(f: &Vec<char>) -> (r: (u64, bool))
    requires
        all_digits(f@),
    ensures
        r.0 == 10 * digit_at(f@, 0) + digit_at(f@, 1),
        r.1 == zeros_from(f@, 2),
{
    let tenths: u64 = if f.len() > 0 { char_digit(f[0]) } else { 0 };
    let hundredths: u64 = if f.len() > 1 { char_digit(f[1]) } else { 0 };
    let mut rest_zero = true;
    let mut k: usize = 2;
    while k < f.len()
        invariant
            2 <= k,
            all_digits(f@),
            rest_zero == (forall|m: int| 2 <= m < k && m < f.len() ==> #[trigger] f@[m] == '0'),
        decreases f.len() - k,
    {
        if f[k] != '0' {
            rest_zero = false;
        }
        k = k + 1;
    }
    (10 * tenths + hundredths, rest_zero)
}

/// The index of the first `c1` or `c2` of `v[from..]`, or the length.
fn find_from(v: &Vec<char>, from: usize, c1: char, c2: char) -> (r: usize)
    requires
        from <= v.len(),
    ensures
        from <= r <= v.len(),
        r < v.len() ==> v@[r as int] == c1 || v@[r as int] == c2,
        forall|i: int| from <= i < r ==> #[trigger] v@[i] != c1 && v@[i] != c2,
{
    let mut i = from;
    while i < v.len() && v[i] != c1 && v[i] != c2
        invariant
            from <= i <= v.len(),
            forall|k: int| from <= k < i ==> #[trigger] v@[k] != c1 && v@[k] != c2,
        decreases v.len() - i,
    {
        i = i + 1;
    }
    i
}

proof fn lemma_exp_from(s: Seq<char>, i: int, r: int)
    requires
        0 <= i <= r <= s.len(),
        r < s.len() ==> s[r] == 'e' || s[r] == 'E',
        forall|k: int| i <= k < r ==> #[trigger] s[k] != 'e' && s[k] != 'E',
    ensures
        exp_from(s, i) == r,
    decreases r - i,
{
    if i < r {
        lemma_exp_from(s, i + 1, r);
    }
}

proof fn lemma_dot_from(s: Seq<char>, i: int, r: int)
    requires
        0 <= i <= r <= s.len(),
        r < s.len() ==> s[r] == '.',
        forall|k: int| i <= k < r ==> #[trigger] s[k] != '.',
    ensures
        dot_from(s, i) == r,
    decreases r - i,
{
    if i < r {
        lemma_dot_from(s, i + 1, r);
    }
}

/// The characters of `text`, one by one.
fn chars_of(text: &str) -> (r: Vec<char>)
    ensures
        r@ == text@,
{
    let n = text.unicode_len();
    let mut chars: Vec<char> = Vec::new();
    let mut i: usize = 0;
    while i < n
        invariant
            n == text@.len(),
            i <= n,
            chars@ == text@.subrange(0, i as int),
        decreases n - i,
    {
        chars.push(text.get_char(i));
        i = i + 1;
        assert(chars@ =~= text@.subrange(0, i as int));
    }
    assert(chars@ =~= text@);
    chars
}

/// The exponent after the marker at `e_at`; `None` where it is malformed.
fn read_exponent(chars: &Vec<char>, e_at: usize) -> (r: Option<i128>)
    requires
        e_at < chars.len(),
        e_at == exp_from(chars@, 0),
    ensures
        r is Some <==> is_exponent(exponent_text(chars@)),
        r matches Some(e) ==> e == exponent_value(exponent_text(chars@)),
        r matches Some(e) ==> -(EXP_CAP as int) <= e <= EXP_CAP,
{
    let ghost s = chars@;
    let n = chars.len();
    let xs = e_at + 1;
    let ghost x = exponent_text(s);
    assert(x =~= s.subrange(xs as int, n as int));
    let xd: usize = if xs < n && (chars[xs] == '+' || chars[xs] == '-') { xs + 1 } else { xs };
    assert(xd - xs == sign_len(x));
    if xd >= n {
        return None;
    }
    assert(x.skip(sign_len(x)) =~= s.subrange(xd as int, n as int));
    match read_digits(chars, xd, n, EXP_CAP) {
        None => None,
        Some(v) => {
            proof { lemma_capped_bounds(x.skip(sign_len(x)), EXP_CAP as int); }
            Some(if chars[xs] == '-' { -(v as i128) } else { v as i128 })
        },
    }
}

/// The digits of `d` before and after the point at `point`, with zeros
/// added where the point stands outside them.
fn shift_point(d: &Vec<char>, point: i128) -> (r: (Vec<char>, Vec<char>))
    requires
        -(EXP_CAP as int) <= point <= d.len() + EXP_CAP,
    ensures
        r.0@ == shifted_int(d@, point as int),
        r.1@ == shifted_frac(d@, point as int),
{
    let len = d.len();
    let mut whole: Vec<char> = Vec::new();
    let mut j: usize = 0;
    while (j as i128) < point && j < len
        invariant
            len == d.len(),
            j <= len,
            j <= point || j == 0,
            whole@ == Seq::new(j as nat, |k: int| d@[k]),
        decreases len - j,
    {
        whole.push(d[j]);
        j = j + 1;
        assert(whole@ =~= Seq::new(j as nat, |k: int| d@[k]));
    }
    if point > len as i128 {
        let pad: usize = (point - len as i128) as usize;
        let mut k: usize = 0;
        while k < pad
            invariant
                len == d.len(),
                k <= pad,
                whole@ == Seq::new((len + k) as nat, |q: int| if q < len { d@[q] } else { '0' }),
            decreases pad - k,
        {
            whole.push('0');
            k = k + 1;
            assert(whole@ =~= Seq::new((len + k) as nat, |q: int| if q < len { d@[q] } else { '0' }));
        }
    }
    assert(whole@ =~= shifted_int(d@, point as int));
    let mut fraction: Vec<char> = Vec::new();
    let mut from: usize = 0;
    if point < 0 {
        let pad: usize = (-point) as usize;
        let mut k: usize = 0;
        while k < pad
            invariant
                k <= pad,
                fraction@ == Seq::new(k as nat, |q: int| '0'),
            decreases pad - k,
        {
            fraction.push('0');
            k = k + 1;
            assert(fraction@ =~= Seq::new(k as nat, |q: int| '0'));
        }
    } else if point < len as i128 {
        from = point as usize;
    } else {
        from = len;
    }
    let ghost head = fraction@;
    let mut k: usize = from;
    while k < len
        invariant
            len == d.len(),
            from <= k <= len,
            fraction@ == head + d@.subrange(from as int, k as int),
        decreases len - k,
    {
        fraction.push(d[k]);
        k = k + 1;
        assert(fraction@ =~= head + d@.subrange(from as int, k as int));
    }
    assert(fraction@ =~= shifted_frac(d@, point as int));
    (whole, fraction)
}

/// `v[a..b]` followed by `v[c..e]`.
fn join_ranges(v: &Vec<char>, a: usize, b: usize, c: usize, e: usize) -> (r: Vec<char>)
    requires
        a <= b <= v.len(),
        c <= e <= v.len(),
    ensures
        r@ == v@.subrange(a as int, b as int) + v@.subrange(c as int, e as int),
{
    let mut out: Vec<char> = Vec::new();
    let mut j: usize = a;
    while j < b
        invariant
            a <= j <= b <= v.len(),
            out@ == v@.subrange(a as int, j as int),
        decreases b - j,
    {
        out.push(v[j]);
        j = j + 1;
        assert(out@ =~= v@.subrange(a as int, j as int));
    }
    let mut j: usize = c;
    while j < e
        invariant
            a <= b <= v.len(),
            c <= j <= e <= v.len(),
            out@ == v@.subrange(a as int, b as int) + v@.subrange(c as int, j as int),
        decreases e - j,
    {
        out.push(v[j]);
        j = j + 1;
        assert(out@ =~= v@.subrange(a as int, b as int) + v@.subrange(c as int, j as int));
    }
    out
}

/// The digits of a number text, before and after its point, are digits.
pub proof fn lemma_number_digits(s: Seq<char>)
    requires
        is_number_text(s),
    ensures
        all_digits(mantissa_digits(s)),
        all_digits(whole_digits(s)),
        all_digits(fraction_digits(s)),
{
    let m = mantissa(s);
    let ds = mantissa_digits(s);
    assert forall|k: int| 0 <= k < ds.len() implies is_digit(#[trigger] ds[k]) by {
        if k < int_part(m).len() {
            assert(ds[k] == int_part(m)[k]);
        } else {
            assert(ds[k] == frac_part(m)[k - int_part(m).len()]);
        }
    }
    let w = whole_digits(s);
    assert forall|k: int| 0 <= k < w.len() implies is_digit(#[trigger] w[k]) by {
        if k < ds.len() {
            assert(is_digit(ds[k]));
        }
    }
    let f = fraction_digits(s);
    assert forall|k: int| 0 <= k < f.len() implies is_digit(#[trigger] f[k]) by {
        if k + point_of(s) >= 0 {
            assert(is_digit(ds[k + point_of(s)]));
        }
    }
}

proof fn lemma_digit_char(d: int)
    requires
        0 <= d < 10,
    ensures
        is_digit(digit_char(d)),
        digit_value(digit_char(d)) == d,
{
}

proof fn lemma_nat_text(n: nat)
    ensures
        all_digits(nat_text(n)),
        nat_text(n).len() >= 1,
        n < 10 ==> nat_text(n) == seq![digit_char(n as int)],
        n <= DEGREE_CAP ==> capped_value(nat_text(n), DEGREE_CAP as int) == n,
    decreases n,
{
    if n < 10 {
        lemma_digit_char(n as int);
        let t = nat_text(n);
        assert(t.drop_last() =~= Seq::<char>::empty());
        assert(capped_value(t, DEGREE_CAP as int) == 10 * capped_value(t.drop_last(), DEGREE_CAP as int) + digit_value(t.last()));
    } else {
        lemma_nat_text(n / 10);
        lemma_digit_char((n % 10) as int);
        let t = nat_text(n);
        assert(t.drop_last() =~= nat_text(n / 10));
        assert(t.last() == digit_char((n % 10) as int));
        if n <= DEGREE_CAP {
            assert(capped_value(t.drop_last(), DEGREE_CAP as int) == n / 10);
            assert(10 * (n / 10) + n % 10 == n);
        }
        assert forall|i: int| 0 <= i < t.len() implies is_digit(#[trigger] t[i]) by {
            if i < t.len() - 1 {
                assert(t[i] == nat_text(n / 10)[i]);
            }
        }
    }
}

/// The shape of a number text without exponent: an optional `-`, digits,
/// and a point with more digits where there are any.
proof fn lemma_plain_number(sg: Seq<char>, n: Seq<char>, g: Seq<char>)
    requires
        sg == Seq::<char>::empty() || sg == seq!['-'],
        all_digits(n),
        n.len() >= 1,
        all_digits(g),
    ensures
        ({
            let s = sg + n + (if g.len() == 0 { Seq::<char>::empty() } else { seq!['.'] + g });
            &&& is_number_text(s)
            &&& (s[0] == '-' <==> sg.len() == 1)
            &&& whole_digits(s) == n
            &&& fraction_digits(s) == g
        }),
{
    let tail: Seq<char> = if g.len() == 0 { Seq::empty() } else { seq!['.'] + g };
    let s = sg + n + tail;
    let ns: int = (sg.len() + n.len()) as int;
    assert forall|k: int| 0 <= k < s.len() implies #[trigger] s[k] != 'e' && s[k] != 'E' by {
        if k < sg.len() {
        } else if k < ns {
            assert(s[k] == n[k - sg.len()]);
        } else if k > ns {
            assert(s[k] == g[k - ns - 1]);
        }
    }
    lemma_exp_from(s, 0, s.len() as int);
    assert(mantissa(s) =~= s);
    assert(!has_exponent(s));
    assert(s[0] == if sg.len() == 1 { '-' } else { n[0] });
    assert(sign_len(s) == sg.len());
    let dot = if g.len() == 0 { s.len() as int } else { ns };
    assert forall|k: int| sg.len() <= k < dot implies #[trigger] s[k] != '.' by {
        assert(s[k] == n[k - sg.len()]);
    }
    lemma_dot_from(s, sg.len() as int, dot);
    assert(int_part(s) =~= n);
    assert(frac_part(s) =~= g);
    assert(mantissa_digits(s) =~= n + g);
    assert(point_of(s) == n.len());
    assert(whole_digits(s) =~= n);
    assert(fraction_digits(s) =~= g);
}

/// The text the input field shows for a temperature reads back as that
/// temperature (for values whose whole degrees stay within `DEGREE_CAP`).
pub proof fn lemma_text_reads_back(t: Temperature)
    requires
        t.centi <= 100 * DEGREE_CAP + 99,
    ensures
        reading_of(temperature_text(t)) == t,
{
    let w = (t.centi / 100) as nat;
    let f = (t.centi % 100) as nat;
    let sg: Seq<char> = if t.negative { seq!['-'] } else { Seq::empty() };
    let n = nat_text(w);
    let g = shown_fraction(t);
    lemma_nat_text(w);
    lemma_nat_text(f / 10);
    lemma_nat_text(f % 10);
    lemma_digit_char((f / 10) as int);
    lemma_digit_char((f % 10) as int);
    assert(all_digits(g)) by {
        assert forall|k: int| 0 <= k < g.len() implies is_digit(#[trigger] g[k]) by {
            if k == 0 {
                assert(g[0] == digit_char((f / 10) as int));
            } else if k == 1 {
                assert(g[1] == digit_char((f % 10) as int));
            }
        }
    }
    lemma_plain_number(sg, n, g);
    assert(temperature_text(t) =~= sg + n + (if g.len() == 0 { Seq::<char>::empty() } else { seq!['.'] + g }));
    assert(digit_at(g, 0) == if g.len() > 0 { (f / 10) as int } else { 0 });
    assert(digit_at(g, 1) == if g.len() > 1 { (f % 10) as int } else { 0 });
    assert(g.len() <= 1 ==> f % 10 == 0);
    assert(g.len() == 0 ==> f == 0);
    assert(zeros_from(g, 2) == t.exact) by {
        if !t.exact {
            assert(g[2] == '1');
        }
    }
    assert(t.centi == 100 * w + 10 * (f / 10) + f % 10);
}

impl Temperature {
    /// The temperature the window opens with: 18 degrees.
    pub fn initial() -> (r: Temperature)
        ensures
            r == (Temperature { negative: false, centi: LOW_CENTI, exact: true }),
    {
        Temperature { negative: false, centi: LOW_CENTI, exact: true }
    }

    /// Whether the vessel shows this temperature (18.0 to 21.0, both included).
    pub fn in_range(&self) -> (r: bool)
        ensures
            r == in_range(*self),
    {
        !self.negative && LOW_CENTI <= self.centi && (self.centi < HIGH_CENTI || (self.centi
            == HIGH_CENTI && self.exact))
    }

    /// Height of the filled part of the vessel: 100 units per degree above 18.
    pub fn fill_height(&self) -> (r: u64)
        requires
            in_range(*self),
        ensures
            r == self.centi - LOW_CENTI,
            r <= HIGH_CENTI - LOW_CENTI,
    {
        self.centi - LOW_CENTI
    }

    /// The text the input field shows for this temperature.
    pub fn text(&self) -> (r: String)
        ensures
            r@ == temperature_text(*self),
            self.centi <= 100 * DEGREE_CAP + 99 ==> reading_of(r@) == *self,
    {
        let mut s = String::new();
        if self.negative {
            proof { reveal_strlit("-"); }
            s.append("-");
        }
        push_nat(&mut s, self.centi / 100);
        let f = self.centi % 100;
        if !self.exact {
            proof { reveal_strlit("."); reveal_strlit("1"); }
            s.append(".");
            push_nat(&mut s, f / 10);
            push_nat(&mut s, f % 10);
            s.append("1");
        } else if f != 0 {
            proof { reveal_strlit("."); }
            s.append(".");
            push_nat(&mut s, f / 10);
            if f % 10 != 0 {
                push_nat(&mut s, f % 10);
            }
        }
        assert(s@ =~= temperature_text(*self));
        proof {
            if self.centi <= 100 * DEGREE_CAP + 99 {
                lemma_text_reads_back(*self);
            }
        }
        s
    }

    /// Zero degrees, which a text that is no number gives.
    pub fn zero() -> (r: Temperature)
        ensures
            r == (Temperature { negative: false, centi: 0, exact: true }),
    {
        Temperature { negative: false, centi: 0, exact: true }
    }

    /// Reads the text of the input field. Text that is no decimal number
    /// (`inf` and `NaN` included) gives zero degrees.
    #[verifier::rlimit(60)]
    pub fn parse(text: &str) -> (r: Temperature)
        ensures
            r == reading_of(text@),
    {
        let chars = chars_of(text);
        let ghost s = text@;
        let n = chars.len();
        let e_at = find_from(&chars, 0, 'e', 'E');
        proof { lemma_exp_from(s, 0, e_at as int); }
        let ghost m = mantissa(s);
        assert(m =~= s.subrange(0, e_at as int));
        let start: usize = if e_at > 0 && (chars[0] == '+' || chars[0] == '-') { 1 } else { 0 };
        assert(start == sign_len(m));
        let dot = find_from(&chars, start, '.', '.');
        let pm = if dot < e_at { dot } else { e_at };
        proof { lemma_dot_from(m, start as int, pm as int); }
        let frac_start = if pm < e_at { pm + 1 } else { e_at };
        assert(int_part(m) =~= s.subrange(start as int, pm as int));
        assert(frac_part(m) =~= s.subrange(frac_start as int, e_at as int));
        if read_digits(&chars, start, pm, 0).is_none() || read_digits(&chars, frac_start, e_at, 0).is_none() {
            return Temperature::zero();
        }
        if pm - start == 0 && e_at - frac_start == 0 {
            return Temperature::zero();
        }
        let mut shift: i128 = 0;
        if e_at < n {
            match read_exponent(&chars, e_at) {
                None => {
                    return Temperature::zero();
                },
                Some(e) => {
                    shift = e;
                },
            }
        }
        proof { lemma_number_digits(s); }
        let digits = join_ranges(&chars, start, pm, frac_start, e_at);
        assert(digits@ =~= mantissa_digits(s));
        let point: i128 = (pm - start) as i128 + shift;
        assert(point == point_of(s));
        let (whole, fraction) = shift_point(&digits, point);
        assert(whole@.subrange(0, whole.len() as int) =~= whole@);
        match read_digits(&whole, 0, whole.len(), DEGREE_CAP) {
            None => Temperature::zero(),
            Some(v) => {
                proof { lemma_capped_bounds(whole@, DEGREE_CAP as int); }
                let (hundredths, rest_zero) = read_fraction(&fraction);
                Temperature { negative: chars[0] == '-', centi: 100 * v + hundredths, exact: rest_zero }
            },
        }
    }
}

} // verus!
