//! Setpoints of the power supply: how a requested value is formatted, and
//! whether it may be sent to the device.

use vstd::prelude::*;

use crate::engine::chars_after;
use crate::engine::decimal_part;
use crate::engine::dot_index;
use crate::engine::format_decimal;
use crate::engine::format_decimal_defined;
use crate::engine::format_decimal_is_defined;
use crate::engine::has_single_dot;
use crate::engine::lemma_single_dot_unique;
use crate::engine::scan_dots;
use crate::engine::spec_format_decimal;
use crate::engine::DotScan;
use crate::engine::EngineError;
use crate::text::all_digits;
use crate::text::chars_of;
use crate::text::digits_value;

verus! {

/// A setpoint of the power supply.
#[derive(Debug, Clone, Copy, PartialEq, Eq, Structural)]
pub enum Setpoint {
    /// The output voltage, in volts
    Voltage,
    /// The current limit, in amperes
    Current,
}

/// The number of decimal places of a setpoint: 2 for a voltage, 3 for a current.
pub open spec fn setpoint_places(s: Setpoint) -> nat {
    match s {
        Setpoint::Voltage => crate::constants::VOLTAGE_DECIMAL_NB as nat,
        Setpoint::Current => crate::constants::CURRENT_DECIMAL_NB as nat,
    }
}

/// The highest value of a setpoint: 30 V, or 5 A.
pub open spec fn setpoint_max(s: Setpoint) -> nat {
    match s {
        Setpoint::Voltage => crate::constants::MAX_VOLTAGE_V as nat,
        Setpoint::Current => crate::constants::MAX_CURRENT_A as nat,
    }
}

// ------------------------------------------------------------------------------
// Numerals
// ------------------------------------------------------------------------------

/// `s` without one leading sign.
pub open spec fn unsigned_text(s: Seq<char>) -> Seq<char> {
    if s.len() > 0 && (s[0] == '+' || s[0] == '-') {
        s.drop_first()
    } else {
        s
    }
}

/// Whether `s` starts with a minus sign.
pub open spec fn is_negative_text(s: Seq<char>) -> bool {
    s.len() > 0 && s[0] == '-'
}

/// The letter that opens an exponent, in either case.
pub open spec fn is_exponent_mark(c: char) -> bool {
    c == 'e' || c == 'E'
}

/// Whether index `k` holds the first exponent mark of `u`.
pub open spec fn exponent_at(u: Seq<char>, k: int) -> bool {
    &&& 0 <= k < u.len()
    &&& is_exponent_mark(u[k])
    &&& forall|j: int| 0 <= j < k ==> !is_exponent_mark(#[trigger] u[j])
}

/// Whether `u` holds an exponent mark.
pub open spec fn has_exponent(u: Seq<char>) -> bool {
    exists|j: int| 0 <= j < u.len() && is_exponent_mark(#[trigger] u[j])
}

/// The index of the first exponent mark of `u`.
pub open spec fn exponent_index(u: Seq<char>) -> int {
    choose|k: int| exponent_at(u, k)
}

/// The part of an unsigned numeral before its exponent.
pub open spec fn mantissa(u: Seq<char>) -> Seq<char> {
    if has_exponent(u) {
        u.take(exponent_index(u))
    } else {
        u
    }
}

/// The part of an unsigned numeral after its exponent mark (none without one).
pub open spec fn exponent_text(u: Seq<char>) -> Seq<char> {
    if has_exponent(u) {
        u.skip(exponent_index(u) + 1)
    } else {
        seq![]
    }
}

/// The power of ten that the exponent of an unsigned numeral stands for; 0 without one.
pub open spec fn exponent_value(u: Seq<char>) -> int {
    let e = exponent_text(u);
    let v = digits_value(unsigned_text(e)) as int;
    if is_negative_text(e) {
        -v
    } else {
        v
    }
}

/// The digits before the `.` of a mantissa (all of it when it has no `.`).
pub open spec fn integer_digits(m: Seq<char>) -> Seq<char> {
    if has_single_dot(m) {
        m.take(dot_index(m))
    } else {
        m
    }
}

/// The digits after the `.` of a mantissa (none when it has no `.`).
pub open spec fn fraction_digits(m: Seq<char>) -> Seq<char> {
    if has_single_dot(m) {
        decimal_part(m)
    } else {
        seq![]
    }
}

/// Whether `s` is a decimal numeral as `str::parse::<f32>` reads one: an
/// optional sign, digits with at most one `.` among them and at least one
/// digit, then optionally `e` or `E`, an optional sign and at least one digit.
/// (The words `inf`, `infinity` and `nan`, which the parser also reads, are no
/// numerals.)
pub open spec fn is_numeral(s: Seq<char>) -> bool {
    let u = unsigned_text(s);
    let m = mantissa(u);
    let e = unsigned_text(exponent_text(u));
    &&& !m.contains('.') || has_single_dot(m)
    &&& all_digits(integer_digits(m))
    &&& all_digits(fraction_digits(m))
    &&& integer_digits(m).len() + fraction_digits(m).len() > 0
    &&& has_exponent(u) ==> e.len() > 0 && all_digits(e)
}

/// The digits of a numeral, without the `.`.
pub open spec fn significant_digits(s: Seq<char>) -> Seq<char> {
    let m = mantissa(unsigned_text(s));
    integer_digits(m) + fraction_digits(m)
}

/// Where the decimal point of a numeral stands among its digits once the
/// exponent is applied: the value is `digits * 10^(point - digits.len())`.
pub open spec fn point_position(s: Seq<char>) -> int {
    let u = unsigned_text(s);
    integer_digits(mantissa(u)).len() + exponent_value(u)
}

/// Ten to the power `k`.
pub open spec fn pow10(k: nat) -> nat
    decreases k,
{
    if k == 0 {
        1
    } else {
        10 * pow10((k - 1) as nat)
    }
}

/// The integer part of the number with digits `d` and point at `p`.
pub open spec fn integer_value(d: Seq<char>, p: int) -> nat {
    if p <= 0 {
        0
    } else if p <= d.len() {
        digits_value(d.take(p))
    } else {
        digits_value(d) * pow10((p - d.len()) as nat)
    }
}

/// Whether the number with digits `d` and point at `p` has no fractional part.
pub open spec fn fraction_is_zero(d: Seq<char>, p: int) -> bool {
    p >= d.len() || digits_value(
        d.skip(
            if p < 0 {
                0
            } else {
                p
            },
        ),
    ) == 0
}

/// Whether `s` is a numeral whose value `v` has `0 <= v <= max`: a negative
/// numeral must be zero, and the integer part of the value must be below `max`,
/// or equal to it with no fractional part.
pub open spec fn numeral_in_range(s: Seq<char>, max: nat) -> bool {
    let d = significant_digits(s);
    let p = point_position(s);
    &&& is_numeral(s)
    &&& is_negative_text(s) ==> digits_value(d) == 0
    &&& integer_value(d, p) < max || (integer_value(d, p) == max && fraction_is_zero(d, p))
}

/// `v`, or `cap + 1` when it is larger than `cap`.
pub open spec fn cap_of(v: nat, cap: nat) -> nat {
    if v <= cap {
        v
    } else {
        cap + 1
    }
}

// ------------------------------------------------------------------------------
// Powers of ten
// ------------------------------------------------------------------------------

/// Powers of ten grow with the exponent.
proof fn lemma_pow10_monotone(j: nat, k: nat)
    requires
        j <= k,
    ensures
        1 <= pow10(j) <= pow10(k),
    decreases k,
{
    if k > j {
        lemma_pow10_monotone(j, (k - 1) as nat);
    } else if k > 0 {
        lemma_pow10_monotone(0, (k - 1) as nat);
    }
}

/// Ten to the fourth power and above exceed 1000.
proof fn lemma_pow10_large(k: nat)
    requires
        k >= 4,
    ensures
        pow10(k) > 1000,
{
    lemma_pow10_monotone(4, k);
    reveal_with_fuel(pow10, 5);
}

/// A positive number times a large power of ten exceeds 1000.
proof fn lemma_scaled_large(v: nat, k: nat)
    requires
        v >= 1,
        k >= 4,
    ensures
        v * pow10(k) > 1000,
{
    lemma_pow10_large(k);
    assert(v * pow10(k) >= pow10(k)) by (nonlinear_arith)
        requires
            v >= 1,
    ;
}


/// A digit string is worth less than ten to the power of its length.
proof fn lemma_digits_value_bound(s: Seq<char>)
    requires
        all_digits(s),
    ensures
        digits_value(s) < pow10(s.len()),
    decreases s.len(),
{
    if s.len() > 0 {
        let t = s.drop_last();
        assert(all_digits(t)) by {
            assert forall|i: int| 0 <= i < t.len() implies crate::text::is_digit(#[trigger] t[i]) by {
                assert(t[i] == s[i]);
            }
        }
        lemma_digits_value_bound(t);
        assert(crate::text::is_digit(s[s.len() - 1]));
        let dv = digits_value(t);
        let last = crate::text::digit_of(s.last());
        assert(last <= 9);
        let pw = pow10(t.len());
        assert(pow10(s.len()) == 10 * pw);
        assert(dv * 10 + last < 10 * pw) by (nonlinear_arith)
            requires
                dv < pw,
                last <= 9,
        ;
    }
}

/// The value of a concatenation of digit strings.
proof fn lemma_digits_value_concat(a: Seq<char>, b: Seq<char>)
    ensures
        digits_value(a + b) == digits_value(a) * pow10(b.len()) + digits_value(b),
    decreases b.len(),
{
    if b.len() == 0 {
        assert(a + b =~= a);
        assert(digits_value(a) * pow10(0) == digits_value(a)) by (nonlinear_arith)
            requires
                pow10(0) == 1,
        ;
    } else {
        let b1 = b.drop_last();
        lemma_digits_value_concat(a, b1);
        assert((a + b).drop_last() =~= a + b1);
        assert((a + b).last() == b.last());
        let va = digits_value(a);
        let vb1 = digits_value(b1);
        let pw = pow10(b1.len());
        let last = crate::text::digit_of(b.last());
        assert(pow10(b.len()) == 10 * pw);
        assert((va * pw + vb1) * 10 + last == va * (10 * pw) + (vb1 * 10 + last)) by (nonlinear_arith);
    }
}

/// Law: `numeral_in_range` judges the value of the numeral. With digits `d`
/// and point `p`, the value is `d * 10^(p - len(d))`; it lies within
/// `0 ..= max` exactly when `numeral_in_range` holds, a negative sign being
/// allowed on zero only.
pub proof fn law_range_is_value_range(s: Seq<char>, max: nat)
    requires
        is_numeral(s),
        max >= 1,
    ensures
        ({
            let d = significant_digits(s);
            let p = point_position(s);
            let v = digits_value(d);
            numeral_in_range(s, max) <==> {
                &&& is_negative_text(s) ==> v == 0
                &&& if p >= d.len() {
                    v * pow10((p - d.len()) as nat) <= max
                } else {
                    v <= max * pow10((d.len() - p) as nat)
                }
            }
        }),
{
    let m = mantissa(unsigned_text(s));
    let d = significant_digits(s);
    let p = point_position(s);
    let v = digits_value(d);
    let n = d.len() as int;
    assert(all_digits(d)) by {
        assert forall|i: int| 0 <= i < d.len() implies crate::text::is_digit(#[trigger] d[i]) by {
            let il = integer_digits(m).len() as int;
            if i < il {
                assert(d[i] == integer_digits(m)[i]);
            } else {
                assert(d[i] == fraction_digits(m)[i - il]);
            }
        }
    }
    if p >= n {
        if p == n {
            assert(d.take(p) =~= d);
            assert(v * pow10(0) == v) by (nonlinear_arith)
                requires
                    pow10(0) == 1,
            ;
        }
    } else if p <= 0 {
        assert(d.skip(0) =~= d);
        lemma_digits_value_bound(d);
        lemma_pow10_monotone(d.len(), (n - p) as nat);
        let pw = pow10((n - p) as nat);
        assert(v <= max * pw) by (nonlinear_arith)
            requires
                v < pw,
                max >= 1,
        ;
    } else {
        let a = d.take(p);
        let b = d.skip(p);
        assert(d =~= a + b);
        lemma_digits_value_concat(a, b);
        assert(all_digits(b)) by {
            assert forall|i: int| 0 <= i < b.len() implies crate::text::is_digit(#[trigger] b[i]) by {
                assert(b[i] == d[i + p]);
            }
        }
        lemma_digits_value_bound(b);
        let va = digits_value(a);
        let vb = digits_value(b);
        let pw = pow10(b.len());
        assert(b.len() == n - p);
        assert(v == va * pw + vb);
        assert((va < max || (va == max && vb == 0)) <==> va * pw + vb <= max * pw) by (nonlinear_arith)
            requires
                vb < pw,
                pw >= 1,
        ;
    }
}

// ------------------------------------------------------------------------------
// Exec helpers
// ------------------------------------------------------------------------------

/// The characters `v[from..to]`.
fn chars_between(v: &Vec<char>, from: usize, to: usize) -> (r: Vec<char>)
    requires
        from <= to <= v@.len(),
    ensures
        r@ == v@.subrange(from as int, to as int),
{
    let mut r: Vec<char> = Vec::new();
    let mut i: usize = from;
    while i < to
        invariant
            from <= i <= to <= v@.len(),
            r@ =~= v@.subrange(from as int, i as int),
        decreases to - i,
    {
        r.push(v[i]);
        i = i + 1;
    }
    r
}

/// The index of the first exponent mark of `u`.
fn find_exponent(u: &Vec<char>) -> (r: Option<usize>)
    ensures
        r matches Some(k) ==> exponent_at(u@, k as int) && has_exponent(u@) && exponent_index(u@)
            == k,
        r is None ==> !has_exponent(u@),
{
    let mut i: usize = 0;
    while i < u.len()
        invariant
            i <= u@.len(),
            forall|j: int| 0 <= j < i ==> !is_exponent_mark(#[trigger] u@[j]),
        decreases u.len() - i,
    {
        if u[i] == 'e' || u[i] == 'E' {
            proof {
                assert(exponent_at(u@, i as int));
                let k = exponent_index(u@);
                assert(exponent_at(u@, k));
                if k < i {
                    assert(!is_exponent_mark(u@[k]));
                } else if k > i {
                    assert(!is_exponent_mark(u@[i as int]));
                }
            }
            return Some(i);
        }
        i = i + 1;
    }
    None
}

/// The value of the digits `v[from..to]`, capped at `cap + 1`, or `None` when
/// one of them is not a digit.
fn digits_capped(v: &Vec<char>, from: usize, to: usize, cap: u128) -> (r: Option<u128>)
    requires
        from <= to <= v@.len(),
        cap <= 0x1_0000_0000_0000_0000_0000,
    ensures
        r is Some <==> all_digits(v@.subrange(from as int, to as int)),
        r matches Some(x) ==> x == cap_of(digits_value(v@.subrange(from as int, to as int)), cap as nat),
{
    let mut acc: u128 = 0;
    let mut i: usize = from;
    assert(digits_value(v@.subrange(from as int, from as int)) == 0) by {
        assert(v@.subrange(from as int, from as int).len() == 0);
    }
    while i < to
        invariant
            from <= i <= to <= v@.len(),
            cap <= 0x1_0000_0000_0000_0000_0000,
            all_digits(v@.subrange(from as int, i as int)),
            acc == cap_of(digits_value(v@.subrange(from as int, i as int)), cap as nat),
        decreases to - i,
    {
        let c = v[i];
        let ghost sub = v@.subrange(from as int, i + 1);
        assert(sub.drop_last() =~= v@.subrange(from as int, i as int));
        assert(sub.last() == c);
        if c < '0' || c > '9' {
            assert(!all_digits(v@.subrange(from as int, to as int))) by {
                assert(v@.subrange(from as int, to as int)[i - from] == c);
            }
            return None;
        }
        let d = (c as u128) - 48;
        if acc <= cap {
            acc = acc * 10 + d;
            if acc > cap {
                acc = cap + 1;
            }
        }
        i = i + 1;
    }
    Some(acc)
}

/// `cap_of(value * 10^extra, max)`, from `a == cap_of(value, max)`.
fn scale_capped(a: u128, extra: u128, max: u128, Ghost(value): Ghost<nat>) -> (r: u128)
    requires
        max <= 1000,
        a == cap_of(value, max as nat),
    ensures
        r == cap_of(value * pow10(extra as nat), max as nat),
{
    let mut a = a;
    let mut j: u128 = 0;
    proof {
        assert(pow10(0) == 1);
        assert(value * pow10(0) == value) by (nonlinear_arith)
            requires
                pow10(0) == 1,
        ;
    }
    while j < extra
        invariant
            j <= extra,
            max <= 1000,
            a == cap_of(value * pow10(j as nat), max as nat),
        decreases extra - j,
    {
        if a == 0 || a > max {
            proof {
                lemma_pow10_monotone(j as nat, extra as nat);
                let x = value * pow10(j as nat);
                let y = value * pow10(extra as nat);
                if a == 0 {
                    assert(value == 0) by (nonlinear_arith)
                        requires
                            x == value * pow10(j as nat),
                            x == 0,
                            pow10(j as nat) >= 1,
                    ;
                    assert(y == 0) by (nonlinear_arith)
                        requires
                            value == 0,
                            y == value * pow10(extra as nat),
                    ;
                } else {
                    assert(y >= x) by (nonlinear_arith)
                        requires
                            x == value * pow10(j as nat),
                            y == value * pow10(extra as nat),
                            pow10(j as nat) <= pow10(extra as nat),
                    ;
                }
            }
            return a;
        }
        proof {
            let x = value * pow10(j as nat);
            assert(value * pow10((j + 1) as nat) == 10 * x) by (nonlinear_arith)
                requires
                    x == value * pow10(j as nat),
                    pow10((j + 1) as nat) == 10 * pow10(j as nat),
            ;
        }
        a = a * 10;
        if a > max {
            a = max + 1;
        }
        j = j + 1;
    }
    a
}

// ------------------------------------------------------------------------------
// Setpoints
// ------------------------------------------------------------------------------

impl Setpoint {
    /// The number of decimal places that the setpoint is given with.
    pub fn decimal_places(&self) -> (n: usize)
        ensures
            n == setpoint_places(*self),
    {
        match self {
            Setpoint::Voltage => crate::constants::VOLTAGE_DECIMAL_NB,
            Setpoint::Current => crate::constants::CURRENT_DECIMAL_NB,
        }
    }

    /// The highest value of the setpoint (in volts or amperes); the lowest is 0.
    pub fn max(&self) -> (m: u64)
        ensures
            m == setpoint_max(*self),
            m <= 1000,
    {
        match self {
            Setpoint::Voltage => crate::constants::MAX_VOLTAGE_V,
            Setpoint::Current => crate::constants::MAX_CURRENT_A,
        }
    }

    /// Whether `format` returns for this value rather than panics.
    pub fn can_format(&self, value: &str) -> (b: bool)
        ensures
            b == format_decimal_defined(value@, setpoint_places(*self)),
    {
        format_decimal_is_defined(value, self.decimal_places())
    }

    /// The value as it is parsed and sent: formatted to the setpoint's decimal places.
    pub fn format(&self, value: &str) -> (f: String)
        requires
            format_decimal_defined(value@, setpoint_places(*self)),
        ensures
            f@ == spec_format_decimal(value@, setpoint_places(*self)),
    {
        format_decimal(value, self.decimal_places())
    }

    /// The error for a value of this setpoint that is not a number.
    pub fn invalid(&self, value: &str) -> (e: EngineError)
        ensures
            *self == Setpoint::Voltage ==> (e matches EngineError::InvalidVoltage(v) && v@ == value@),
            *self == Setpoint::Current ==> (e matches EngineError::InvalidCurrent(c) && c@ == value@),
    {
        match self {
            Setpoint::Voltage => EngineError::InvalidVoltage(String::from_str(value)),
            Setpoint::Current => EngineError::InvalidCurrent(String::from_str(value)),
        }
    }

    /// The error for a value of this setpoint that the device does not support.
    pub fn out_of_range(&self, value: &str) -> (e: EngineError)
        ensures
            *self == Setpoint::Voltage ==> (e matches EngineError::VoltageOutOfRange(v) && v@
                == value@),
            *self == Setpoint::Current ==> (e matches EngineError::CurrentOutOfRange(c) && c@
                == value@),
    {
        match self {
            Setpoint::Voltage => EngineError::VoltageOutOfRange(String::from_str(value)),
            Setpoint::Current => EngineError::CurrentOutOfRange(String::from_str(value)),
        }
    }

    /// Refuses a setpoint outside what the device supports (0 to 30 V, 0 to
    /// 5 A): `formatted` is the value as it is sent, `value` as it was given.
    /// The range is judged on the value of the numeral, exponent included.
    pub fn check_range(&self, formatted: &str, value: &str) -> (res: Result<(), EngineError>)
        ensures
            res is Ok <==> numeral_in_range(formatted@, setpoint_max(*self)),
            res matches Err(e) ==> (*self == Setpoint::Voltage ==> (e matches EngineError::VoltageOutOfRange(v)
                && v@ == value@)),
            res matches Err(e) ==> (*self == Setpoint::Current ==> (e matches EngineError::CurrentOutOfRange(c)
                && c@ == value@)),
    {
        let max = self.max();
        if in_range(formatted, max as u128) {
            Ok(())
        } else {
            Err(self.out_of_range(value))
        }
    }

    /// Decides whether one setpoint of a request may be sent: `formatted` is
    /// `format(value)`, and `parsed` tells whether it parsed as a number. A
    /// value that did not parse is invalid; one that did must lie within the
    /// device's range.
    pub fn accept(&self, value: &str, formatted: &str, parsed: bool) -> (res: Result<(), EngineError>)
        ensures
            !parsed ==> (res matches Err(e) && (*self == Setpoint::Voltage ==> (e matches EngineError::InvalidVoltage(v)
                && v@ == value@)) && (*self == Setpoint::Current ==> (e matches EngineError::InvalidCurrent(c)
                && c@ == value@))),
            parsed ==> (res is Ok <==> numeral_in_range(formatted@, setpoint_max(*self))),
            parsed && res is Err ==> (res matches Err(e) && (*self == Setpoint::Voltage ==> (e matches EngineError::VoltageOutOfRange(v)
                && v@ == value@)) && (*self == Setpoint::Current ==> (e matches EngineError::CurrentOutOfRange(c)
                && c@ == value@))),
    {
        if !parsed {
            return Err(self.invalid(value));
        }
        self.check_range(formatted, value)
    }
}

/// The digits of the mantissa of `u`, without the `.`, and how many of them
/// stand before it; `None` when the mantissa is not digits with at most one `.`
/// and at least one digit.
fn mantissa_digits(u: &Vec<char>) -> (r: Option<(Vec<char>, usize)>)
    ensures
        ({
            let m = mantissa(u@);
            let ok = (!m.contains('.') || has_single_dot(m)) && all_digits(integer_digits(m))
                && all_digits(fraction_digits(m)) && integer_digits(m).len()
                + fraction_digits(m).len() > 0;
            &&& r is Some <==> ok
            &&& r matches Some((d, k)) ==> d@ == integer_digits(m) + fraction_digits(m) && k
                == integer_digits(m).len()
        }),
{
    let ulen = u.len();
    let m = match find_exponent(u) {
        Some(k) => chars_between(u, 0, k),
        None => chars_between(u, 0, ulen),
    };
    assert(m@ =~= mantissa(u@));
    let mlen = m.len();
    let (int_end, frac_start): (usize, usize) = match scan_dots(&m) {
        DotScan::NoDot => (mlen, mlen),
        DotScan::OneDot(k) => {
            proof {
                lemma_single_dot_unique(m@, k as int);
            }
            (k, k + 1)
        },
        DotScan::SeveralDots => {
            return None;
        },
    };
    assert(integer_digits(m@) =~= m@.subrange(0, int_end as int));
    assert(fraction_digits(m@) =~= m@.subrange(frac_start as int, mlen as int));
    if int_end + (mlen - frac_start) == 0 {
        return None;
    }
    let mut d = chars_between(&m, 0, int_end);
    let mut fp = chars_between(&m, frac_start, mlen);
    d.append(&mut fp);
    assert(d@ =~= integer_digits(m@) + fraction_digits(m@));
    let dlen = d.len();
    assert(d@.subrange(0, dlen as int) =~= d@);
    match digits_capped(&d, 0, dlen, 0) {
        None => {
            assert(!all_digits(integer_digits(m@)) || !all_digits(fraction_digits(m@))) by {
                let k = choose|k: int| 0 <= k < d@.len() && !crate::text::is_digit(#[trigger] d@[k]);
                if k < int_end {
                    assert(integer_digits(m@)[k] == d@[k]);
                } else {
                    assert(fraction_digits(m@)[k - int_end] == d@[k]);
                }
            }
            None
        },
        Some(_) => {
            assert forall|k: int| 0 <= k < integer_digits(m@).len() implies crate::text::is_digit(
                #[trigger] integer_digits(m@)[k],
            ) by {
                assert(integer_digits(m@)[k] == d@[k]);
            }
            assert forall|k: int| 0 <= k < fraction_digits(m@).len() implies crate::text::is_digit(
                #[trigger] fraction_digits(m@)[k],
            ) by {
                assert(fraction_digits(m@)[k] == d@[k + int_end]);
            }
            Some((d, int_end))
        },
    }
}

/// The exponent of `u`: whether it is negative, and its value capped at
/// `bound + 1`; `(false, 0)` without one; `None` when it is not an optional sign
/// followed by at least one digit.
fn exponent_capped(u: &Vec<char>, bound: u128) -> (r: Option<(bool, u128)>)
    requires
        bound <= 0x1_0000_0000_0000_0000_0000,
    ensures
        r is Some <==> (has_exponent(u@) ==> unsigned_text(exponent_text(u@)).len() > 0
            && all_digits(unsigned_text(exponent_text(u@)))),
        r matches Some((neg, x)) ==> {
            let v = digits_value(unsigned_text(exponent_text(u@)));
            &&& x == cap_of(v, bound as nat)
            &&& exponent_value(u@) == (if neg {
                -(v as int)
            } else {
                v as int
            })
        },
{
    match find_exponent(u) {
        None => {
            assert(exponent_text(u@) =~= Seq::<char>::empty());
            assert(digits_value(Seq::<char>::empty()) == 0);
            Some((false, 0))
        },
        Some(k) => {
            let ulen = u.len();
            assert(k < ulen);
            let e = chars_after(u, k + 1);
            assert(e@ =~= exponent_text(u@));
            let elen = e.len();
            let neg = elen > 0 && e[0] == '-';
            let estart: usize = if elen > 0 && (e[0] == '+' || e[0] == '-') {
                1
            } else {
                0
            };
            assert(e@.subrange(estart as int, elen as int) =~= unsigned_text(exponent_text(u@)));
            if estart >= elen {
                return None;
            }
            match digits_capped(&e, estart, elen, bound) {
                Some(x) => Some((neg, x)),
                None => None,
            }
        },
    }
}

/// The integer part of the number with digits `d` and point at `p`, capped at
/// `max + 1`, and whether it has no fractional part. The point is
/// `int_end + ev`, where the exponent `ev` is given by its sign and its value
/// capped at `bound + 1`, and `bound` exceeds the number of digits by 8.
fn integer_part_capped(
    d: &Vec<char>,
    int_end: usize,
    exp_negative: bool,
    exp_value: u128,
    bound: u128,
    max: u128,
    Ghost(ev): Ghost<int>,
) -> (r: (u128, bool))
    requires
        all_digits(d@),
        int_end <= d@.len(),
        bound == d@.len() + 8,
        max <= 1000,
        exp_value <= bound ==> ev == (if exp_negative {
            -(exp_value as int)
        } else {
            exp_value as int
        }),
        exp_value > bound ==> (if exp_negative {
            ev < -(bound as int)
        } else {
            ev > bound as int
        }),
    ensures
        r.0 == cap_of(integer_value(d@, int_end + ev), max as nat),
        r.1 == fraction_is_zero(d@, int_end + ev),
{
    let ghost p = int_end + ev;
    let dlen = d.len();
    assert(d@.subrange(0, dlen as int) =~= d@);
    assert(d@.skip(0) =~= d@);
    let zero_digits = digits_capped(d, 0, dlen, 0) == Some(0u128);
    if exp_value > bound && !exp_negative {
        proof {
            if digits_value(d@) > 0 {
                lemma_scaled_large(digits_value(d@), (p - dlen) as nat);
            }
        }
        (if zero_digits {
            0
        } else {
            max + 1
        }, true)
    } else if exp_value > bound && exp_negative {
        (0, zero_digits)
    } else {
        let pos: i128 = if exp_negative {
            int_end as i128 - exp_value as i128
        } else {
            int_end as i128 + exp_value as i128
        };
        assert(pos == p);
        if pos <= 0 {
            (0, zero_digits)
        } else if pos <= dlen as i128 {
            let cut = pos as usize;
            assert(d@.subrange(0, cut as int) =~= d@.take(cut as int));
            assert forall|k: int| 0 <= k < cut implies crate::text::is_digit(
                #[trigger] d@.subrange(0, cut as int)[k],
            ) by {
                assert(d@.subrange(0, cut as int)[k] == d@[k]);
            }
            let head = match digits_capped(d, 0, cut, max) {
                Some(x) => x,
                None => 0,
            };
            let zero_tail = if cut >= dlen {
                true
            } else {
                assert(d@.subrange(cut as int, dlen as int) =~= d@.skip(cut as int));
                assert forall|k: int| 0 <= k < dlen - cut implies crate::text::is_digit(
                    #[trigger] d@.subrange(cut as int, dlen as int)[k],
                ) by {
                    assert(d@.subrange(cut as int, dlen as int)[k] == d@[k + cut]);
                }
                digits_capped(d, cut, dlen, 0) == Some(0u128)
            };
            (head, zero_tail)
        } else {
            let whole = match digits_capped(d, 0, dlen, max) {
                Some(x) => x,
                None => 0,
            };
            let extra = (pos - dlen as i128) as u128;
            (scale_capped(whole, extra, max, Ghost(digits_value(d@))), true)
        }
    }
}

/// Tests `numeral_in_range`.
fn in_range(formatted: &str, max: u128) -> (b: bool)
    requires
        max <= 1000,
    ensures
        b == numeral_in_range(formatted@, max as nat),
{
    let v = chars_of(formatted);
    let n = v.len();
    let negative = n > 0 && v[0] == '-';
    let start: usize = if n > 0 && (v[0] == '+' || v[0] == '-') {
        1
    } else {
        0
    };
    let u = chars_after(&v, start);
    assert(u@ =~= unsigned_text(formatted@));
    let (d, int_end) = match mantissa_digits(&u) {
        Some(x) => x,
        None => {
            return false;
        },
    };
    let dlen = d.len();
    assert(d@.subrange(0, dlen as int) =~= d@);
    let bound: u128 = (dlen as u128) + 8;
    let (exp_negative, exp_value) = match exponent_capped(&u, bound) {
        Some(x) => x,
        None => {
            return false;
        },
    };
    assert(is_numeral(formatted@));
    let ghost ev = exponent_value(u@);
    assert(d@ == significant_digits(formatted@));
    assert(point_position(formatted@) == int_end + ev);
    let zero_digits = digits_capped(&d, 0, dlen, 0) == Some(0u128);
    let (ip, frac_zero) = integer_part_capped(&d, int_end, exp_negative, exp_value, bound, max, Ghost(ev));
    (!negative || zero_digits) && (ip < max || (ip == max && frac_zero))
}

} // verus!
