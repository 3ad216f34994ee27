//! A `Datum` is one measurement: a typed scalar value, an optional physical
//! unit, and a UTC timestamp. Its wire form is
//! `"<value>@<unit>@<rfc3339-timestamp>"`. Booleans render as `true`/`false`;
//! integers as bare base-10 digits; decimal numbers always carry a decimal
//! point — the presence of the point is the one signal telling a decimal
//! apart from an integer, and decoding tries boolean, then integer, then
//! decimal, in that fixed order.

use vstd::prelude::*;
use vstd::string::StrSliceExecFns;
use vstd::string::StringExecFns;

use crate::error::{ParseError, ParseErrorKind};
use crate::text::{
    all_digits, dec_digits, digits_val, find_char, fixed_digits, is_digit_char, pow10, pow10_u64,
    push_fixed, push_u64,
};
use crate::time::{rfc3339_millis, rfc3339_of, ts_millis_in_range, Timestamp};

verus! {

broadcast use vstd::string::group_string_axioms;

/// Most fraction digits a `Decimal` may carry.
pub const DECIMAL_MAX_SCALE: u32 = 12;

/// An exact decimal number: `mantissa / 10^scale`, negated when `neg` is
/// set. It stands in for the floating-point readings devices report; held
/// this way, rendering and re-reading it is exact.
#[derive(Structural, PartialEq, Eq, Clone, Copy, Debug)]
pub struct Decimal {
    pub neg: bool,
    pub mantissa: u64,
    pub scale: u32,
}

impl Decimal {
    /// At least one fraction digit (so the text form always carries a
    /// decimal point), and few enough that comparisons stay exact.
    pub open spec fn wf(self) -> bool {
        1 <= self.scale <= DECIMAL_MAX_SCALE
    }

    pub fn new(neg: bool, mantissa: u64, scale: u32) -> (r: Decimal)
        requires
            1 <= scale <= DECIMAL_MAX_SCALE,
        ensures
            r == (Decimal { neg, mantissa, scale }),
            r.wf(),
    {
        Decimal { neg, mantissa, scale }
    }

    /// The signed numerator of the value over the denominator `10^scale`.
    pub open spec fn num(self) -> int {
        if self.neg {
            -(self.mantissa as int)
        } else {
            self.mantissa as int
        }
    }

    /// `self <= other` as rational numbers.
    pub open spec fn spec_le(self, other: Decimal) -> bool {
        self.num() * pow10(other.scale as nat) <= other.num() * pow10(self.scale as nat)
    }

    pub fn le(&self, other: &Decimal) -> (r: bool)
        requires
            self.wf(),
            other.wf(),
        ensures
            r == self.spec_le(*other),
    {
        let ps = pow10_u64(self.scale as usize) as i128;
        let po = pow10_u64(other.scale as usize) as i128;
        let a = if self.neg {
            -(self.mantissa as i128)
        } else {
            self.mantissa as i128
        };
        let b = if other.neg {
            -(other.mantissa as i128)
        } else {
            other.mantissa as i128
        };
        proof {
            crate::text::lemma_pow10_mono(self.scale as nat, 12);
            crate::text::lemma_pow10_mono(other.scale as nat, 12);
            crate::text::lemma_pow10_pos(self.scale as nat);
            crate::text::lemma_pow10_pos(other.scale as nat);
            assert(pow10(12) == 1000000000000) by {
                reveal_with_fuel(pow10, 13);
            }
            assert(a * po <= i128::MAX && a * po >= i128::MIN) by (nonlinear_arith)
                requires
                    -(u64::MAX as i128) <= a <= u64::MAX as i128,
                    0 < po <= 1000000000000,
            ;
            assert(b * ps <= i128::MAX && b * ps >= i128::MIN) by (nonlinear_arith)
                requires
                    -(u64::MAX as i128) <= b <= u64::MAX as i128,
                    0 < ps <= 1000000000000,
            ;
        }
        a * po <= b * ps
    }

    /// Renders the value with its whole part, a decimal point, and exactly
    /// `scale` fraction digits.
    pub fn to_string(&self) -> (r: String)
        requires
            self.wf(),
        ensures
            r@ == dec_text(*self),
    {
        let mut out = String::new();
        if self.neg {
            out.append("-");
            proof {
                reveal_strlit("-");
            }
        }
        let p = pow10_u64(self.scale as usize);
        proof {
            crate::text::lemma_pow10_pos(self.scale as nat);
        }
        push_u64(&mut out, self.mantissa / p);
        out.append(".");
        proof {
            reveal_strlit(".");
        }
        push_fixed(&mut out, self.mantissa % p, self.scale as usize);
        proof {
            assert(out@ =~= dec_text(*self));
        }
        out
    }
}

/// The typed scalar inside a `Datum`.
#[derive(Structural, PartialEq, Eq, Clone, Copy, Debug)]
pub enum DatumValue {
    Bool(bool),
    Float(Decimal),
    Int(i32),
}

impl DatumValue {
    pub open spec fn wf(self) -> bool {
        match self {
            DatumValue::Float(d) => d.wf(),
            _ => true,
        }
    }

    /// Renders the value: `true`/`false`, bare digits, or a decimal with a
    /// point.
    pub fn to_string(&self) -> (r: String)
        requires
            self.wf(),
        ensures
            r@ == value_text(*self),
    {
        match self {
            DatumValue::Bool(b) => {
                if *b {
                    String::from_str("true")
                } else {
                    String::from_str("false")
                }
            },
            DatumValue::Float(d) => d.to_string(),
            DatumValue::Int(i) => {
                let mut out = String::new();
                if *i < 0 {
                    out.append("-");
                    proof {
                        reveal_strlit("-");
                    }
                    let mag: u64 = (-(*i as i64)) as u64;
                    push_u64(&mut out, mag);
                } else {
                    push_u64(&mut out, *i as u64);
                }
                proof {
                    assert(out@ =~= int_text(*i as int));
                }
                out
            },
        }
    }
}

/// The fixed enumeration of physical units.
#[derive(Structural, PartialEq, Eq, Clone, Copy, Debug)]
pub enum DatumUnit {
    Unitless,
    PoweredOn,
    DegreesC,
}

impl Default for DatumUnit {
    fn default() -> (r: DatumUnit)
        ensures
            r == DatumUnit::Unitless,
    {
        DatumUnit::Unitless
    }
}

impl DatumUnit {
    /// Renders the unit's symbol; `Unitless` renders as the empty string.
    pub fn to_string(&self) -> (r: String)
        ensures
            r@ == unit_text(*self),
    {
        match self {
            DatumUnit::Unitless => String::new(),
            DatumUnit::PoweredOn => {
                let r = String::from_str("\u{23fc}");
                proof {
                    reveal_strlit("\u{23fc}");
                    assert(r@ =~= unit_text(DatumUnit::PoweredOn));
                }
                r
            },
            DatumUnit::DegreesC => {
                let r = String::from_str("\u{b0}C");
                proof {
                    reveal_strlit("\u{b0}C");
                    assert(r@ =~= unit_text(DatumUnit::DegreesC));
                }
                r
            },
        }
    }

    /// Reads a unit symbol; any other text is rejected as a `Unit` parse
    /// error carrying that text.
    pub fn parse(s: &str) -> (r: Result<DatumUnit, ParseError>)
        ensures
            (match r {
                Ok(u) => parse_unit_text(s@) == Some(u),
                Err(e) => parse_unit_text(s@) is None && e@.kind == ParseErrorKind::Unit && e@.text
                    == s@,
            }),
    {
        let n = s.unicode_len();
        if n == 0 {
            proof {
                assert(s@ =~= Seq::<char>::empty());
            }
            Ok(DatumUnit::Unitless)
        } else if n == 1 && s.get_char(0) == '\u{23fc}' {
            proof {
                assert(s@ =~= seq!['\u{23fc}']);
            }
            Ok(DatumUnit::PoweredOn)
        } else if n == 2 && s.get_char(0) == '\u{b0}' && s.get_char(1) == 'C' {
            proof {
                assert(s@ =~= seq!['\u{b0}', 'C']);
            }
            Ok(DatumUnit::DegreesC)
        } else {
            proof {
                assert(parse_unit_text(s@) is None);
            }
            Err(ParseError::new(ParseErrorKind::Unit, String::from_str(s)))
        }
    }
}

/// Text of a boolean value.
pub open spec fn bool_text(b: bool) -> Seq<char> {
    if b {
        "true"@
    } else {
        "false"@
    }
}

/// Text of an integer value: base-10 digits, `'-'`-prefixed when negative.
pub open spec fn int_text(i: int) -> Seq<char> {
    if i < 0 {
        seq!['-'] + dec_digits((-i) as nat)
    } else {
        dec_digits(i as nat)
    }
}

/// Text of a decimal value: optional sign, whole part, decimal point, and
/// exactly `scale` fraction digits.
pub open spec fn dec_text(d: Decimal) -> Seq<char> {
    let sign: Seq<char> = if d.neg {
        seq!['-']
    } else {
        Seq::<char>::empty()
    };
    sign + dec_digits(d.mantissa as nat / pow10(d.scale as nat)) + seq!['.'] + fixed_digits(
        d.mantissa as nat % pow10(d.scale as nat),
        d.scale as nat,
    )
}

/// Text of a typed scalar.
pub open spec fn value_text(v: DatumValue) -> Seq<char> {
    match v {
        DatumValue::Bool(b) => bool_text(b),
        DatumValue::Float(d) => dec_text(d),
        DatumValue::Int(i) => int_text(i as int),
    }
}

/// Text of a unit.
pub open spec fn unit_text(u: DatumUnit) -> Seq<char> {
    match u {
        DatumUnit::Unitless => Seq::<char>::empty(),
        DatumUnit::PoweredOn => seq!['\u{23fc}'],
        DatumUnit::DegreesC => seq!['\u{b0}', 'C'],
    }
}

/// Reading a unit symbol back.
pub open spec fn parse_unit_text(s: Seq<char>) -> Option<DatumUnit> {
    if s == unit_text(DatumUnit::Unitless) {
        Some(DatumUnit::Unitless)
    } else if s == unit_text(DatumUnit::PoweredOn) {
        Some(DatumUnit::PoweredOn)
    } else if s == unit_text(DatumUnit::DegreesC) {
        Some(DatumUnit::DegreesC)
    } else {
        None
    }
}

/// Whether the text opens with an explicit sign.
pub open spec fn has_sign(s: Seq<char>) -> bool {
    s.len() > 0 && (s[0] == '-' || s[0] == '+')
}

/// Whether the text denotes a negated number.
pub open spec fn sign_neg(s: Seq<char>) -> bool {
    s.len() > 0 && s[0] == '-'
}

/// The text with any leading sign removed.
pub open spec fn sign_body(s: Seq<char>) -> Seq<char> {
    if has_sign(s) {
        s.skip(1)
    } else {
        s
    }
}

/// Reading a boolean: exactly `true` or `false`.
pub open spec fn parse_bool_text(s: Seq<char>) -> Option<bool> {
    if s == "true"@ {
        Some(true)
    } else if s == "false"@ {
        Some(false)
    } else {
        None
    }
}

/// Reading an integer: an optional sign, then base-10 digits, denoting a
/// value that fits an `i32`.
pub open spec fn parse_int_text(s: Seq<char>) -> Option<i32> {
    let b = sign_body(s);
    if b.len() > 0 && all_digits(b) {
        let v = digits_val(b) as int;
        if sign_neg(s) {
            if v <= 2147483648 {
                Some((-v) as i32)
            } else {
                None
            }
        } else {
            if v <= 2147483647 {
                Some(v as i32)
            } else {
                None
            }
        }
    } else {
        None
    }
}

/// Reading a decimal: an optional sign, digits, a decimal point, and one to
/// `DECIMAL_MAX_SCALE` fraction digits, with a mantissa that fits a `u64`.
pub open spec fn parse_dec_text(s: Seq<char>) -> Option<Decimal> {
    let b = sign_body(s);
    let dot = find_char(b, '.');
    if dot < b.len() {
        let whole = b.subrange(0, dot);
        let frac = b.subrange(dot + 1, b.len() as int);
        if whole.len() > 0 && frac.len() > 0 && all_digits(whole) && all_digits(frac) && frac.len()
            <= DECIMAL_MAX_SCALE && digits_val(whole) * pow10(frac.len() as nat) + digits_val(frac)
            <= u64::MAX {
            Some(
                (Decimal {
                    neg: sign_neg(s),
                    mantissa: (digits_val(whole) * pow10(frac.len() as nat) + digits_val(
                        frac,
                    )) as u64,
                    scale: frac.len() as u32,
                }),
            )
        } else {
            None
        }
    } else {
        None
    }
}

/// Reading a typed scalar: boolean, then integer, then decimal, in that
/// fixed order.
pub open spec fn parse_value_text(s: Seq<char>) -> Option<DatumValue> {
    if parse_bool_text(s) is Some {
        Some(DatumValue::Bool(parse_bool_text(s).unwrap()))
    } else if parse_int_text(s) is Some {
        Some(DatumValue::Int(parse_int_text(s).unwrap()))
    } else if parse_dec_text(s) is Some {
        Some(DatumValue::Float(parse_dec_text(s).unwrap()))
    } else {
        None
    }
}

fn parse_bool_str(s: &str) -> (r: Option<bool>)
    ensures
        r == parse_bool_text(s@),
{
    if crate::text::str_eq(s, "true") {
        Some(true)
    } else if crate::text::str_eq(s, "false") {
        Some(false)
    } else {
        None
    }
}

/// The leading sign of the text, as (negative, digits-start).
fn scan_sign(s: &str, n: usize) -> (r: (bool, usize))
    requires
        n == s@.len(),
        n > 0,
    ensures
        r.0 == sign_neg(s@),
        r.1 == (if has_sign(s@) {
            1int
        } else {
            0int
        }),
        r.1 <= n,
{
    let c0 = s.get_char(0);
    if c0 == '-' {
        (true, 1)
    } else if c0 == '+' {
        (false, 1)
    } else {
        (false, 0)
    }
}

pub(crate) fn parse_i32_str(s: &str) -> (r: Option<i32>)
    ensures
        r == parse_int_text(s@),
{
    let n = s.unicode_len();
    if n == 0 {
        return None;
    }
    let (neg, start) = scan_sign(s, n);
    proof {
        assert(sign_body(s@) =~= s@.subrange(start as int, n as int));
    }
    match crate::text::parse_u64_digits(s, start, n) {
        None => {
            proof {
                let b = sign_body(s@);
                if b.len() > 0 && all_digits(b) && digits_val(b) <= 2147483648 {
                    assert(digits_val(b) <= u64::MAX);
                }
            }
            None
        },
        Some(v) => {
            if neg {
                if v <= 2147483648 {
                    if v == 2147483648 {
                        Some(i32::MIN)
                    } else {
                        Some(-(v as i32))
                    }
                } else {
                    None
                }
            } else {
                if v <= 2147483647 {
                    Some(v as i32)
                } else {
                    None
                }
            }
        },
    }
}

pub(crate) fn parse_decimal_str(s: &str) -> (r: Option<Decimal>)
    ensures
        r == parse_dec_text(s@),
        r is Some ==> r.unwrap().wf(),
{
    let n = s.unicode_len();
    if n == 0 {
        return None;
    }
    let (neg, start) = scan_sign(s, n);
    proof {
        assert(sign_body(s@) =~= s@.subrange(start as int, n as int));
    }
    let ghost b = sign_body(s@);
    let dot = crate::text::scan_for_char(s, start, '.');
    proof {
        assert forall|k: int| 0 <= k < dot - start implies b[k] != '.' by {
            assert(b[k] == s@[k + start]);
        }
        if dot < n {
            assert(b[dot - start] == '.');
        }
        crate::text::lemma_find_char_is(b, '.', dot - start);
    }
    if dot == n {
        return None;
    }
    let fl = n - dot - 1;
    if fl == 0 || fl > 12 {
        return None;
    }
    let ghost whole = b.subrange(0, dot - start);
    let ghost frac = b.subrange(dot - start + 1, b.len() as int);
    proof {
        assert(whole =~= s@.subrange(start as int, dot as int));
        assert(frac =~= s@.subrange(dot + 1, n as int));
    }
    let w = match crate::text::parse_u64_digits(s, start, dot) {
        None => {
            proof {
                if whole.len() > 0 && all_digits(whole) && all_digits(frac) && digits_val(whole)
                    * pow10(frac.len() as nat) + digits_val(frac) <= u64::MAX {
                    crate::text::lemma_pow10_pos(frac.len() as nat);
                    assert(digits_val(whole) <= digits_val(whole) * pow10(frac.len() as nat))
                        by (nonlinear_arith)
                        requires
                            pow10(frac.len() as nat) >= 1,
                    ;
                }
            }
            return None;
        },
        Some(w) => w,
    };
    let f = match crate::text::parse_u64_digits(s, dot + 1, n) {
        None => {
            proof {
                if all_digits(frac) {
                    crate::text::lemma_digits_val_bound(frac);
                    crate::text::lemma_pow10_mono(frac.len() as nat, 12);
                    assert(pow10(12) == 1000000000000) by {
                        reveal_with_fuel(pow10, 13);
                    }
                }
            }
            return None;
        },
        Some(f) => f,
    };
    let p = pow10_u64(fl);
    proof {
        crate::text::lemma_pow10_mono(fl as nat, 12);
        assert(pow10(12) == 1000000000000) by {
            reveal_with_fuel(pow10, 13);
        }
        assert((w as u128) * (p as u128) + (f as u128) <= u128::MAX) by (nonlinear_arith)
            requires
                w <= u64::MAX,
                p <= 1000000000000,
                f <= u64::MAX,
        ;
    }
    let m128: u128 = (w as u128) * (p as u128) + (f as u128);
    if m128 > u64::MAX as u128 {
        return None;
    }
    Some(Decimal { neg, mantissa: m128 as u64, scale: fl as u32 })
}

impl DatumValue {
    /// Reads a typed scalar, trying boolean, then integer, then decimal;
    /// any other text is rejected as a `Value` parse error carrying it.
    pub fn parse(string: String) -> (r: Result<DatumValue, ParseError>)
        ensures
            (match r {
                Ok(v) => parse_value_text(string@) == Some(v) && v.wf(),
                Err(e) => parse_value_text(string@) is None && e@.kind == ParseErrorKind::Value
                    && e@.text == string@,
            }),
    {
        if let Some(b) = parse_bool_str(string.as_str()) {
            return Ok(DatumValue::Bool(b));
        }
        if let Some(i) = parse_i32_str(string.as_str()) {
            return Ok(DatumValue::Int(i));
        }
        if let Some(d) = parse_decimal_str(string.as_str()) {
            return Ok(DatumValue::Float(d));
        }
        Err(ParseError::new(ParseErrorKind::Value, string))
    }
}

/// Reading back the text of a boolean yields that boolean.
pub proof fn lemma_bool_text_round(b: bool)
    ensures
        parse_bool_text(bool_text(b)) == Some(b),
{
    reveal_strlit("true");
    reveal_strlit("false");
    assert("true"@.len() == 4);
    assert("false"@.len() == 5);
    if b {
        assert(bool_text(b) == "true"@);
    } else {
        assert(bool_text(b) == "false"@);
        assert("false"@ != "true"@);
    }
}

/// Reading back the text of an integer yields that integer.
pub proof fn lemma_int_text_round(i: i32)
    ensures
        parse_int_text(int_text(i as int)) == Some(i),
{
    if i >= 0 {
        let t = int_text(i as int);
        crate::text::lemma_dec_digits(i as nat);
        assert(is_digit_char(t[0]));
        assert(!has_sign(t));
        assert(sign_body(t) == t);
    } else {
        let m = (-(i as int)) as nat;
        let t = int_text(i as int);
        crate::text::lemma_dec_digits(m);
        assert(t[0] == '-');
        assert(sign_body(t) =~= dec_digits(m));
        assert(digits_val(dec_digits(m)) == m);
        assert(m <= 2147483648);
    }
}

/// Reading back the text of a decimal yields that decimal.
pub proof fn lemma_dec_text_round(d: Decimal)
    requires
        d.wf(),
    ensures
        parse_dec_text(dec_text(d)) == Some(d),
{
    let m = d.mantissa as nat;
    let sc = d.scale as nat;
    let p = pow10(sc);
    crate::text::lemma_pow10_pos(sc);
    vstd::arithmetic::div_mod::lemma_mod_division_less_than_divisor(m as int, p as int);
    let w = dec_digits(m / p);
    let f = fixed_digits(m % p, sc);
    crate::text::lemma_dec_digits(m / p);
    crate::text::lemma_fixed_digits(m % p, sc);
    let t = dec_text(d);
    let b = sign_body(t);
    if d.neg {
        assert(t[0] == '-');
        assert(b =~= w + seq!['.'] + f);
    } else {
        assert(is_digit_char(t[0]));
        assert(!has_sign(t));
        assert(b =~= w + seq!['.'] + f);
    }
    assert forall|k: int| 0 <= k < w.len() implies b[k] != '.' by {
        assert(b[k] == w[k]);
        assert(is_digit_char(w[k]));
    }
    assert(b[w.len() as int] == '.');
    crate::text::lemma_find_char_is(b, '.', w.len() as int);
    let whole = b.subrange(0, w.len() as int);
    let frac = b.subrange(w.len() as int + 1, b.len() as int);
    assert(whole =~= w);
    assert(frac =~= f);
    vstd::arithmetic::div_mod::lemma_fundamental_div_mod(m as int, p as int);
    assert(digits_val(whole) * pow10(frac.len() as nat) + digits_val(frac) == m)
        by (nonlinear_arith)
        requires
            digits_val(whole) == m / p,
            digits_val(frac) == m % p,
            pow10(frac.len() as nat) == p,
            m == p * (m / p) + m % p,
    ;
    assert(parse_dec_text(t) == Some(d));
}

/// No text reads as both an integer and a decimal: the decimal point is
/// the one signal separating the two, so the fixed trying order — boolean,
/// then integer, then decimal — never masks a decimal behind an integer.
pub proof fn lemma_int_dec_disjoint(s: Seq<char>)
    ensures
        !(parse_int_text(s) is Some && parse_dec_text(s) is Some),
{
    if parse_int_text(s) is Some && parse_dec_text(s) is Some {
        let b = sign_body(s);
        assert(all_digits(b));
        let dot = find_char(b, '.');
        crate::text::lemma_find_char(b, '.');
        assert(b[dot] == '.');
        assert(is_digit_char(b[dot]));
        assert(false);
    }
}

/// The text of an integer or decimal opens with a digit or a sign, so it is
/// never mistaken for a boolean.
proof fn lemma_number_text_not_bool(s: Seq<char>)
    requires
        s.len() > 0,
        is_digit_char(s[0]) || s[0] == '-',
    ensures
        parse_bool_text(s) is None,
{
    reveal_strlit("true");
    reveal_strlit("false");
    if s == "true"@ {
        assert(s[0] == 't');
    }
    if s == "false"@ {
        assert(s[0] == 'f');
    }
}

/// Reading back the text of a typed scalar yields that scalar: the decimal
/// point alone tells a decimal from an integer, and neither looks like a
/// boolean.
pub proof fn lemma_value_text_round(v: DatumValue)
    requires
        v.wf(),
    ensures
        parse_value_text(value_text(v)) == Some(v),
{
    match v {
        DatumValue::Bool(b) => {
            lemma_bool_text_round(b);
        },
        DatumValue::Int(i) => {
            let t = int_text(i as int);
            if i >= 0 {
                crate::text::lemma_dec_digits(i as nat);
                assert(is_digit_char(t[0]));
            } else {
                crate::text::lemma_dec_digits((-(i as int)) as nat);
                assert(t[0] == '-');
            }
            lemma_number_text_not_bool(t);
            lemma_int_text_round(i);
        },
        DatumValue::Float(d) => {
            let t = dec_text(d);
            let m = d.mantissa as nat;
            let sc = d.scale as nat;
            let p = pow10(sc);
            crate::text::lemma_pow10_pos(sc);
            vstd::arithmetic::div_mod::lemma_mod_division_less_than_divisor(m as int, p as int);
            let w = dec_digits(m / p);
            let f = fixed_digits(m % p, sc);
            crate::text::lemma_dec_digits(m / p);
            crate::text::lemma_fixed_digits(m % p, sc);
            let b = sign_body(t);
            if d.neg {
                assert(t[0] == '-');
                assert(b =~= w + seq!['.'] + f);
            } else {
                assert(is_digit_char(t[0]));
                assert(!has_sign(t));
                assert(b =~= w + seq!['.'] + f);
            }
            lemma_number_text_not_bool(t);
            // the decimal point keeps the integer reading from applying
            assert(b[w.len() as int] == '.');
            assert(!is_digit_char('.'));
            assert(!all_digits(b));
            assert(parse_int_text(t) is None);
            lemma_dec_text_round(d);
        },
    }
}

/// No character of a typed scalar's text is the field separator `'@'`.
pub proof fn lemma_value_text_no_at(v: DatumValue)
    requires
        v.wf(),
    ensures
        forall|k: int| 0 <= k < value_text(v).len() ==> value_text(v)[k] != '@',
{
    let t = value_text(v);
    match v {
        DatumValue::Bool(b) => {
            reveal_strlit("true");
            reveal_strlit("false");
            assert forall|k: int| 0 <= k < t.len() implies t[k] != '@' by {}
        },
        DatumValue::Int(i) => {
            if i >= 0 {
                crate::text::lemma_dec_digits(i as nat);
                assert forall|k: int| 0 <= k < t.len() implies t[k] != '@' by {
                    assert(is_digit_char(t[k]));
                }
            } else {
                crate::text::lemma_dec_digits((-(i as int)) as nat);
                assert forall|k: int| 0 <= k < t.len() implies t[k] != '@' by {
                    if k > 0 {
                        assert(t[k] == dec_digits((-(i as int)) as nat)[k - 1]);
                        assert(is_digit_char(t[k]));
                    }
                }
            }
        },
        DatumValue::Float(d) => {
            let m = d.mantissa as nat;
            let sc = d.scale as nat;
            let p = pow10(sc);
            crate::text::lemma_pow10_pos(sc);
            vstd::arithmetic::div_mod::lemma_mod_division_less_than_divisor(m as int, p as int);
            let w = dec_digits(m / p);
            let f = fixed_digits(m % p, sc);
            crate::text::lemma_dec_digits(m / p);
            crate::text::lemma_fixed_digits(m % p, sc);
            let sign: Seq<char> = if d.neg {
                seq!['-']
            } else {
                Seq::<char>::empty()
            };
            assert(t =~= sign + w + seq!['.'] + f);
            assert forall|k: int| 0 <= k < t.len() implies t[k] != '@' by {
                let sl = sign.len() as int;
                let wl = w.len() as int;
                if k < sl {
                    assert(t[k] == '-');
                } else if k < sl + wl {
                    assert(t[k] == w[k - sl]);
                    assert(is_digit_char(t[k]));
                } else if k == sl + wl {
                    assert(t[k] == '.');
                } else {
                    assert(t[k] == f[k - sl - wl - 1]);
                    assert(is_digit_char(t[k]));
                }
            }
        },
    }
}

/// Every character of a decimal's text is a digit, the sign, or the point,
/// and there are at least three of them.
pub proof fn lemma_dec_text_chars(d: Decimal)
    requires
        d.wf(),
    ensures
        forall|k: int|
            0 <= k < dec_text(d).len() ==> is_digit_char(#[trigger] dec_text(d)[k]) || dec_text(
                d,
            )[k] == '-' || dec_text(d)[k] == '.',
        dec_text(d).len() >= 3,
{
    let t = dec_text(d);
    let m = d.mantissa as nat;
    let sc = d.scale as nat;
    let p = pow10(sc);
    crate::text::lemma_pow10_pos(sc);
    vstd::arithmetic::div_mod::lemma_mod_division_less_than_divisor(m as int, p as int);
    let w = dec_digits(m / p);
    let f = fixed_digits(m % p, sc);
    crate::text::lemma_dec_digits(m / p);
    crate::text::lemma_fixed_digits(m % p, sc);
    let sign: Seq<char> = if d.neg {
        seq!['-']
    } else {
        Seq::<char>::empty()
    };
    assert(t =~= sign + w + seq!['.'] + f);
    assert forall|k: int|
        0 <= k < t.len() implies is_digit_char(#[trigger] t[k]) || t[k] == '-' || t[k]
        == '.' by {
        let sl = sign.len() as int;
        let wl = w.len() as int;
        if k < sl {
            assert(t[k] == '-');
        } else if k < sl + wl {
            assert(t[k] == w[k - sl]);
            assert(is_digit_char(t[k]));
        } else if k == sl + wl {
            assert(t[k] == '.');
        } else {
            assert(t[k] == f[k - sl - wl - 1]);
            assert(is_digit_char(t[k]));
        }
    }
}

/// Reading back a unit's symbol yields that unit.
pub proof fn lemma_unit_text_round(u: DatumUnit)
    ensures
        parse_unit_text(unit_text(u)) == Some(u),
{
    match u {
        DatumUnit::Unitless => {
            assert(unit_text(u).len() == 0);
        },
        DatumUnit::PoweredOn => {
            assert(unit_text(u).len() == 1);
            assert(unit_text(u) != unit_text(DatumUnit::Unitless));
        },
        DatumUnit::DegreesC => {
            assert(unit_text(u).len() == 2);
            assert(unit_text(u) != unit_text(DatumUnit::Unitless));
            assert(unit_text(u) != unit_text(DatumUnit::PoweredOn));
        },
    }
}

/// No character of a unit symbol is the field separator `'@'`.
pub proof fn lemma_unit_text_no_at(u: DatumUnit)
    ensures
        forall|k: int| 0 <= k < unit_text(u).len() ==> unit_text(u)[k] != '@',
{
}

/// One measurement: a typed value, an optional unit, and a UTC timestamp.
#[derive(Structural, PartialEq, Eq, Clone, Copy, Debug)]
pub struct Datum {
    pub value: DatumValue,
    pub unit: Option<DatumUnit>,
    pub timestamp: Timestamp,
}

/// The unit an encoded datum carries: an absent unit encodes as `Unitless`.
pub open spec fn unit_or_default(u: Option<DatumUnit>) -> DatumUnit {
    match u {
        Some(x) => x,
        None => DatumUnit::Unitless,
    }
}

/// The wire text of a datum: value, unit, and RFC 3339 timestamp, joined by
/// `'@'`.
pub open spec fn encode_text(d: Datum) -> Seq<char> {
    value_text(d.value) + seq!['@'] + unit_text(unit_or_default(d.unit)) + seq!['@'] + rfc3339_of(
        d.timestamp.millis as int,
    )
}

/// Splits wire text on `'@'` into exactly three fields; any other count of
/// separators is rejected.
pub open spec fn split3(s: Seq<char>) -> Option<(Seq<char>, Seq<char>, Seq<char>)> {
    let i = find_char(s, '@');
    if i == s.len() {
        None
    } else {
        let rest = s.subrange(i + 1, s.len() as int);
        let j = find_char(rest, '@');
        if j == rest.len() {
            None
        } else {
            let f1 = rest.subrange(0, j);
            let f2 = rest.subrange(j + 1, rest.len() as int);
            if find_char(f2, '@') == f2.len() {
                Some((s.subrange(0, i), f1, f2))
            } else {
                None
            }
        }
    }
}

/// Reading wire text back into a datum. The decoded unit is always present:
/// an empty unit field reads as `Unitless`.
pub open spec fn decode_text(s: Seq<char>) -> Option<Datum> {
    match split3(s) {
        None => None,
        Some(f) => {
            if parse_value_text(f.0) is Some && parse_unit_text(f.1) is Some && rfc3339_millis(
                f.2,
            ) is Some && ts_millis_in_range(rfc3339_millis(f.2).unwrap() as int) {
                Some(
                    (Datum {
                        value: parse_value_text(f.0).unwrap(),
                        unit: Some(parse_unit_text(f.1).unwrap()),
                        timestamp: (Timestamp { millis: rfc3339_millis(f.2).unwrap() }),
                    }),
                )
            } else {
                None
            }
        },
    }
}

/// The parse error rejected wire text yields: the first field that failed,
/// in field order, with the offending text.
pub open spec fn decode_err(s: Seq<char>) -> crate::error::ParseErrorView {
    match split3(s) {
        None => crate::error::ParseErrorView { kind: ParseErrorKind::Structure, text: s },
        Some(f) => {
            if parse_value_text(f.0) is None {
                crate::error::ParseErrorView { kind: ParseErrorKind::Value, text: f.0 }
            } else if parse_unit_text(f.1) is None {
                crate::error::ParseErrorView { kind: ParseErrorKind::Unit, text: f.1 }
            } else {
                crate::error::ParseErrorView { kind: ParseErrorKind::Timestamp, text: f.2 }
            }
        },
    }
}

impl Datum {
    /// The value is well formed and the timestamp lies in the supported era.
    pub open spec fn wf(self) -> bool {
        self.value.wf() && self.timestamp.wf()
    }

    pub fn new(value: DatumValue, unit: Option<DatumUnit>, timestamp: Timestamp) -> (r: Datum)
        ensures
            r == (Datum { value, unit, timestamp }),
    {
        Datum { value, unit, timestamp }
    }

    /// A measurement stamped with the machine clock's current instant,
    /// clamped into the supported era.
    pub fn new_now(value: DatumValue, unit: Option<DatumUnit>) -> (r: Datum)
        ensures
            r.value == value,
            r.unit == unit,
            r.timestamp.wf(),
    {
        let ms = crate::time::now_millis();
        let ms = if ms < crate::time::TS_MILLIS_MIN {
            crate::time::TS_MILLIS_MIN
        } else if ms > crate::time::TS_MILLIS_MAX {
            crate::time::TS_MILLIS_MAX
        } else {
            ms
        };
        Datum { value, unit, timestamp: Timestamp { millis: ms } }
    }

    pub fn get_as_bool(&self) -> (r: Option<bool>)
        ensures
            (match self.value {
                DatumValue::Bool(b) => r == Some(b),
                _ => r is None,
            }),
    {
        match self.value {
            DatumValue::Bool(value) => Some(value),
            _ => None,
        }
    }

    pub fn get_as_float(&self) -> (r: Option<Decimal>)
        ensures
            (match self.value {
                DatumValue::Float(d) => r == Some(d),
                _ => r is None,
            }),
    {
        match self.value {
            DatumValue::Float(value) => Some(value),
            _ => None,
        }
    }

    pub fn get_as_int(&self) -> (r: Option<i32>)
        ensures
            (match self.value {
                DatumValue::Int(i) => r == Some(i),
                _ => r is None,
            }),
    {
        match self.value {
            DatumValue::Int(value) => Some(value),
            _ => None,
        }
    }

    /// Encodes the datum as `"<value>@<unit>@<rfc3339-timestamp>"`. The
    /// second clause is the round trip: decoding the rendering restores the
    /// datum exactly, except that an absent unit comes back as `Unitless`.
    pub fn to_string(&self) -> (r: String)
        requires
            self.wf(),
        ensures
            r@ == encode_text(*self),
            decode_text(r@) == Some(
                (Datum {
                    value: self.value,
                    unit: Some(unit_or_default(self.unit)),
                    timestamp: self.timestamp,
                }),
            ),
    {
        let u = match self.unit {
            Some(u) => u,
            None => DatumUnit::Unitless,
        };
        let mut out = self.value.to_string();
        out.append("@");
        let us = u.to_string();
        out.append(us.as_str());
        out.append("@");
        let ts = crate::time::format_rfc3339(self.timestamp.millis);
        out.append(ts.as_str());
        proof {
            reveal_strlit("@");
            let a = value_text(self.value);
            let b = unit_text(u);
            let c = ts@;
            assert(out@ =~= a + seq!['@'] + b + seq!['@'] + c);
            assert(out@ =~= encode_text(*self));
            lemma_value_text_no_at(self.value);
            lemma_unit_text_no_at(u);
            lemma_value_text_round(self.value);
            lemma_unit_text_round(u);
            let al = a.len() as int;
            let bl = b.len() as int;
            assert forall|k: int| 0 <= k < al implies out@[k] != '@' by {
                assert(out@[k] == a[k]);
            }
            assert(out@[al] == '@');
            crate::text::lemma_find_char_is(out@, '@', al);
            let rest = out@.subrange(al + 1, out@.len() as int);
            assert(rest =~= b + seq!['@'] + c);
            assert forall|k: int| 0 <= k < bl implies rest[k] != '@' by {
                assert(rest[k] == b[k]);
            }
            assert(rest[bl] == '@');
            crate::text::lemma_find_char_is(rest, '@', bl);
            let f2 = rest.subrange(bl + 1, rest.len() as int);
            assert(f2 =~= c);
            crate::text::lemma_find_char_is(f2, '@', f2.len() as int);
            assert(rest.subrange(0, bl) =~= b);
            assert(out@.subrange(0, al) =~= a);
            assert(split3(out@) == Some((a, b, c)));
        }
        out
    }

    /// Decodes wire text: exactly three `'@'`-separated fields, a value in
    /// the fixed order boolean/integer/decimal, a known unit, and an RFC
    /// 3339 timestamp in the supported era; anything else is a parse error
    /// naming the first offending field.
    pub fn parse(s: &str) -> (r: Result<Datum, ParseError>)
        ensures
            r is Ok <==> decode_text(s@) is Some,
            r is Ok ==> decode_text(s@) == Some(r.unwrap()) && r.unwrap().wf(),
            r is Err ==> r.unwrap_err()@ == decode_err(s@),
    {
        let n = s.unicode_len();
        let i = crate::text::scan_for_char(s, 0, '@');
        proof {
            crate::text::lemma_find_char_is(s@, '@', i as int);
        }
        if i == n {
            return Err(ParseError::new(ParseErrorKind::Structure, String::from_str(s)));
        }
        let ghost rest = s@.subrange(i as int + 1, n as int);
        let j = crate::text::scan_for_char(s, i + 1, '@');
        proof {
            assert forall|k: int| 0 <= k < j - i - 1 implies rest[k] != '@' by {
                assert(rest[k] == s@[k + i + 1]);
            }
            if j < n {
                assert(rest[j - i - 1] == '@');
            }
            crate::text::lemma_find_char_is(rest, '@', j - i - 1);
        }
        if j == n {
            return Err(ParseError::new(ParseErrorKind::Structure, String::from_str(s)));
        }
        let ghost last = rest.subrange(j - i, rest.len() as int);
        let k = crate::text::scan_for_char(s, j + 1, '@');
        proof {
            assert forall|q: int| 0 <= q < k - j - 1 implies last[q] != '@' by {
                assert(last[q] == s@[q + j + 1]);
            }
            if k < n {
                assert(last[k - j - 1] == '@');
            }
            crate::text::lemma_find_char_is(last, '@', k - j - 1);
        }
        if k < n {
            return Err(ParseError::new(ParseErrorKind::Structure, String::from_str(s)));
        }
        let f0 = s.substring_char(0, i);
        let f1 = s.substring_char(i + 1, j);
        let f2 = s.substring_char(j + 1, n);
        proof {
            assert(rest.subrange(0, j - i - 1) =~= f1@);
            assert(split3(s@) == Some((f0@, f1@, f2@)));
        }
        let value = match DatumValue::parse(String::from_str(f0)) {
            Ok(v) => v,
            Err(e) => {
                return Err(e);
            },
        };
        let unit = match DatumUnit::parse(f1) {
            Ok(u) => u,
            Err(e) => {
                return Err(e);
            },
        };
        let timestamp = match crate::time::parse_rfc3339_millis(f2) {
            Some(ms) => match Timestamp::from_millis(ms) {
                Some(t) => t,
                None => {
                    return Err(
                        ParseError::new(ParseErrorKind::Timestamp, String::from_str(f2)),
                    );
                },
            },
            None => {
                return Err(ParseError::new(ParseErrorKind::Timestamp, String::from_str(f2)));
            },
        };
        Ok(Datum { value, unit: Some(unit), timestamp })
    }
}

} // verus!
