//! Arithmetic evaluation of the live query: a recursive-descent parser and
//! evaluator for expressions over `+ - * / ( )` and decimal integers, with
//! exact rational arithmetic and a decimal renderer for the result title.
//!
//! Evaluation is expected to fail for most queries (ordinary text is not an
//! expression); failure is never an error, it only means no calculator entry
//! is synthesized. A computation whose exact value leaves the 64-bit range
//! also fails, as does division by zero.

use vstd::prelude::*;

verus! {

/// Mathematical model of a rational number: an exact, unbounded fraction
/// with a positive denominator.
pub ghost struct RatV {
    pub num: int,
    pub den: int,
}

impl RatV {
    /// Well-formed rationals keep the sign in the numerator.
    pub open spec fn wf(self) -> bool {
        self.den > 0
    }
}

/// Whether an exact rational can be carried by [`Rat`].
pub open spec fn rat_fits(r: RatV) -> bool {
    &&& i64::MIN <= r.num <= i64::MAX
    &&& i64::MIN <= r.den <= i64::MAX
}

/// The exact sum, if it fits.
pub open spec fn spec_add(a: RatV, b: RatV) -> Option<RatV> {
    let c = RatV { num: a.num * b.den + b.num * a.den, den: a.den * b.den };
    if rat_fits(c) {
        Some(c)
    } else {
        None
    }
}

/// The exact difference, if it fits.
pub open spec fn spec_sub(a: RatV, b: RatV) -> Option<RatV> {
    let c = RatV { num: a.num * b.den - b.num * a.den, den: a.den * b.den };
    if rat_fits(c) {
        Some(c)
    } else {
        None
    }
}

/// The exact product, if it fits.
pub open spec fn spec_mul(a: RatV, b: RatV) -> Option<RatV> {
    let c = RatV { num: a.num * b.num, den: a.den * b.den };
    if rat_fits(c) {
        Some(c)
    } else {
        None
    }
}

/// The exact quotient, if the divisor is nonzero and the result fits. The
/// denominator is kept positive by moving the divisor's sign into the
/// numerator.
pub open spec fn spec_div(a: RatV, b: RatV) -> Option<RatV> {
    if b.num == 0 {
        None
    } else {
        let c = if b.num > 0 {
            RatV { num: a.num * b.den, den: a.den * b.num }
        } else {
            RatV { num: -(a.num * b.den), den: -(a.den * b.num) }
        };
        if rat_fits(c) {
            Some(c)
        } else {
            None
        }
    }
}

/// The exact negation, if it fits.
pub open spec fn spec_neg(a: RatV) -> Option<RatV> {
    let c = RatV { num: -a.num, den: a.den };
    if rat_fits(c) {
        Some(c)
    } else {
        None
    }
}

/// An exact rational carried at run time: a 64-bit fraction with a positive
/// denominator.
#[derive(Clone, Copy, Debug)]
pub struct Rat {
    pub num: i64,
    pub den: i64,
}

impl View for Rat {
    type V = RatV;

    open spec fn view(&self) -> RatV {
        RatV { num: self.num as int, den: self.den as int }
    }
}

impl Rat {
    pub open spec fn wf(self) -> bool {
        self@.wf()
    }
}

/// Clamp-free conversion of an exact intermediate held in 128 bits back to
/// 64 bits: succeeds exactly when the value fits.
fn narrow(v: i128) -> (r: Option<i64>)
    ensures
        match r {
            Some(n) => n as int == v as int,
            None => !(i64::MIN <= v as int <= i64::MAX),
        },
{
    if v >= i64::MIN as i128 && v <= i64::MAX as i128 {
        Some(v as i64)
    } else {
        None
    }
}

/// Exact rational addition; fails exactly when the result leaves the 64-bit
/// range.
pub fn rat_add(a: Rat, b: Rat) -> (r: Option<Rat>)
    requires
        a.wf(),
        b.wf(),
    ensures
        match r {
            Some(c) => c.wf() && Some(c@) == spec_add(a@, b@),
            None => spec_add(a@, b@) is None,
        },
{
    proof {
        lemma_mul_by_pos_bound(a.num as int, b.den as int);
        lemma_mul_by_pos_bound(b.num as int, a.den as int);
        lemma_mul_by_pos_bound(a.den as int, b.den as int);
        lemma_pos_mul(a.den as int, b.den as int);
    }
    let num: i128 = (a.num as i128) * (b.den as i128) + (b.num as i128) * (a.den as i128);
    let den: i128 = (a.den as i128) * (b.den as i128);
    match (narrow(num), narrow(den)) {
        (Some(n), Some(d)) => Some(Rat { num: n, den: d }),
        _ => None,
    }
}

/// Exact rational subtraction; fails exactly when the result leaves the
/// 64-bit range.
pub fn rat_sub(a: Rat, b: Rat) -> (r: Option<Rat>)
    requires
        a.wf(),
        b.wf(),
    ensures
        match r {
            Some(c) => c.wf() && Some(c@) == spec_sub(a@, b@),
            None => spec_sub(a@, b@) is None,
        },
{
    proof {
        lemma_mul_by_pos_bound(a.num as int, b.den as int);
        lemma_mul_by_pos_bound(b.num as int, a.den as int);
        lemma_mul_by_pos_bound(a.den as int, b.den as int);
        lemma_pos_mul(a.den as int, b.den as int);
    }
    let num: i128 = (a.num as i128) * (b.den as i128) - (b.num as i128) * (a.den as i128);
    let den: i128 = (a.den as i128) * (b.den as i128);
    match (narrow(num), narrow(den)) {
        (Some(n), Some(d)) => Some(Rat { num: n, den: d }),
        _ => None,
    }
}

/// Exact rational multiplication; fails exactly when the result leaves the
/// 64-bit range.
pub fn rat_mul(a: Rat, b: Rat) -> (r: Option<Rat>)
    requires
        a.wf(),
        b.wf(),
    ensures
        match r {
            Some(c) => c.wf() && Some(c@) == spec_mul(a@, b@),
            None => spec_mul(a@, b@) is None,
        },
{
    proof {
        lemma_mul_full_bound(a.num as int, b.num as int);
        lemma_mul_by_pos_bound(a.den as int, b.den as int);
        lemma_pos_mul(a.den as int, b.den as int);
    }
    let num: i128 = (a.num as i128) * (b.num as i128);
    let den: i128 = (a.den as i128) * (b.den as i128);
    match (narrow(num), narrow(den)) {
        (Some(n), Some(d)) => Some(Rat { num: n, den: d }),
        _ => None,
    }
}

/// Exact rational division; fails exactly when the divisor is zero or the
/// result leaves the 64-bit range.
pub fn rat_div(a: Rat, b: Rat) -> (r: Option<Rat>)
    requires
        a.wf(),
        b.wf(),
    ensures
        match r {
            Some(c) => c.wf() && Some(c@) == spec_div(a@, b@),
            None => spec_div(a@, b@) is None,
        },
{
    if b.num == 0 {
        return None;
    }
    proof {
        lemma_mul_by_pos_bound(a.num as int, b.den as int);
        lemma_mul_full_bound(a.den as int, b.num as int);
        if b.num > 0 {
            lemma_pos_mul(a.den as int, b.num as int);
        } else {
            lemma_pos_mul(a.den as int, -(b.num as int));
            assert(a.den as int * (b.num as int) == -(a.den as int * -(b.num as int)))
                by (nonlinear_arith);
        }
    }
    let (num, den): (i128, i128) = if b.num > 0 {
        ((a.num as i128) * (b.den as i128), (a.den as i128) * (b.num as i128))
    } else {
        (-((a.num as i128) * (b.den as i128)), -((a.den as i128) * (b.num as i128)))
    };
    match (narrow(num), narrow(den)) {
        (Some(n), Some(d)) => Some(Rat { num: n, den: d }),
        _ => None,
    }
}

/// Exact rational negation; fails exactly when the result leaves the 64-bit
/// range (only for the smallest numerator).
pub fn rat_neg(a: Rat) -> (r: Option<Rat>)
    requires
        a.wf(),
    ensures
        match r {
            Some(c) => c.wf() && Some(c@) == spec_neg(a@),
            None => spec_neg(a@) is None,
        },
{
    match narrow(-(a.num as i128)) {
        Some(n) => Some(Rat { num: n, den: a.den }),
        None => None,
    }
}

proof fn lemma_pos_mul(a: int, b: int)
    requires
        a > 0,
        b > 0,
    ensures
        a * b > 0,
{
    broadcast use vstd::arithmetic::mul::lemma_mul_strictly_positive;

}

/// A 64-bit value times a positive 64-bit value stays well inside 128 bits;
/// two such products may still be added without overflow.
proof fn lemma_mul_by_pos_bound(x: int, y: int)
    by (nonlinear_arith)
    requires
        -0x8000000000000000 <= x <= 0x7fffffffffffffff,
        0 < y <= 0x7fffffffffffffff,
    ensures
        -0x3fffffffffffffff8000000000000000 <= x * y <= 0x3fffffffffffffff8000000000000000,
{
}

/// The product of two 64-bit values fits in 128 bits.
proof fn lemma_mul_full_bound(x: int, y: int)
    by (nonlinear_arith)
    requires
        -0x8000000000000000 <= x <= 0x7fffffffffffffff,
        -0x8000000000000000 <= y <= 0x7fffffffffffffff,
    ensures
        -0x40000000000000000000000000000000 <= x * y <= 0x40000000000000000000000000000000,
{
}

/// Space as the query text may carry it between tokens.
pub open spec fn spec_is_space(c: char) -> bool {
    c == ' ' || c == '\t' || c == '\n' || c == '\r'
}

pub fn is_space(c: char) -> (r: bool)
    ensures
        r == spec_is_space(c),
{
    c == ' ' || c == '\t' || c == '\n' || c == '\r'
}

/// A decimal digit.
pub open spec fn spec_is_digit(c: char) -> bool {
    48 <= c as int <= 57
}

pub fn is_digit(c: char) -> (r: bool)
    ensures
        r == spec_is_digit(c),
{
    let u = c as u32;
    48 <= u && u <= 57
}

/// The value of a decimal digit.
pub open spec fn digit_val(c: char) -> int {
    c as int - 48
}

/// An operator or parenthesis, as the incomplete-expression fallback of the
/// ranking engine recognizes a trailing one.
pub open spec fn spec_is_op(c: char) -> bool {
    c == '+' || c == '-' || c == '*' || c == '/' || c == '(' || c == ')'
}

pub fn is_op(c: char) -> (r: bool)
    ensures
        r == spec_is_op(c),
{
    c == '+' || c == '-' || c == '*' || c == '/' || c == '(' || c == ')'
}

/// The first position at or after `i` that does not hold a space.
pub open spec fn spec_skip_ws(s: Seq<char>, i: int) -> int
    decreases s.len() - i,
{
    if 0 <= i < s.len() && spec_is_space(s[i]) {
        spec_skip_ws(s, i + 1)
    } else {
        i
    }
}

fn skip_ws(s: &Vec<char>, i: usize) -> (r: usize)
    requires
        i <= s@.len(),
    ensures
        r as int == spec_skip_ws(s@, i as int),
        i <= r <= s@.len(),
    decreases s@.len() - i,
{
    if i < s.len() {
        if is_space(s[i]) {
            return skip_ws(s, i + 1);
        }
    }
    i
}

/// The end of the digit run that starts at `i`.
pub open spec fn spec_digit_end(s: Seq<char>, i: int) -> int
    decreases s.len() - i,
{
    if 0 <= i < s.len() && spec_is_digit(s[i]) {
        spec_digit_end(s, i + 1)
    } else {
        i
    }
}

proof fn lemma_digit_run(s: Seq<char>, i: int)
    requires
        0 <= i <= s.len(),
    ensures
        i <= spec_digit_end(s, i) <= s.len(),
        forall|k: int| i <= k < spec_digit_end(s, i) ==> spec_is_digit(s[k]),
    decreases s.len() - i,
{
    if i < s.len() && spec_is_digit(s[i]) {
        lemma_digit_run(s, i + 1);
    }
}

fn digit_end(s: &Vec<char>, i: usize) -> (r: usize)
    requires
        i <= s@.len(),
    ensures
        r as int == spec_digit_end(s@, i as int),
        i <= r <= s@.len(),
    decreases s@.len() - i,
{
    if i < s.len() {
        if is_digit(s[i]) {
            return digit_end(s, i + 1);
        }
    }
    i
}

/// The value of the decimal digits `s[i..j]`, read left to right.
pub open spec fn spec_digits_val(s: Seq<char>, i: int, j: int) -> int
    decreases j - i,
{
    if i < j {
        spec_digits_val(s, i, j - 1) * 10 + digit_val(s[j - 1])
    } else {
        0
    }
}

/// Appending digits never shrinks a non-negative digit value.
proof fn lemma_digits_val_grows(s: Seq<char>, i: int, j: int, end: int)
    requires
        i <= j <= end <= s.len(),
        forall|k: int| j <= k < end ==> spec_is_digit(s[k]),
        spec_digits_val(s, i, j) >= 0,
    ensures
        spec_digits_val(s, i, end) >= spec_digits_val(s, i, j),
    decreases end - j,
{
    if j < end {
        assert(spec_is_digit(s[j]));
        assert(spec_digits_val(s, i, j + 1) == spec_digits_val(s, i, j) * 10 + digit_val(s[j]));
        lemma_digits_val_grows(s, i, j + 1, end);
    }
}

/// A number literal: a non-empty digit run whose value fits in 64 bits.
pub open spec fn spec_parse_number(s: Seq<char>, i: int) -> Option<(RatV, int)> {
    let j = spec_digit_end(s, i);
    if j > i && spec_digits_val(s, i, j) <= i64::MAX {
        Some((RatV { num: spec_digits_val(s, i, j), den: 1 }, j))
    } else {
        None
    }
}

fn parse_number(s: &Vec<char>, i: usize) -> (r: Option<(Rat, usize)>)
    requires
        i <= s@.len(),
    ensures
        match r {
            Some(p) => {
                &&& p.0.wf()
                &&& i <= p.1 <= s@.len()
                &&& spec_parse_number(s@, i as int) == Some((p.0@, p.1 as int))
            },
            None => spec_parse_number(s@, i as int) is None,
        },
{
    proof {
        lemma_digit_run(s@, i as int);
    }
    let end = digit_end(s, i);
    if end == i {
        return None;
    }
    let mut j = i;
    let mut val: i64 = 0;
    while j < end
        invariant
            i <= j <= end <= s@.len(),
            end as int == spec_digit_end(s@, i as int),
            forall|k: int| i <= k < end ==> spec_is_digit(s@[k]),
            0 <= val,
            val as int == spec_digits_val(s@, i as int, j as int),
        decreases end - j,
    {
        let d: i64 = ((s[j] as u32) - 48) as i64;
        let scaled = match val.checked_mul(10) {
            Some(v) => v,
            None => {
                proof {
                    lemma_digits_val_grows(s@, i as int, j as int + 1, end as int);
                }
                return None;
            },
        };
        let next = match scaled.checked_add(d) {
            Some(v) => v,
            None => {
                proof {
                    lemma_digits_val_grows(s@, i as int, j as int + 1, end as int);
                }
                return None;
            },
        };
        val = next;
        j = j + 1;
    }
    Some((Rat { num: val, den: 1 }, end))
}

// The grammar, by recursive descent:
//   expr   := term (('+' | '-') term)*
//   term   := factor (('*' | '/') factor)*
//   factor := '-' factor | number | '(' expr ')'
// with spaces allowed between tokens. The `fuel` bounds the recursion; the
// evaluator hands in more than the input can consume, so fuel never decides
// acceptance for inputs the grammar describes.

/// A sum or difference chain starting at `i`.
pub open spec fn spec_parse_expr(s: Seq<char>, i: int, fuel: nat) -> Option<(RatV, int)>
    decreases fuel, 2int,
{
    if fuel == 0 {
        None
    } else {
        match spec_parse_term(s, i, (fuel - 1) as nat) {
            None => None,
            Some(p) => spec_parse_expr_rest(s, p.0, p.1, (fuel - 1) as nat),
        }
    }
}

/// The remaining `('+' | '-') term` steps of a sum, folded left into `acc`.
pub open spec fn spec_parse_expr_rest(s: Seq<char>, acc: RatV, i: int, fuel: nat) -> Option<
    (RatV, int),
>
    decreases fuel, 3int,
{
    if fuel == 0 {
        None
    } else {
        let j = spec_skip_ws(s, i);
        if j < s.len() && (s[j] == '+' || s[j] == '-') {
            match spec_parse_term(s, j + 1, (fuel - 1) as nat) {
                None => None,
                Some(p) => {
                    let acc2 = if s[j] == '+' {
                        spec_add(acc, p.0)
                    } else {
                        spec_sub(acc, p.0)
                    };
                    match acc2 {
                        None => None,
                        Some(a2) => spec_parse_expr_rest(s, a2, p.1, (fuel - 1) as nat),
                    }
                },
            }
        } else {
            Some((acc, j))
        }
    }
}

/// A product or quotient chain starting at `i`.
pub open spec fn spec_parse_term(s: Seq<char>, i: int, fuel: nat) -> Option<(RatV, int)>
    decreases fuel, 1int,
{
    if fuel == 0 {
        None
    } else {
        match spec_parse_factor(s, i, (fuel - 1) as nat) {
            None => None,
            Some(p) => spec_parse_term_rest(s, p.0, p.1, (fuel - 1) as nat),
        }
    }
}

/// The remaining `('*' | '/') factor` steps of a product, folded left into
/// `acc`.
pub open spec fn spec_parse_term_rest(s: Seq<char>, acc: RatV, i: int, fuel: nat) -> Option<
    (RatV, int),
>
    decreases fuel, 2int,
{
    if fuel == 0 {
        None
    } else {
        let j = spec_skip_ws(s, i);
        if j < s.len() && (s[j] == '*' || s[j] == '/') {
            match spec_parse_factor(s, j + 1, (fuel - 1) as nat) {
                None => None,
                Some(p) => {
                    let acc2 = if s[j] == '*' {
                        spec_mul(acc, p.0)
                    } else {
                        spec_div(acc, p.0)
                    };
                    match acc2 {
                        None => None,
                        Some(a2) => spec_parse_term_rest(s, a2, p.1, (fuel - 1) as nat),
                    }
                },
            }
        } else {
            Some((acc, j))
        }
    }
}

/// A negation, a number literal, or a parenthesized subexpression.
pub open spec fn spec_parse_factor(s: Seq<char>, i: int, fuel: nat) -> Option<(RatV, int)>
    decreases fuel, 0int,
{
    if fuel == 0 {
        None
    } else {
        let j = spec_skip_ws(s, i);
        if j < s.len() {
            if s[j] == '(' {
                match spec_parse_expr(s, j + 1, (fuel - 1) as nat) {
                    None => None,
                    Some(p) => {
                        let m = spec_skip_ws(s, p.1);
                        if m < s.len() && s[m] == ')' {
                            Some((p.0, m + 1))
                        } else {
                            None
                        }
                    },
                }
            } else if s[j] == '-' {
                match spec_parse_factor(s, j + 1, (fuel - 1) as nat) {
                    None => None,
                    Some(p) => match spec_neg(p.0) {
                        None => None,
                        Some(w) => Some((w, p.1)),
                    },
                }
            } else {
                spec_parse_number(s, j)
            }
        } else {
            None
        }
    }
}

fn parse_expr(s: &Vec<char>, i: usize, fuel: u128) -> (r: Option<(Rat, usize)>)
    requires
        i <= s@.len(),
    ensures
        match r {
            Some(p) => {
                &&& p.0.wf()
                &&& p.1 <= s@.len()
                &&& spec_parse_expr(s@, i as int, fuel as nat) == Some((p.0@, p.1 as int))
            },
            None => spec_parse_expr(s@, i as int, fuel as nat) is None,
        },
    decreases fuel, 2int,
{
    if fuel == 0 {
        return None;
    }
    match parse_term(s, i, fuel - 1) {
        None => None,
        Some((v, j)) => parse_expr_rest(s, v, j, fuel - 1),
    }
}

fn parse_expr_rest(s: &Vec<char>, acc: Rat, i: usize, fuel: u128) -> (r: Option<(Rat, usize)>)
    requires
        i <= s@.len(),
        acc.wf(),
    ensures
        match r {
            Some(p) => {
                &&& p.0.wf()
                &&& p.1 <= s@.len()
                &&& spec_parse_expr_rest(s@, acc@, i as int, fuel as nat) == Some(
                    (p.0@, p.1 as int),
                )
            },
            None => spec_parse_expr_rest(s@, acc@, i as int, fuel as nat) is None,
        },
    decreases fuel, 3int,
{
    if fuel == 0 {
        return None;
    }
    let j = skip_ws(s, i);
    if j < s.len() && (s[j] == '+' || s[j] == '-') {
        let plus = s[j] == '+';
        match parse_term(s, j + 1, fuel - 1) {
            None => None,
            Some((w, k)) => {
                let acc2 = if plus {
                    rat_add(acc, w)
                } else {
                    rat_sub(acc, w)
                };
                match acc2 {
                    None => None,
                    Some(a2) => parse_expr_rest(s, a2, k, fuel - 1),
                }
            },
        }
    } else {
        Some((acc, j))
    }
}

fn parse_term(s: &Vec<char>, i: usize, fuel: u128) -> (r: Option<(Rat, usize)>)
    requires
        i <= s@.len(),
    ensures
        match r {
            Some(p) => {
                &&& p.0.wf()
                &&& p.1 <= s@.len()
                &&& spec_parse_term(s@, i as int, fuel as nat) == Some((p.0@, p.1 as int))
            },
            None => spec_parse_term(s@, i as int, fuel as nat) is None,
        },
    decreases fuel, 1int,
{
    if fuel == 0 {
        return None;
    }
    match parse_factor(s, i, fuel - 1) {
        None => None,
        Some((v, j)) => parse_term_rest(s, v, j, fuel - 1),
    }
}

fn parse_term_rest(s: &Vec<char>, acc: Rat, i: usize, fuel: u128) -> (r: Option<(Rat, usize)>)
    requires
        i <= s@.len(),
        acc.wf(),
    ensures
        match r {
            Some(p) => {
                &&& p.0.wf()
                &&& p.1 <= s@.len()
                &&& spec_parse_term_rest(s@, acc@, i as int, fuel as nat) == Some(
                    (p.0@, p.1 as int),
                )
            },
            None => spec_parse_term_rest(s@, acc@, i as int, fuel as nat) is None,
        },
    decreases fuel, 2int,
{
    if fuel == 0 {
        return None;
    }
    let j = skip_ws(s, i);
    if j < s.len() && (s[j] == '*' || s[j] == '/') {
        let times = s[j] == '*';
        match parse_factor(s, j + 1, fuel - 1) {
            None => None,
            Some((w, k)) => {
                let acc2 = if times {
                    rat_mul(acc, w)
                } else {
                    rat_div(acc, w)
                };
                match acc2 {
                    None => None,
                    Some(a2) => parse_term_rest(s, a2, k, fuel - 1),
                }
            },
        }
    } else {
        Some((acc, j))
    }
}

fn parse_factor(s: &Vec<char>, i: usize, fuel: u128) -> (r: Option<(Rat, usize)>)
    requires
        i <= s@.len(),
    ensures
        match r {
            Some(p) => {
                &&& p.0.wf()
                &&& p.1 <= s@.len()
                &&& spec_parse_factor(s@, i as int, fuel as nat) == Some((p.0@, p.1 as int))
            },
            None => spec_parse_factor(s@, i as int, fuel as nat) is None,
        },
    decreases fuel, 0int,
{
    if fuel == 0 {
        return None;
    }
    let j = skip_ws(s, i);
    if j < s.len() {
        if s[j] == '(' {
            match parse_expr(s, j + 1, fuel - 1) {
                None => None,
                Some((v, k)) => {
                    let m = skip_ws(s, k);
                    if m < s.len() && s[m] == ')' {
                        Some((v, m + 1))
                    } else {
                        None
                    }
                },
            }
        } else if s[j] == '-' {
            match parse_factor(s, j + 1, fuel - 1) {
                None => None,
                Some((v, k)) => match rat_neg(v) {
                    None => None,
                    Some(w) => Some((w, k)),
                },
            }
        } else {
            parse_number(s, j)
        }
    } else {
        None
    }
}

/// The exact value of the query as an arithmetic expression, if the whole
/// query is one whose every intermediate result fits in 64 bits.
pub open spec fn spec_eval(s: Seq<char>) -> Option<RatV> {
    match spec_parse_expr(s, 0, 3 * s.len() + 9) {
        None => None,
        Some(p) => {
            if spec_skip_ws(s, p.1) == s.len() {
                Some(p.0)
            } else {
                None
            }
        },
    }
}

/// Evaluate the query characters as an arithmetic expression.
pub fn eval_chars(s: &Vec<char>) -> (r: Option<Rat>)
    ensures
        match r {
            Some(v) => v.wf() && spec_eval(s@) == Some(v@),
            None => spec_eval(s@) is None,
        },
{
    let fuel: u128 = 3 * (s.len() as u128) + 9;
    match parse_expr(s, 0, fuel) {
        None => None,
        Some((v, j)) => {
            let m = skip_ws(s, j);
            if m == s.len() {
                Some(v)
            } else {
                None
            }
        },
    }
}

/// The character of a decimal digit.
pub open spec fn spec_digit_char(d: int) -> char {
    if d == 0 {
        '0'
    } else if d == 1 {
        '1'
    } else if d == 2 {
        '2'
    } else if d == 3 {
        '3'
    } else if d == 4 {
        '4'
    } else if d == 5 {
        '5'
    } else if d == 6 {
        '6'
    } else if d == 7 {
        '7'
    } else if d == 8 {
        '8'
    } else {
        '9'
    }
}

fn digit_char(d: u64) -> (c: char)
    requires
        d < 10,
    ensures
        c == spec_digit_char(d as int),
{
    if d == 0 {
        '0'
    } else if d == 1 {
        '1'
    } else if d == 2 {
        '2'
    } else if d == 3 {
        '3'
    } else if d == 4 {
        '4'
    } else if d == 5 {
        '5'
    } else if d == 6 {
        '6'
    } else if d == 7 {
        '7'
    } else if d == 8 {
        '8'
    } else {
        '9'
    }
}

/// The decimal digits of a non-negative whole number, most significant
/// first.
pub open spec fn spec_digits(n: int) -> Seq<char>
    decreases n,
{
    if n < 10 {
        seq![spec_digit_char(n)]
    } else {
        spec_digits(n / 10).push(spec_digit_char(n % 10))
    }
}

fn digits(n: u64) -> (v: Vec<char>)
    ensures
        v@ == spec_digits(n as int),
    decreases n,
{
    if n < 10 {
        let mut v: Vec<char> = Vec::new();
        v.push(digit_char(n));
        proof {
            assert(v@ =~= spec_digits(n as int));
        }
        v
    } else {
        let mut v = digits(n / 10);
        v.push(digit_char(n % 10));
        v
    }
}

/// Up to `k` digits of the decimal expansion of `r / d`, stopping early when
/// the expansion terminates.
pub open spec fn spec_frac(r: int, d: int, k: nat) -> Seq<char>
    decreases k,
{
    if r <= 0 || k == 0 {
        Seq::empty()
    } else {
        seq![spec_digit_char((r * 10) / d)] + spec_frac((r * 10) % d, d, (k - 1) as nat)
    }
}

fn frac(r: u64, d: u64, k: u64) -> (v: Vec<char>)
    requires
        0 < d,
        r < d,
    ensures
        v@ == spec_frac(r as int, d as int, k as nat),
    decreases k,
{
    if r == 0 || k == 0 {
        let v: Vec<char> = Vec::new();
        proof {
            assert(v@ =~= spec_frac(r as int, d as int, k as nat));
        }
        v
    } else {
        let scaled: u128 = (r as u128) * 10;
        let digit: u64 = (scaled / (d as u128)) as u64;
        let rest: u64 = (scaled % (d as u128)) as u64;
        proof {
            lemma_frac_digit_bounds(r as int, d as int);
        }
        let mut v: Vec<char> = Vec::new();
        v.push(digit_char(digit));
        let mut tail = frac(rest, d, k - 1);
        v.append(&mut tail);
        proof {
            assert(v@ =~= spec_frac(r as int, d as int, k as nat));
        }
        v
    }
}

/// One step of decimal expansion: the produced digit is below ten and the
/// remainder stays below the denominator.
proof fn lemma_frac_digit_bounds(r: int, d: int)
    by (nonlinear_arith)
    requires
        0 < d,
        0 < r < d,
    ensures
        0 <= (r * 10) / d < 10,
        0 <= (r * 10) % d < d,
{
}

/// The rendered title of an exact rational: a possibly signed whole part,
/// then up to twelve digits of the fractional part when there is one.
pub open spec fn spec_render(v: RatV) -> Seq<char> {
    let m = if v.num < 0 {
        -v.num
    } else {
        v.num
    };
    let whole = spec_digits(m / v.den);
    let rem = m % v.den;
    let body = if rem == 0 {
        whole
    } else {
        whole + seq!['.'] + spec_frac(rem, v.den, 12)
    };
    if v.num < 0 {
        seq!['-'] + body
    } else {
        body
    }
}

fn render(v: Rat) -> (r: Vec<char>)
    requires
        v.wf(),
    ensures
        r@ == spec_render(v@),
{
    let neg = v.num < 0;
    let m: u64 = if v.num < 0 {
        (-(v.num as i128)) as u64
    } else {
        v.num as u64
    };
    let d: u64 = v.den as u64;
    let whole: u64 = m / d;
    let rem: u64 = m % d;
    let mut out: Vec<char> = Vec::new();
    if neg {
        out.push('-');
    }
    let mut body = digits(whole);
    out.append(&mut body);
    if rem != 0 {
        out.push('.');
        let mut tail = frac(rem, d, 12);
        out.append(&mut tail);
    }
    proof {
        assert(out@ =~= spec_render(v@));
    }
    out
}

/// Relies on `String`'s `FromIterator` over `char`: collecting characters
/// yields the string of exactly those characters, in order.
#[verifier::external_body]
pub(crate) fn string_from_chars(v: &Vec<char>) -> (r: String)
    ensures
        r@ == v@,
{
    v.iter().collect()
}

/// A query that holds only spaces never evaluates: no expression is found
/// in it.
pub proof fn lemma_all_space_eval_none(s: Seq<char>)
    requires
        spec_skip_ws(s, 0) == s.len(),
    ensures
        spec_eval(s) is None,
{
    let fuel = 3 * s.len() + 9;
    assert(spec_parse_factor(s, 0, (fuel - 2) as nat) is None);
    assert(spec_parse_term(s, 0, (fuel - 1) as nat) is None);
    assert(spec_parse_expr(s, 0, fuel) is None);
}

/// The rendered calculator title for the query, if it evaluates.
pub open spec fn spec_calc(s: Seq<char>) -> Option<Seq<char>> {
    match spec_eval(s) {
        None => None,
        Some(v) => Some(spec_render(v)),
    }
}

/// Evaluate the query as an arithmetic expression and render the result:
/// `None` exactly when the query is not a complete expression the grammar
/// and the 64-bit bounds admit.
pub fn calc_query(s: &Vec<char>) -> (r: Option<String>)
    ensures
        match r {
            Some(t) => spec_calc(s@) == Some(t@),
            None => spec_calc(s@) is None,
        },
{
    match eval_chars(s) {
        None => None,
        Some(v) => {
            let chars = render(v);
            Some(string_from_chars(&chars))
        },
    }
}

} // verus!
