use vstd::prelude::*;

use crate::parser::{expr_view, Expr, ExprV};
use crate::strs::{chars_of, decimal_chars, decimal_text, push_chars};
use crate::tracing::float_text;

verus! {

/// Ten to the power `k`.
pub open spec fn pow10(k: nat) -> int
    decreases k,
{
    if k == 0 {
        1
    } else {
        10 * pow10((k - 1) as nat)
    }
}

/// The value of the digits of `t[0..i]`, any point skipped.
pub open spec fn lit_digits(t: Seq<char>, i: int) -> int
    decreases i,
{
    if i <= 0 {
        0
    } else if t[i - 1] == '.' {
        lit_digits(t, i - 1)
    } else {
        lit_digits(t, i - 1) * 10 + (t[i - 1] as int - 48)
    }
}

/// How many characters of `t[0..i]` follow its last point, if it has one.
pub open spec fn after_point(t: Seq<char>, i: int) -> Option<nat>
    decreases i,
{
    if i <= 0 {
        None
    } else if t[i - 1] == '.' {
        Some(0)
    } else {
        match after_point(t, i - 1) {
            Some(k) => Some(k + 1),
            None => None,
        }
    }
}

/// The decimal places of a number literal.
pub open spec fn places(t: Seq<char>) -> nat {
    match after_point(t, t.len() as int) {
        Some(k) => k,
        None => 0,
    }
}

/// Whether a literal text is one the tracer evaluates: at most ten characters, each a
/// digit or a point.
pub open spec fn lit_ok(t: Seq<char>) -> bool {
    &&& t.len() <= 10
    &&& forall|j: int| 0 <= j < t.len() ==> ('0' <= #[trigger] t[j] <= '9' || t[j] == '.')
}

/// The value of a literal text times ten to the tenth.
pub open spec fn scaled_text(t: Seq<char>) -> int {
    lit_digits(t, t.len() as int) * pow10((10 - places(t)) as nat)
}

/// The value of a number literal, possibly negated, times ten to the tenth.
pub open spec fn lit_value(e: ExprV) -> Option<int>
    decreases e,
{
    match e {
        ExprV::Num(t) => if lit_ok(t) {
            Some(scaled_text(t))
        } else {
            None
        },
        ExprV::Neg(inner) => match lit_value(*inner) {
            Some(v) => Some(-v),
            None => None,
        },
        _ => None,
    }
}

/// The text of a number literal, possibly negated, as a floating-point constant.
pub open spec fn lit_text(e: ExprV) -> Seq<char>
    decreases e,
{
    match e {
        ExprV::Num(t) => float_text(t),
        ExprV::Neg(inner) => seq!['-'] + lit_text(*inner),
        _ => seq![],
    }
}

/// The value of a literal that names a count: a whole, non-negative number that fits a
/// `usize`.
pub open spec fn count_value(e: ExprV) -> Option<nat> {
    match lit_value(e) {
        Some(v) => if v >= 0 && v % pow10(10) == 0 && v / pow10(10) <= usize::MAX {
            Some((v / pow10(10)) as nat)
        } else {
            None
        },
        None => None,
    }
}

/// How many elements a range from `start` by `step` has before it reaches `stop`: the
/// ceiling of `(stop - start) / step` where that is positive, and 0 otherwise.
pub open spec fn range_count(start: int, stop: int, step: int) -> nat {
    let num = stop - start;
    if num == 0 || step == 0 || (num > 0) != (step > 0) {
        0
    } else {
        let a = if num > 0 { num } else { -num };
        let b = if step > 0 { step } else { -step };
        ((a + b - 1) / b) as nat
    }
}

/// The floating-point text of a count.
pub open spec fn count_text(n: nat) -> Seq<char> {
    decimal_chars(n) + seq!['.', '0']
}

proof fn lemma_pow10_pos(k: nat)
    ensures
        pow10(k) >= 1,
    decreases k,
{
    if k > 0 {
        lemma_pow10_pos((k - 1) as nat);
    }
}

proof fn lemma_pow10_mono(j: nat, k: nat)
    requires
        j <= k,
    ensures
        pow10(j) <= pow10(k),
    decreases k,
{
    lemma_pow10_pos(k);
    if j < k {
        lemma_pow10_mono(j, (k - 1) as nat);
    }
}

/// The value of a literal text times ten to the tenth, where the tracer
/// evaluates it.
pub fn scaled_text_of(t: &str) -> (r: Option<i128>)
    ensures
        match r {
            Some(v) => lit_ok(t@) && v == scaled_text(t@),
            None => !lit_ok(t@),
        },
{
    let cs = chars_of(t);
    let n = cs.len();
    if n > 10 {
        return None;
    }
    let mut val: i128 = 0;
    let mut after: Option<usize> = None;
    let mut i: usize = 0;
    proof {
        reveal_with_fuel(pow10, 2);
    }
    while i < n
        invariant
            n == cs@.len(),
            cs@ == t@,
            n <= 10,
            i <= n,
            val == lit_digits(cs@, i as int),
            0 <= val < pow10(i as nat),
            match after {
                Some(k) => after_point(cs@, i as int) == Some(k as nat) && k <= i,
                None => after_point(cs@, i as int) is None,
            },
            forall|j: int| 0 <= j < i ==> ('0' <= #[trigger] cs@[j] <= '9' || cs@[j] == '.'),
        decreases n - i,
    {
        let c = cs[i];
        if c == '.' {
            after = Some(0);
            proof {
                lemma_pow10_mono(i as nat, (i + 1) as nat);
            }
        } else if '0' <= c && c <= '9' {
            let d = (c as u32 - 48) as i128;
            proof {
                let p = pow10(i as nat);
                assert(pow10((i + 1) as nat) == 10 * p);
                assert(val * 10 + d < 10 * p) by (nonlinear_arith)
                    requires
                        0 <= val < p,
                        0 <= d <= 9,
                ;
                assert(pow10(i as nat) <= pow10(10)) by {
                    lemma_pow10_mono(i as nat, 10);
                }
                assert(pow10(10) == 10000000000) by {
                    reveal_with_fuel(pow10, 11);
                }
            }
            val = val * 10 + d;
            after = match after {
                Some(k) => Some(k + 1),
                None => None,
            };
        } else {
            assert(!('0' <= t@[i as int] <= '9' || t@[i as int] == '.'));
            return None;
        }
        i = i + 1;
    }
    let k: usize = match after {
        Some(k) => k,
        None => 0,
    };
    assert(k as nat == places(cs@));
    let mut p: i128 = 1;
    let mut m: usize = 0;
    proof {
        assert(pow10(n as nat) <= pow10(10)) by {
            lemma_pow10_mono(n as nat, 10);
        }
        assert(pow10(10) == 10000000000) by {
            reveal_with_fuel(pow10, 11);
        }
    }
    while m < 10 - k
        invariant
            k <= 10,
            m <= 10 - k,
            p == pow10(m as nat),
            pow10(m as nat) <= pow10(10),
            pow10(10) == 10000000000,
        decreases 10 - k - m,
    {
        proof {
            lemma_pow10_mono((m + 1) as nat, 10);
            assert(pow10((m + 1) as nat) == 10 * pow10(m as nat));
            lemma_pow10_pos(m as nat);
        }
        p = p * 10;
        m = m + 1;
    }
    proof {
        lemma_pow10_mono(m as nat, 10);
        lemma_pow10_pos(m as nat);
        assert(val * p <= 10000000000 * 10000000000) by (nonlinear_arith)
            requires
                0 <= val <= 10000000000,
                0 <= p <= 10000000000,
        ;
    }
    Some(val * p)
}

/// The value of a number literal, possibly negated, times ten to the tenth.
pub fn literal_value(e: &Expr) -> (r: Option<i128>)
    ensures
        r matches Some(v) ==> lit_value(expr_view(*e)) == Some(v as int),
        r is None ==> lit_value(expr_view(*e)) is None,
        r matches Some(v) ==> -100000000000000000000 <= v <= 100000000000000000000,
    decreases e,
{
    match e {
        Expr::Num(t) => {
            let r = scaled_text_of(t.as_str());
            proof {
                if let Some(v) = r {
                    lemma_scaled_bound(t@);
                }
            }
            r
        },
        Expr::Neg(inner) => match literal_value(inner) {
            Some(v) => Some(-v),
            None => None,
        },
        _ => None,
    }
}

proof fn lemma_scaled_bound(t: Seq<char>)
    requires
        lit_ok(t),
    ensures
        0 <= scaled_text(t) <= 100000000000000000000,
{
    lemma_digits_bound(t, t.len() as int);
    lemma_places_bound(t, t.len() as int);
    let k = (10 - places(t)) as nat;
    lemma_pow10_mono(t.len() as nat, 10);
    lemma_pow10_mono(k, 10);
    lemma_pow10_pos(k);
    assert(pow10(10) == 10000000000) by {
        reveal_with_fuel(pow10, 11);
    }
    let d = lit_digits(t, t.len() as int);
    let p = pow10(k);
    assert(d * p <= 10000000000 * 10000000000) by (nonlinear_arith)
        requires
            0 <= d <= 10000000000,
            0 <= p <= 10000000000,
    ;
    assert(0 <= d * p) by (nonlinear_arith)
        requires
            0 <= d,
            0 <= p,
    ;
}

proof fn lemma_digits_bound(t: Seq<char>, i: int)
    requires
        0 <= i <= t.len(),
        forall|j: int| 0 <= j < t.len() ==> ('0' <= #[trigger] t[j] <= '9' || t[j] == '.'),
    ensures
        0 <= lit_digits(t, i) < pow10(i as nat),
    decreases i,
{
    if i > 0 {
        lemma_digits_bound(t, i - 1);
        lemma_pow10_mono((i - 1) as nat, i as nat);
        let v = lit_digits(t, i - 1);
        let p = pow10((i - 1) as nat);
        assert(pow10(i as nat) == 10 * p);
        if t[i - 1] != '.' {
            let d = t[i - 1] as int - 48;
            assert(v * 10 + d < 10 * p) by (nonlinear_arith)
                requires
                    0 <= v < p,
                    0 <= d <= 9,
            ;
        }
    }
}

proof fn lemma_places_bound(t: Seq<char>, i: int)
    requires
        0 <= i <= t.len(),
    ensures
        after_point(t, i) matches Some(k) ==> k <= i,
    decreases i,
{
    if i > 0 {
        lemma_places_bound(t, i - 1);
    }
}

/// The text of a number literal, possibly negated, as a floating-point constant.
pub fn literal_text(e: &Expr) -> (r: Vec<char>)
    ensures
        r@ == lit_text(expr_view(*e)),
    decreases e,
{
    match e {
        Expr::Num(t) => {
            let s = crate::tracing::float_text_of(t.as_str());
            chars_of(s.as_str())
        },
        Expr::Neg(inner) => {
            let mut out: Vec<char> = Vec::new();
            out.push('-');
            let rest = literal_text(inner);
            push_chars(&mut out, rest.as_slice());
            assert(out@ =~= seq!['-'] + rest@);
            out
        },
        _ => Vec::new(),
    }
}

/// The value of a literal that names a count.
pub fn count_literal(e: &Expr) -> (r: Option<usize>)
    ensures
        match r {
            Some(n) => count_value(expr_view(*e)) == Some(n as nat),
            None => count_value(expr_view(*e)) is None,
        },
{
    assert(pow10(10) == 10000000000) by {
        reveal_with_fuel(pow10, 11);
    }
    match literal_value(e) {
        None => None,
        Some(v) => {
            if v < 0 {
                return None;
            }
            let u = v as u128;
            if u % 10000000000 != 0 {
                return None;
            }
            let q = u / 10000000000;
            if q > usize::MAX as u128 {
                return None;
            }
            Some(q as usize)
        },
    }
}

/// How many elements a range has, from scaled values.
pub fn range_count_of(start: i128, stop: i128, step: i128) -> (r: u128)
    requires
        -100000000000000000000 <= start <= 100000000000000000000,
        -100000000000000000000 <= stop <= 100000000000000000000,
        -100000000000000000000 <= step <= 100000000000000000000,
    ensures
        r as nat == range_count(start as int, stop as int, step as int),
{
    let num = stop - start;
    if num == 0 || step == 0 || (num > 0) != (step > 0) {
        return 0;
    }
    let a: u128 = if num > 0 { num as u128 } else { (-num) as u128 };
    let b: u128 = if step > 0 { step as u128 } else { (-step) as u128 };
    (a + b - 1) / b
}

/// The floating-point text of a count.
pub fn count_text_of(n: usize) -> (r: Vec<char>)
    ensures
        r@ == count_text(n as nat),
{
    let mut out = decimal_text(n);
    out.push('.');
    out.push('0');
    proof {
        assert(out@ =~= decimal_chars(n as nat) + seq!['.', '0']);
    }
    out
}

} // verus!
