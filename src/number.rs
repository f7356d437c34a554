use vstd::prelude::*;
use vstd::arithmetic::div_mod::*;
use vstd::arithmetic::mul::*;

use crate::duration::saturate;

verus! {

/// A character that may stand in the numeric run of a token.
pub open spec fn is_num_char(c: char) -> bool {
    ('0' <= c && c <= '9') || c == '.'
}

pub open spec fn digit_value(c: char) -> nat {
    (c as u32 - '0' as u32) as nat
}

pub open spec fn pow10(k: nat) -> nat
    decreases k,
{
    if k == 0 { 1 } else { 10 * pow10((k - 1) as nat) }
}

/// How many decimal points the run `t` holds.
pub open spec fn dot_count(t: Seq<char>) -> nat
    decreases t.len(),
{
    if t.len() == 0 {
        0
    } else {
        dot_count(t.drop_last()) + if t.last() == '.' { 1nat } else { 0nat }
    }
}

/// A run of digits and points reads as a decimal number: at most one point
/// and at least one digit (`7`, `7.`, `.5`, `7.25`).
pub open spec fn is_number(t: Seq<char>) -> bool {
    dot_count(t) <= 1 && dot_count(t) < t.len()
}

/// The digits of `t`, points left out, read as one integer.
pub open spec fn mantissa(t: Seq<char>) -> nat
    decreases t.len(),
{
    if t.len() == 0 {
        0
    } else if t.last() == '.' {
        mantissa(t.drop_last())
    } else {
        mantissa(t.drop_last()) * 10 + digit_value(t.last())
    }
}

/// How many digits of `t` stand after its point.
pub open spec fn frac_len(t: Seq<char>) -> nat
    decreases t.len(),
{
    if t.len() == 0 {
        0
    } else if t.last() != '.' && dot_count(t.drop_last()) > 0 {
        frac_len(t.drop_last()) + 1
    } else {
        frac_len(t.drop_last())
    }
}

/// The number written by `t` (`mantissa / 10^frac_len`) times `factor`,
/// truncated to an integer.
pub open spec fn scaled(t: Seq<char>, factor: nat) -> nat {
    (factor * mantissa(t)) / pow10(frac_len(t))
}

/// The decimal number written by the run `num` times `factor`, truncated to
/// whole units and capped at `u64::MAX`; `None` when the run is no number.
pub fn scaled_seconds(num: &Vec<char>, factor: u64) -> (r: Option<u64>)
    requires
        1 <= factor <= 86400,
        forall|j: int| 0 <= j < num@.len() ==> is_num_char(#[trigger] num@[j]),
    ensures
        r is Some <==> is_number(num@),
        r matches Some(x) ==> x == saturate(scaled(num@, factor as nat)),
{
    let ghost t = num@;
    let n = num.len();
    let mut dots: usize = 0;
    let mut point: usize = n;
    let mut i: usize = 0;
    while i < n
        invariant
            i <= n,
            n == t.len(),
            num@ == t,
            dots <= i,
            dots == dot_count(t.take(i as int)),
            dots == 0 ==> point == n,
            dots > 0 ==> point < i && t[point as int] == '.' && dot_count(t.take(point as int))
                == 0,
            dots == 1 ==> forall|j: int| point < j < i ==> t[j] != '.',
            forall|j: int| 0 <= j < i && j < point ==> t[j] != '.',
        decreases n - i,
    {
        assert(t.take(i + 1).drop_last() =~= t.take(i as int));
        if num[i] == '.' {
            if dots == 0 {
                point = i;
            }
            dots = dots + 1;
        }
        i = i + 1;
    }
    assert(t.take(n as int) =~= t);
    if dots > 1 || dots == n {
        return None;
    }
    // The digits before the point, scaled by `factor`.

    let mut whole: u64 = 0;
    let mut big: bool = false;
    let mut k: usize = 0;
    assert(mantissa(t.take(0)) == 0);
    proof {
        lemma_mul_basics(factor as int);
    }
    while k < point
        invariant
            k <= point <= n,
            n == t.len(),
            num@ == t,
            1 <= factor <= 86400,
            forall|j: int| 0 <= j < n ==> is_num_char(#[trigger] t[j]),
            forall|j: int| 0 <= j < point ==> t[j] != '.',
            big ==> factor * mantissa(t.take(k as int)) > u64::MAX,
            !big ==> whole == factor * mantissa(t.take(k as int)),
        decreases point - k,
    {
        let c = num[k];
        assert(is_num_char(t[k as int]));
        let d: u64 = (c as u32 - '0' as u32) as u64;
        let ghost m = mantissa(t.take(k as int));
        assert(t.take(k + 1).drop_last() =~= t.take(k as int));
        assert(mantissa(t.take(k + 1)) == m * 10 + d);
        assert(factor * (m * 10 + d) == (factor * m) * 10 + factor * d) by (nonlinear_arith);
        assert(factor * d <= factor * 9) by (nonlinear_arith)
            requires
                d <= 9,
        ;
        if !big {
            if whole > (u64::MAX - factor * d) / 10 {
                big = true;
            } else {
                whole = whole * 10 + factor * d;
            }
        }
        k = k + 1;
    }
    if dots == 0 {
        proof {
            lemma_no_dot_no_frac(t);
            lemma_div_basics((factor * mantissa(t)) as int);
        }
        return Some(if big { u64::MAX } else { whole });
    }
    // The digits after the point, read from the right: `q` is the scaled
    // value of the digits from `k` on, truncated.

    let mut q: u64 = 0;
    let mut k: usize = n;
    proof {
        lemma_pow10_pos(0);
    }
    while k > point + 1
        invariant
            point + 1 <= k <= n,
            n == t.len(),
            num@ == t,
            1 <= factor <= 86400,
            forall|j: int| 0 <= j < n ==> is_num_char(#[trigger] t[j]),
            forall|j: int| point < j < n ==> t[j] != '.',
            q < factor,
            q == (factor * mantissa(t.subrange(k as int, n as int))) as int / pow10((n - k) as nat) as int,
        decreases k,
    {
        k = k - 1;
        let c = num[k];
        assert(is_num_char(t[k as int]));
        let d: u64 = (c as u32 - '0' as u32) as u64;
        let ghost rest = t.subrange(k + 1, n as int);
        assert(t.subrange(k as int, n as int) =~= seq![t[k as int]] + rest);
        proof {
            lemma_mantissa_cons(t[k as int], rest);
            lemma_frac_step(factor as nat, d as nat, mantissa(rest), rest.len());
        }
        assert(factor * d <= factor * 9) by (nonlinear_arith)
            requires
                d <= 9,
        ;
        q = (factor * d + q) / 10;
    }
    proof {
        lemma_split_at_point(t, point as int, n as int);
        lemma_whole_part(
            factor as nat,
            mantissa(t.take(point as int)),
            mantissa(t.subrange(point + 1, n as int)),
            (n - point - 1) as nat,
        );
    }
    Some(if big { u64::MAX } else { whole.saturating_add(q) })
}

proof fn lemma_pow10_pos(k: nat)
    ensures
        pow10(k) >= 1,
    decreases k,
{
    if k > 0 {
        lemma_pow10_pos((k - 1) as nat);
    }
}

proof fn lemma_no_dot_no_frac(t: Seq<char>)
    requires
        dot_count(t) == 0,
    ensures
        frac_len(t) == 0,
    decreases t.len(),
{
    if t.len() > 0 {
        lemma_no_dot_no_frac(t.drop_last());
    }
}

/// With its single point at `p`, `t` reads as the digits before the point
/// followed by those after it.
proof fn lemma_split_at_point(t: Seq<char>, p: int, i: int)
    requires
        0 <= p < i <= t.len(),
        t[p] == '.',
        dot_count(t.take(p)) == 0,
        forall|j: int| p < j < t.len() ==> t[j] != '.',
    ensures
        mantissa(t.take(i)) == mantissa(t.take(p)) * pow10((i - p - 1) as nat) + mantissa(
            t.subrange(p + 1, i),
        ),
        frac_len(t.take(i)) == i - p - 1,
        dot_count(t.take(i)) == 1,
    decreases i,
{
    let u = t.subrange(p + 1, i);
    if i == p + 1 {
        assert(t.take(i).drop_last() =~= t.take(p));
        assert(t.take(i).last() == '.');
        lemma_no_dot_no_frac(t.take(p));
        assert(u.len() == 0);
        assert(pow10(0) == 1);
        assert(mantissa(t.take(i)) == mantissa(t.take(p)));
        assert(mantissa(u) == 0);
        lemma_mul_basics(mantissa(t.take(p)) as int);
    } else {
        lemma_split_at_point(t, p, i - 1);
        assert(t.take(i).drop_last() =~= t.take(i - 1));
        assert(u.drop_last() =~= t.subrange(p + 1, i - 1));
        assert(t.take(i).last() == t[i - 1] && u.last() == t[i - 1] && t[i - 1] != '.');
        assert(mantissa(t.take(i)) == mantissa(t.take(i - 1)) * 10 + digit_value(t[i - 1]));
        assert(mantissa(u) == mantissa(u.drop_last()) * 10 + digit_value(t[i - 1]));
        let a = mantissa(t.take(p));
        let k = (i - p - 2) as nat;
        let b = mantissa(t.subrange(p + 1, i - 1));
        let d = digit_value(t[i - 1]);
        assert(pow10((k + 1) as nat) == 10 * pow10(k));
        assert((a * pow10(k) + b) * 10 + d == a * (10 * pow10(k)) + (b * 10 + d))
            by (nonlinear_arith);
    }
}

/// Putting a digit in front of an all-digit run.
proof fn lemma_mantissa_cons(d: char, u: Seq<char>)
    requires
        d != '.',
        forall|j: int| 0 <= j < u.len() ==> u[j] != '.',
    ensures
        mantissa(seq![d] + u) == digit_value(d) * pow10(u.len()) + mantissa(u),
    decreases u.len(),
{
    let w = seq![d] + u;
    if u.len() == 0 {
        assert(w.drop_last() =~= Seq::<char>::empty());
        assert(w.last() == d);
        assert(mantissa(w.drop_last()) == 0);
        assert(mantissa(w) == digit_value(d));
        assert(pow10(0) == 1);
    } else {
        assert(w.drop_last() =~= seq![d] + u.drop_last());
        assert(w.last() == u.last());
        assert(u.last() != '.');
        assert(forall|j: int| 0 <= j < u.drop_last().len() ==> u.drop_last()[j] == u[j]);
        assert(mantissa(w) == mantissa(w.drop_last()) * 10 + digit_value(u.last()));
        assert(mantissa(u) == mantissa(u.drop_last()) * 10 + digit_value(u.last()));
        lemma_mantissa_cons(d, u.drop_last());
        let x = digit_value(d);
        let k = (u.len() - 1) as nat;
        let m = mantissa(u.drop_last());
        assert(pow10(u.len()) == 10 * pow10(k));
        assert((x * pow10(k) + m) * 10 + digit_value(u.last()) == x * (10 * pow10(k)) + (m * 10
            + digit_value(u.last()))) by (nonlinear_arith);
    }
}

/// One step of the right-to-left reading of a fraction:
/// `⌊f·(d·10^m + v) / 10^(m+1)⌋ == ⌊(f·d + ⌊f·v / 10^m⌋) / 10⌋`.
proof fn lemma_frac_step(f: nat, d: nat, v: nat, m: nat)
    ensures
        (f * (d * pow10(m) + v)) / pow10(m + 1) == (f * d + (f * v) / pow10(m)) / 10,
{
    lemma_pow10_pos(m);
    let p = pow10(m) as int;
    assert(pow10(m + 1) == 10 * pow10(m));
    assert(f * (d * p + v) == (f * d) * p + f * v) by (nonlinear_arith);
    lemma_div_denominator((f * (d * p + v)) as int, p, 10);
    assert(p * 10 == 10 * p);
    lemma_div_add_multiple((f * d) as int, (f * v) as int, p);
}

/// The integer part of a number contributes whole multiples of `f`.
proof fn lemma_whole_part(f: nat, a: nat, b: nat, k: nat)
    ensures
        (f * (a * pow10(k) + b)) / pow10(k) == f * a + (f * b) / pow10(k),
{
    lemma_pow10_pos(k);
    let p = pow10(k) as int;
    assert(f * (a * p + b) == (f * a) * p + f * b) by (nonlinear_arith);
    lemma_div_add_multiple((f * a) as int, (f * b) as int, p);
}

/// `⌊(a·d + b) / d⌋ == a + ⌊b / d⌋`.
proof fn lemma_div_add_multiple(a: int, b: int, d: int)
    requires
        0 <= a,
        0 <= b,
        0 < d,
    ensures
        (a * d + b) / d == a + b / d,
{
    lemma_fundamental_div_mod(b, d);
    lemma_mod_pos_bound(b, d);
    let q = b / d;
    let r = b % d;
    assert(a * d + b == (a + q) * d + r) by (nonlinear_arith)
        requires
            b == d * q + r,
    ;
    lemma_fundamental_div_mod_converse_div(a * d + b, d, a + q, r);
}

} // verus!
