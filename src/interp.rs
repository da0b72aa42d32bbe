//! Linear interpolation between two points, and piecewise-linear interpolation
//! over a table of breakpoints, both clamping outside their input range.
use vstd::prelude::*;
use vstd::arithmetic::div_mod::{lemma_div_is_ordered, lemma_div_pos_is_pos, lemma_fundamental_div_mod_converse};

verus! {

/// Number of fixed-point steps in one unit: values are millionths.
pub const SCALE: i64 = 1_000_000;

/// `v` limited to the closed range `[lo, hi]`.
pub open spec fn clamp(v: int, lo: int, hi: int) -> int {
    if v < lo {
        lo
    } else if v > hi {
        hi
    } else {
        v
    }
}

/// `n / d` rounded to the nearest integer, halves rounded up (for `n >= 0`, `d > 0`).
pub open spec fn div_round(n: int, d: int) -> int {
    (n + d / 2) / d
}

/// The value at `v` of the line through `(lo_i, lo_o)` and `(hi_i, hi_o)`, with `v`
/// first clamped into `[lo_i, hi_i]`. The offset from `lo_o` is rounded to the
/// nearest step, halves away from `lo_o`.
pub open spec fn lerp_spec(v: int, lo_i: int, hi_i: int, lo_o: int, hi_o: int) -> int {
    let t = clamp(v, lo_i, hi_i) - lo_i;
    let span = hi_i - lo_i;
    if lo_o <= hi_o {
        lo_o + div_round(t * (hi_o - lo_o), span)
    } else {
        lo_o - div_round(t * (lo_o - hi_o), span)
    }
}

/// For `0 <= t <= span`, the rounded share `t / span` of `d` lies in `[0, d]`,
/// and is `0` at `t == 0` and `d` at `t == span`.
pub proof fn lemma_share_bounds(t: int, d: int, span: int)
    requires
        0 <= t <= span,
        0 < span,
        0 <= d,
    ensures
        0 <= div_round(t * d, span) <= d,
        t == 0 ==> div_round(t * d, span) == 0,
        t == span ==> div_round(t * d, span) == d,
{
    assert(0 <= t * d) by (nonlinear_arith)
        requires
            0 <= t,
            0 <= d,
    ;
    assert(t * d <= span * d) by (nonlinear_arith)
        requires
            t <= span,
            0 <= d,
    ;
    lemma_div_is_ordered(t * d + span / 2, span * d + span / 2, span);
    assert(span * d == d * span) by (nonlinear_arith);
    lemma_fundamental_div_mod_converse(span * d + span / 2, span, d, span / 2);
    lemma_div_pos_is_pos(t * d + span / 2, span);
    if t == 0 {
        assert(t * d == 0);
        lemma_fundamental_div_mod_converse(span / 2, span, 0, span / 2);
    }
}

/// Maps `value`, clamped into `[min_input, max_input]`, linearly onto
/// `[min_output, max_output]`.
pub fn lerp(value: i64, min_input: i64, max_input: i64, min_output: i64, max_output: i64) -> (r: i64)
    requires
        min_input < max_input,
    ensures
        r == lerp_spec(value as int, min_input as int, max_input as int, min_output as int, max_output as int),
{
    let c: i64 = if value < min_input {
        min_input
    } else if value > max_input {
        max_input
    } else {
        value
    };
    let t: u128 = (c as i128 - min_input as i128) as u128;
    let span: u128 = (max_input as i128 - min_input as i128) as u128;
    let up: bool = min_output <= max_output;
    let d: u128 = if up {
        (max_output as i128 - min_output as i128) as u128
    } else {
        (min_output as i128 - max_output as i128) as u128
    };
    proof {
        lemma_share_bounds(t as int, d as int, span as int);
        assert(t * d <= 0xffff_ffff_ffff_ffffu128 * 0xffff_ffff_ffff_ffffu128) by (nonlinear_arith)
            requires
                t <= 0xffff_ffff_ffff_ffffu128,
                d <= 0xffff_ffff_ffff_ffffu128,
        ;
    }
    let q: u128 = (t * d + span / 2) / span;
    if up {
        (min_output as i128 + q as i128) as i64
    } else {
        (min_output as i128 - q as i128) as i64
    }
}

/// At the ends of its input range the interpolation returns the end outputs exactly.
pub proof fn lemma_lerp_endpoints(lo_i: int, hi_i: int, lo_o: int, hi_o: int)
    requires
        lo_i < hi_i,
    ensures
        lerp_spec(lo_i, lo_i, hi_i, lo_o, hi_o) == lo_o,
        lerp_spec(hi_i, lo_i, hi_i, lo_o, hi_o) == hi_o,
{
    let d = if lo_o <= hi_o { hi_o - lo_o } else { lo_o - hi_o };
    lemma_share_bounds(0, d, hi_i - lo_i);
    lemma_share_bounds(hi_i - lo_i, d, hi_i - lo_i);
}

/// Outside its input range the interpolation holds the nearer end output.
pub proof fn lemma_lerp_clamps(v: int, lo_i: int, hi_i: int, lo_o: int, hi_o: int)
    requires
        lo_i < hi_i,
    ensures
        v < lo_i ==> lerp_spec(v, lo_i, hi_i, lo_o, hi_o) == lo_o,
        v > hi_i ==> lerp_spec(v, lo_i, hi_i, lo_o, hi_o) == hi_o,
{
    lemma_lerp_endpoints(lo_i, hi_i, lo_o, hi_o);
}

/// The interpolation moves in one direction as `v` grows: up when
/// `lo_o <= hi_o`, down when `lo_o >= hi_o`.
pub proof fn lemma_lerp_monotonic(v1: int, v2: int, lo_i: int, hi_i: int, lo_o: int, hi_o: int)
    requires
        lo_i < hi_i,
        v1 <= v2,
    ensures
        lo_o <= hi_o ==> lerp_spec(v1, lo_i, hi_i, lo_o, hi_o) <= lerp_spec(v2, lo_i, hi_i, lo_o, hi_o),
        lo_o >= hi_o ==> lerp_spec(v1, lo_i, hi_i, lo_o, hi_o) >= lerp_spec(v2, lo_i, hi_i, lo_o, hi_o),
{
    let t1 = clamp(v1, lo_i, hi_i) - lo_i;
    let t2 = clamp(v2, lo_i, hi_i) - lo_i;
    let span = hi_i - lo_i;
    let d = if lo_o <= hi_o { hi_o - lo_o } else { lo_o - hi_o };
    assert(t1 * d <= t2 * d) by (nonlinear_arith)
        requires
            t1 <= t2,
            0 <= d,
    ;
    lemma_div_is_ordered(t1 * d + span / 2, t2 * d + span / 2, span);
    if lo_o == hi_o {
        lemma_lerp_between_outputs(v1, lo_i, hi_i, lo_o, hi_o);
        lemma_lerp_between_outputs(v2, lo_i, hi_i, lo_o, hi_o);
    }
}

/// The interpolation never leaves the range spanned by its two outputs.
pub proof fn lemma_lerp_between_outputs(v: int, lo_i: int, hi_i: int, lo_o: int, hi_o: int)
    requires
        lo_i < hi_i,
    ensures
        lo_o <= hi_o ==> lo_o <= lerp_spec(v, lo_i, hi_i, lo_o, hi_o) <= hi_o,
        lo_o >= hi_o ==> hi_o <= lerp_spec(v, lo_i, hi_i, lo_o, hi_o) <= lo_o,
{
    let t = clamp(v, lo_i, hi_i) - lo_i;
    let d = if lo_o <= hi_o { hi_o - lo_o } else { lo_o - hi_o };
    lemma_share_bounds(t, d, hi_i - lo_i);
}

/// Breakpoints strictly increase from first to last.
pub open spec fn strictly_increasing(s: Seq<i64>) -> bool {
    forall|i: int, j: int| 0 <= i < j < s.len() ==> s[i] < s[j]
}

/// A breakpoint table: at least one breakpoint, strictly increasing inputs, and
/// one output for each input.
pub open spec fn valid_table(inputs: Seq<i64>, outputs: Seq<i64>) -> bool {
    &&& inputs.len() >= 1
    &&& inputs.len() == outputs.len()
    &&& strictly_increasing(inputs)
}

/// The piecewise-linear function through the points `(inputs[i], outputs[i])`,
/// held flat at `outputs[0]` below the first input and at the last output from
/// the last input on.
pub open spec fn table_value(v: int, inputs: Seq<i64>, outputs: Seq<i64>) -> int {
    let n = inputs.len() as int;
    if v < inputs[0] {
        outputs[0] as int
    } else if v >= inputs[n - 1] {
        outputs[n - 1] as int
    } else {
        let i = choose|i: int| #![trigger inputs[i]] 0 <= i < n - 1 && inputs[i] <= v < inputs[i + 1];
        lerp_spec(v, inputs[i] as int, inputs[i + 1] as int, outputs[i] as int, outputs[i + 1] as int)
    }
}

/// On any segment `[inputs[i], inputs[i + 1]]` that holds `v`, the table's value
/// is the interpolation over that segment.
pub proof fn lemma_table_value_on_segment(v: int, inputs: Seq<i64>, outputs: Seq<i64>, i: int)
    requires
        valid_table(inputs, outputs),
        0 <= i < inputs.len() - 1,
        inputs[i] <= v <= inputs[i + 1],
    ensures
        table_value(v, inputs, outputs) == lerp_spec(
            v,
            inputs[i] as int,
            inputs[i + 1] as int,
            outputs[i] as int,
            outputs[i + 1] as int,
        ),
{
    let n = inputs.len() as int;
    lemma_lerp_endpoints(inputs[i] as int, inputs[i + 1] as int, outputs[i] as int, outputs[i + 1] as int);
    assert(inputs[0] <= inputs[i]);
    assert(inputs[i + 1] <= inputs[n - 1]);
    if v >= inputs[n - 1] {
        assert(i + 1 == n - 1) by {
            if i + 1 < n - 1 {
                assert(inputs[i + 1] < inputs[n - 1]);
            }
        };
    } else {
        // the segment of `table_value` starts at `i`, or at `i + 1` when `v` is its end
        let k = if v < inputs[i + 1] { i } else { i + 1 };
        if k == i + 1 {
            assert(i + 1 < n - 1);
        }
        assert(inputs[k] <= v < inputs[k + 1]);
        let j = choose|j: int| #![trigger inputs[j]] 0 <= j < n - 1 && inputs[j] <= v < inputs[j + 1];
        assert(j == k) by {
            if j < k {
                assert(inputs[j + 1] <= inputs[k]);
            } else if j > k {
                assert(inputs[k + 1] <= inputs[j]);
            }
        };
        if k == i + 1 {
            lemma_lerp_endpoints(
                inputs[k] as int,
                inputs[k + 1] as int,
                outputs[k] as int,
                outputs[k + 1] as int,
            );
        }
    }
}

/// Some segment of a table holds each value from its first input up to, but
/// not including, its last input.
pub proof fn lemma_find_segment(v: int, inputs: Seq<i64>, k: int) -> (i: int)
    requires
        strictly_increasing(inputs),
        0 <= k < inputs.len() - 1,
        inputs[k] <= v < inputs[inputs.len() - 1],
    ensures
        k <= i < inputs.len() - 1,
        inputs[i] <= v < inputs[i + 1],
    decreases inputs.len() - k,
{
    if v < inputs[k + 1] {
        k
    } else {
        lemma_find_segment(v, inputs, k + 1)
    }
}

/// Fed one of its breakpoints, a table returns that breakpoint's output exactly.
pub proof fn lemma_table_exact(inputs: Seq<i64>, outputs: Seq<i64>, i: int)
    requires
        valid_table(inputs, outputs),
        0 <= i < inputs.len(),
    ensures
        table_value(inputs[i] as int, inputs, outputs) == outputs[i],
{
    if i < inputs.len() - 1 {
        lemma_table_value_on_segment(inputs[i] as int, inputs, outputs, i);
        lemma_lerp_endpoints(inputs[i] as int, inputs[i + 1] as int, outputs[i] as int, outputs[i + 1] as int);
    } else {
        assert(inputs[0] <= inputs[i]);
    }
}

/// Below its first input a table returns its first output; above its last input,
/// its last output.
pub proof fn lemma_table_clamps(v: int, inputs: Seq<i64>, outputs: Seq<i64>)
    requires
        valid_table(inputs, outputs),
    ensures
        v < inputs[0] ==> table_value(v, inputs, outputs) == outputs[0],
        v > inputs[inputs.len() - 1] ==> table_value(v, inputs, outputs) == outputs[outputs.len() - 1],
{
}

/// A table whose outputs all lie in `[lo, hi]` takes its values in `[lo, hi]`.
pub proof fn lemma_table_value_between(v: int, inputs: Seq<i64>, outputs: Seq<i64>, lo: int, hi: int)
    requires
        valid_table(inputs, outputs),
        forall|k: int| 0 <= k < outputs.len() ==> lo <= #[trigger] outputs[k] <= hi,
    ensures
        lo <= table_value(v, inputs, outputs) <= hi,
{
    let n = inputs.len() as int;
    if inputs[0] <= v < inputs[n - 1] {
        let i = lemma_find_segment(v, inputs, 0);
        lemma_table_value_on_segment(v, inputs, outputs, i);
        lemma_lerp_between_outputs(v, inputs[i] as int, inputs[i + 1] as int, outputs[i] as int, outputs[i + 1] as int);
    }
}

/// Piecewise-linear interpolation of `value` over the table `(inputs, outputs)`:
/// the first segment `[inputs[i], inputs[i + 1]]` that holds `value` interpolates
/// it, and values outside the table take the nearer end output.
pub fn lerp_array(value: i64, inputs: &[i64], outputs: &[i64]) -> (r: i64)
    requires
        valid_table(inputs@, outputs@),
    ensures
        r == table_value(value as int, inputs@, outputs@),
{
    let n: usize = inputs.len();
    let mut idx: usize = 0;
    while idx + 1 < n
        invariant
            valid_table(inputs@, outputs@),
            n == inputs@.len(),
            0 <= idx < n,
            idx > 0 ==> value > inputs@[idx as int],
        decreases n - idx,
    {
        let cur: i64 = inputs[idx];
        let next: i64 = inputs[idx + 1];
        if value < cur {
            return outputs[idx];
        } else if value <= next {
            proof {
                lemma_table_value_on_segment(value as int, inputs@, outputs@, idx as int);
            }
            return lerp(value, cur, next, outputs[idx], outputs[idx + 1]);
        }
        idx = idx + 1;
    }
    outputs[n - 1]
}

} // verus!
