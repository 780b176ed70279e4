//! Transfer functions of the behavior and aggregation kinds.
use vstd::prelude::*;
use vstd::arithmetic::div_mod::{lemma_div_is_ordered, lemma_div_multiples_vanish};
use crate::config::{Coord, CustomTempKind};
use crate::node::Value;

verus! {

/// The percent at `x` on the ramp from `(ta, pa)` to `(tb, pb)`: `pa` at or
/// below `ta`, `pb` at or above `tb`, the straight line in between (rounded
/// toward `pa`); `pb` when the two temperatures are equal.
pub open spec fn interpolate(ta: int, pa: int, tb: int, pb: int, x: int) -> int {
    if ta == tb {
        pb
    } else if x <= ta {
        pa
    } else if x >= tb {
        pb
    } else if pb >= pa {
        pa + (x - ta) * (pb - pa) / (tb - ta)
    } else {
        pa - (x - ta) * (pa - pb) / (tb - ta)
    }
}

/// The ramp between two coordinates.
pub open spec fn ramp(lo: Coord, hi: Coord, x: int) -> int {
    interpolate(lo.temp as int, lo.percent as int, hi.temp as int, hi.percent as int, x)
}

/// The piecewise-linear curve through `c[from..]` at `x`.
pub open spec fn curve_from(c: Seq<Coord>, from: int, x: int) -> int
    decreases c.len() - from,
{
    if from < 0 || from >= c.len() {
        0
    } else if from == c.len() - 1 || x <= c[from].temp {
        c[from].percent as int
    } else if x < c[from + 1].temp {
        ramp(c[from], c[from + 1], x)
    } else {
        curve_from(c, from + 1, x)
    }
}

/// The curve through all of `c` at `x`.
pub open spec fn curve(c: Seq<Coord>, x: int) -> int {
    curve_from(c, 0, x)
}

proof fn lemma_scaled_le(a: int, d: int, b: int)
    requires
        0 <= a < b,
        0 <= d,
    ensures
        0 <= a * d / b <= d,
{
    assert(a * d <= b * d) by (nonlinear_arith)
        requires
            0 <= a < b,
            0 <= d,
    ;
    assert(0 <= a * d) by (nonlinear_arith)
        requires
            0 <= a,
            0 <= d,
    ;
    lemma_div_is_ordered(a * d, b * d, b);
    lemma_div_is_ordered(0, a * d, b);
    lemma_div_multiples_vanish(d, b);
    assert(b * d == d * b) by (nonlinear_arith);
}

/// The ramp stays between its two percents.
pub proof fn lemma_ramp_bounds(lo: Coord, hi: Coord, x: int)
    ensures
        0 <= ramp(lo, hi, x) <= 255,
        ramp(lo, hi, x) >= lo.percent || ramp(lo, hi, x) >= hi.percent,
        ramp(lo, hi, x) <= lo.percent || ramp(lo, hi, x) <= hi.percent,
{
    let (ta, pa, tb, pb) = (lo.temp as int, lo.percent as int, hi.temp as int, hi.percent as int);
    if ta != tb && ta < x < tb {
        if pb >= pa {
            lemma_scaled_le(x - ta, pb - pa, tb - ta);
        } else {
            lemma_scaled_le(x - ta, pa - pb, tb - ta);
        }
    }
}

/// The ramp between `lo` and `hi` at `x`.
pub fn ramp_value(lo: Coord, hi: Coord, x: Value) -> (r: Value)
    ensures
        r == ramp(lo, hi, x as int),
{
    proof {
        lemma_ramp_bounds(lo, hi, x as int);
    }
    if lo.temp == hi.temp {
        hi.percent as Value
    } else if x <= lo.temp as Value {
        lo.percent as Value
    } else if x >= hi.temp as Value {
        hi.percent as Value
    } else {
        let dx = (x - lo.temp as Value) as u32;
        let dt = (hi.temp - lo.temp) as u32;
        if hi.percent >= lo.percent {
            let dp = (hi.percent - lo.percent) as u32;
            assert(dx * dp <= 255 * 255) by (nonlinear_arith)
                requires
                    dx <= 255,
                    dp <= 255,
            ;
            lo.percent as Value + (dx * dp / dt) as Value
        } else {
            let dp = (lo.percent - hi.percent) as u32;
            assert(dx * dp <= 255 * 255) by (nonlinear_arith)
                requires
                    dx <= 255,
                    dp <= 255,
            ;
            lo.percent as Value - (dx * dp / dt) as Value
        }
    }
}

/// The curve through `coords` at `x`; `None` when there is no coordinate.
pub fn curve_value(coords: &Vec<Coord>, x: Value) -> (r: Option<Value>)
    ensures
        coords@.len() == 0 ==> r is None,
        coords@.len() > 0 ==> r == Some(curve(coords@, x as int) as Value),
{
    let n = coords.len();
    if n == 0 {
        return None;
    }
    let mut i: usize = 0;
    while i + 1 < n
        invariant
            n == coords@.len(),
            i < n,
            curve(coords@, x as int) == curve_from(coords@, i as int, x as int),
        decreases n - i,
    {
        if x <= coords[i].temp as Value {
            return Some(coords[i].percent as Value);
        }
        if x < coords[i + 1].temp as Value {
            return Some(ramp_value(coords[i], coords[i + 1], x));
        }
        i = i + 1;
    }
    Some(coords[i].percent as Value)
}

/// Whether the temperatures of `c` strictly increase.
pub open spec fn sorted_by_temp(c: Seq<Coord>) -> bool {
    forall|i: int, j: int| 0 <= i < j < c.len() ==> c[i].temp < c[j].temp
}

/// A ramp clamps to the lower percent at or below the lower temperature and
/// to the upper percent at or above the upper one, so it returns each
/// coordinate's percent exactly at its temperature; with equal temperatures
/// it returns the upper percent.
pub proof fn lemma_ramp_clamps(lo: Coord, hi: Coord, x: int)
    ensures
        lo.temp == hi.temp ==> ramp(lo, hi, x) == hi.percent,
        lo.temp < hi.temp && x <= lo.temp ==> ramp(lo, hi, x) == lo.percent,
        lo.temp < hi.temp && x >= hi.temp ==> ramp(lo, hi, x) == hi.percent,
{
}

proof fn lemma_curve_at(c: Seq<Coord>, from: int, k: int)
    requires
        sorted_by_temp(c),
        0 <= from <= k < c.len(),
    ensures
        curve_from(c, from, c[k].temp as int) == c[k].percent,
    decreases c.len() - from,
{
    let x = c[k].temp as int;
    if from == c.len() - 1 || x <= c[from].temp {
        assert(k == from);
    } else if x < c[from + 1].temp {
        assert(k > from);
        assert(false);
    } else {
        lemma_curve_at(c, from + 1, k);
    }
}

proof fn lemma_curve_above(c: Seq<Coord>, from: int, x: int)
    requires
        sorted_by_temp(c),
        0 <= from < c.len(),
        x >= c.last().temp,
    ensures
        curve_from(c, from, x) == c.last().percent,
    decreases c.len() - from,
{
    if from < c.len() - 1 {
        assert(c[from].temp < c[c.len() - 1].temp);
        assert(c[from + 1].temp <= c[c.len() - 1].temp);
        lemma_curve_above(c, from + 1, x);
    }
}

/// A curve over coordinates sorted by temperature clamps to the first
/// percent at or below the first temperature and to the last percent at or
/// above the last one, and returns each coordinate's percent exactly at its
/// temperature.
pub proof fn lemma_curve_clamps(c: Seq<Coord>, x: int)
    requires
        sorted_by_temp(c),
        c.len() > 0,
    ensures
        x <= c[0].temp ==> curve(c, x) == c[0].percent,
        x >= c.last().temp ==> curve(c, x) == c.last().percent,
        forall|k: int| 0 <= k < c.len() ==> curve(c, #[trigger] c[k].temp as int) == c[k].percent,
{
    if x >= c.last().temp {
        lemma_curve_above(c, 0, x);
    }
    assert forall|k: int| 0 <= k < c.len() implies curve(c, #[trigger] c[k].temp as int)
        == c[k].percent by {
        lemma_curve_at(c, 0, k);
    }
}

/// The smallest value of a non-empty sequence.
pub open spec fn seq_min(s: Seq<Value>) -> Value
    decreases s.len(),
{
    if s.len() <= 1 {
        s[0]
    } else if s.last() < seq_min(s.drop_last()) {
        s.last()
    } else {
        seq_min(s.drop_last())
    }
}

/// The largest value of a non-empty sequence.
pub open spec fn seq_max(s: Seq<Value>) -> Value
    decreases s.len(),
{
    if s.len() <= 1 {
        s[0]
    } else if s.last() > seq_max(s.drop_last()) {
        s.last()
    } else {
        seq_max(s.drop_last())
    }
}

/// The sum of a sequence.
pub open spec fn seq_sum(s: Seq<Value>) -> int
    decreases s.len(),
{
    if s.len() == 0 {
        0
    } else {
        seq_sum(s.drop_last()) + s.last()
    }
}

/// The mean of a non-empty sequence, truncated toward zero.
pub open spec fn seq_mean(s: Seq<Value>) -> int {
    let t = seq_sum(s);
    if t >= 0 {
        t / (s.len() as int)
    } else {
        -((-t) / (s.len() as int))
    }
}

/// The aggregate of a non-empty sequence of temperatures.
pub open spec fn aggregate(kind: CustomTempKind, s: Seq<Value>) -> int {
    match kind {
        CustomTempKind::Min => seq_min(s) as int,
        CustomTempKind::Max => seq_max(s) as int,
        CustomTempKind::Average => seq_mean(s),
    }
}

proof fn lemma_sum_bounds(s: Seq<Value>)
    ensures
        s.len() * (i32::MIN as int) <= seq_sum(s) <= s.len() * (i32::MAX as int),
    decreases s.len(),
{
    if s.len() > 0 {
        lemma_sum_bounds(s.drop_last());
        assert((s.len() - 1) * (i32::MIN as int) + i32::MIN == s.len() * (i32::MIN as int))
            by (nonlinear_arith);
        assert((s.len() - 1) * (i32::MAX as int) + i32::MAX == s.len() * (i32::MAX as int))
            by (nonlinear_arith);
    }
}

proof fn lemma_mean_bounds(s: Seq<Value>)
    requires
        s.len() > 0,
    ensures
        i32::MIN <= seq_mean(s) <= i32::MAX,
{
    let n = s.len() as int;
    let t = seq_sum(s);
    lemma_sum_bounds(s);
    lemma_div_multiples_vanish(i32::MAX as int, n);
    lemma_div_multiples_vanish(-(i32::MIN as int), n);
    assert(n * (i32::MAX as int) == n * (i32::MAX as int));
    if t >= 0 {
        lemma_div_is_ordered(t, n * (i32::MAX as int), n);
        lemma_div_is_ordered(0, t, n);
    } else {
        assert(-t <= n * (-(i32::MIN as int))) by (nonlinear_arith)
            requires
                n * (i32::MIN as int) <= t,
        ;
        lemma_div_is_ordered(-t, n * (-(i32::MIN as int)), n);
        lemma_div_is_ordered(0, -t, n);
    }
}

/// Aggregates a non-empty list of temperatures.
pub fn aggregate_values(kind: CustomTempKind, values: &Vec<Value>) -> (r: Value)
    requires
        values@.len() > 0,
    ensures
        r as int == aggregate(kind, values@),
{
    let n = values.len();
    let mut lo: Value = values[0];
    let mut hi: Value = values[0];
    let mut sum: i128 = values[0] as i128;
    let mut i: usize = 1;
    assert(values@.subrange(0, 1).drop_last() =~= Seq::<Value>::empty());
    assert(seq_sum(Seq::<Value>::empty()) == 0);
    assert(seq_sum(values@.subrange(0, 1)) == values@[0]);
    while i < n
        invariant
            n == values@.len(),
            1 <= i <= n,
            lo == seq_min(values@.subrange(0, i as int)),
            hi == seq_max(values@.subrange(0, i as int)),
            sum == seq_sum(values@.subrange(0, i as int)),
            i * (i32::MIN as int) <= sum <= i * (i32::MAX as int),
        decreases n - i,
    {
        let v = values[i];
        assert(values@.subrange(0, i + 1).drop_last() =~= values@.subrange(0, i as int));
        if v < lo {
            lo = v;
        }
        if v > hi {
            hi = v;
        }
        assert((i + 1) * (i32::MIN as int) == i * (i32::MIN as int) + i32::MIN) by (nonlinear_arith);
        assert((i + 1) * (i32::MAX as int) == i * (i32::MAX as int) + i32::MAX) by (nonlinear_arith);
        assert(i * (i32::MAX as int) <= u64::MAX * (i32::MAX as int)) by (nonlinear_arith)
            requires
                i <= u64::MAX,
        ;
        assert(i * (i32::MIN as int) >= u64::MAX * (i32::MIN as int)) by (nonlinear_arith)
            requires
                i <= u64::MAX,
        ;
        sum = sum + v as i128;
        i = i + 1;
    }
    assert(values@.subrange(0, n as int) =~= values@);
    match kind {
        CustomTempKind::Min => lo,
        CustomTempKind::Max => hi,
        CustomTempKind::Average => {
            proof {
                lemma_mean_bounds(values@);
            }
            if sum >= 0 {
                (sum / (n as i128)) as Value
            } else {
                (-((-sum) / (n as i128))) as Value
            }
        },
    }
}

} // verus!
