//! Axis-aligned boxes: the static overlap test, the swept time-of-impact
//! test and linear interpolation, all on fixed-point integers.
use vstd::prelude::*;

verus! {

/// Lengths are fixed-point: one world unit is `SCALE` steps.
pub const SCALE: i64 = 1000;

/// Bound on every coordinate and displacement component handed to the
/// geometry functions (2^40 steps).
pub const GEO_LIMIT: i64 = 1_099_511_627_776;

/// A point or an extent in the plane, in steps.
#[derive(Clone, Copy, Debug, PartialEq, Eq, Structural)]
pub struct Vec2 {
    pub x: i64,
    pub y: i64,
}

impl Vec2 {
    pub fn new(x: i64, y: i64) -> (r: Vec2)
        ensures
            r.x == x,
            r.y == y,
    {
        Vec2 { x, y }
    }
}

/// The fraction `num / den` of a frame's travel; `den` is positive.
#[derive(Clone, Copy, Debug, PartialEq, Eq, Structural)]
pub struct Frac {
    pub num: i64,
    pub den: i64,
}

/// A moment on the time line of one frame, with the two infinities that an
/// axis without motion contributes.
#[derive(Clone, Copy, Debug, PartialEq, Eq, Structural)]
pub enum Time {
    NegInf,
    At(Frac),
    PosInf,
}

pub open spec fn within(c: i64) -> bool {
    -GEO_LIMIT <= c <= GEO_LIMIT
}

pub open spec fn vec_within(v: Vec2) -> bool {
    within(v.x) && within(v.y)
}

/// Strict overlap of two boxes on both axes: touching edges do not count.
pub open spec fn overlaps(a_min: Vec2, a_max: Vec2, b_min: Vec2, b_max: Vec2) -> bool {
    a_min.x < b_max.x && a_max.x > b_min.x && a_min.y < b_max.y && a_max.y > b_min.y
}

pub open spec fn time_gt(a: Time, b: Time) -> bool {
    match (a, b) {
        (Time::NegInf, _) => false,
        (_, Time::PosInf) => false,
        (Time::PosInf, _) => true,
        (_, Time::NegInf) => true,
        (Time::At(p), Time::At(q)) => q.num * p.den < p.num * q.den,
    }
}

pub open spec fn frac(num: int, den: int) -> Time {
    Time::At(Frac { num: num as i64, den: den as i64 })
}

pub open spec fn zero_time() -> Time {
    Time::At(Frac { num: 0, den: 1 })
}

/// Entry and exit time along one axis for an interval `[a_lo, a_hi]` moving
/// by `v` towards `[b_lo, b_hi]`; `None` when the axis does not move and the
/// intervals are apart, so that no contact can happen.
pub open spec fn axis_window(a_lo: i64, a_hi: i64, b_lo: i64, b_hi: i64, v: i64) -> Option<(Time, Time)> {
    if v == 0 {
        if a_lo < b_hi && b_lo < a_hi {
            Some((Time::NegInf, Time::PosInf))
        } else {
            None
        }
    } else if v > 0 {
        Some((frac(b_lo - a_hi, v as int), frac(b_hi - a_lo, v as int)))
    } else {
        Some((frac(a_lo - b_hi, -v), frac(a_hi - b_lo, -v)))
    }
}

/// The swept test: `(0, 0)` when the box misses, else the axis of first
/// contact (1: a side, 2: top or bottom) with the entry time along it, the
/// later of the two axes' entry times.
pub open spec fn sweep(a_min: Vec2, a_max: Vec2, b_min: Vec2, b_max: Vec2, v: Vec2) -> (usize, Time) {
    match (
        axis_window(a_min.x, a_max.x, b_min.x, b_max.x, v.x),
        axis_window(a_min.y, a_max.y, b_min.y, b_max.y, v.y),
    ) {
        (Some((entry_x, exit_x)), Some((entry_y, exit_y))) => {
            if time_gt(entry_x, exit_y) || time_gt(entry_y, exit_x) {
                (0, zero_time())
            } else if time_gt(entry_x, entry_y) {
                (1, entry_x)
            } else {
                (2, entry_y)
            }
        },
        _ => (0, zero_time()),
    }
}

/// The corner `p` moved by `v`.
pub open spec fn shifted(p: Vec2, v: Vec2) -> Vec2 {
    Vec2 { x: (p.x + v.x) as i64, y: (p.y + v.y) as i64 }
}

/// A finite moment has a positive denominator and a numerator within twice
/// the coordinate bound.
pub open spec fn time_bounded(t: Time) -> bool {
    t matches Time::At(f) ==> f.den > 0 && -2 * GEO_LIMIT <= f.num <= 2 * GEO_LIMIT
}

pub open spec fn time_nonneg(t: Time) -> bool {
    match t {
        Time::NegInf => false,
        Time::At(f) => f.num >= 0,
        Time::PosInf => true,
    }
}

pub open spec fn lerp_spec(a: int, b: int, t: int) -> int {
    a + (b - a) * t / (SCALE as int)
}

/// Floor division by a positive divisor.
pub fn div_floor(n: i128, d: i128) -> (r: i128)
    requires
        d > 0,
        n > i128::MIN,
    ensures
        r as int == n as int / d as int,
{
    if n >= 0 {
        let q = (n as u128 / d as u128) as i128;
        q
    } else {
        let m: u128 = (-n - 1) as u128;
        let q: u128 = m / (d as u128);
        proof {
            let ni = n as int;
            let di = d as int;
            let mi = m as int;
            let qi = q as int;
            vstd::arithmetic::div_mod::lemma_fundamental_div_mod(mi, di);
            let ri = mi % di;
            assert(ni == di * (-qi - 1) + (di - 1 - ri)) by (nonlinear_arith)
                requires
                    mi == -ni - 1,
                    mi == di * qi + ri,
            ;
            vstd::arithmetic::div_mod::lemma_fundamental_div_mod_converse(ni, di, -qi - 1, di - 1 - ri);
            vstd::arithmetic::div_mod::lemma_div_is_ordered(0, mi, di);
            vstd::arithmetic::div_mod::lemma_div_is_ordered(mi, i128::MAX as int, di);
        }
        -(q as i128) - 1
    }
}

/// Linear interpolation from `a` to `b` at `t` thousandths, rounded down
/// to a step.
pub fn lerp(a: i64, b: i64, t: i64) -> (r: i64)
    requires
        within(a),
        within(b),
        -0x4000_0000_0000_0000 <= (b - a) * t <= 0x4000_0000_0000_0000,
    ensures
        r as int == lerp_spec(a as int, b as int, t as int),
{
    let diff: i64 = b - a;
    let scaled = div_floor((diff * t) as i128, SCALE as i128);
    proof {
        vstd::arithmetic::div_mod::lemma_div_is_ordered((diff * t) as int, 0x4000_0000_0000_0000, 1000);
        vstd::arithmetic::div_mod::lemma_div_is_ordered(-0x4000_0000_0000_0000, (diff * t) as int, 1000);
    }
    a + scaled as i64
}

pub proof fn lemma_mul_bound(a: int, b: int, ma: int, mb: int)
    requires
        -ma <= a <= ma,
        -mb <= b <= mb,
    ensures
        -(ma * mb) <= a * b <= ma * mb,
{
    assert(-(ma * mb) <= a * b <= ma * mb) by (nonlinear_arith)
        requires
            -ma <= a <= ma,
            -mb <= b <= mb,
    ;
}

pub proof fn lemma_div_bound(n: int, d: int, m: int)
    requires
        d >= 1,
        -m <= n <= m,
    ensures
        -m <= n / d <= m,
{
    vstd::arithmetic::div_mod::lemma_fundamental_div_mod(n, d);
    let q = n / d;
    let r = n % d;
    assert(-m <= q <= m) by (nonlinear_arith)
        requires
            d >= 1,
            -m <= n <= m,
            n == d * q + r,
            0 <= r < d,
    ;
}

/// Static overlap test of two boxes given by their corners.
pub fn aabb(a_min: Vec2, a_max: Vec2, b_min: Vec2, b_max: Vec2) -> (r: bool)
    ensures
        r == overlaps(a_min, a_max, b_min, b_max),
{
    a_min.x < b_max.x && a_max.x > b_min.x && a_min.y < b_max.y && a_max.y > b_min.y
}

/// Compares two moments of a frame.
pub fn later(a: Time, b: Time) -> (r: bool)
    ensures
        r == time_gt(a, b),
{
    match (a, b) {
        (Time::NegInf, _) => false,
        (_, Time::PosInf) => false,
        (Time::PosInf, _) => true,
        (_, Time::NegInf) => true,
        (Time::At(p), Time::At(q)) => {
            proof {
                lemma_mul_bound(q.num as int, p.den as int, 0x8000_0000_0000_0000, 0x8000_0000_0000_0000);
                lemma_mul_bound(p.num as int, q.den as int, 0x8000_0000_0000_0000, 0x8000_0000_0000_0000);
            }
            (q.num as i128) * (p.den as i128) < (p.num as i128) * (q.den as i128)
        },
    }
}

fn axis_times(a_lo: i64, a_hi: i64, b_lo: i64, b_hi: i64, v: i64) -> (r: Option<(Time, Time)>)
    requires
        within(a_lo),
        within(a_hi),
        within(b_lo),
        within(b_hi),
        within(v),
    ensures
        r == axis_window(a_lo, a_hi, b_lo, b_hi, v),
{
    if v == 0 {
        if a_lo < b_hi && b_lo < a_hi {
            Some((Time::NegInf, Time::PosInf))
        } else {
            None
        }
    } else if v > 0 {
        Some((Time::At(Frac { num: b_lo - a_hi, den: v }), Time::At(Frac { num: b_hi - a_lo, den: v })))
    } else {
        Some((Time::At(Frac { num: a_lo - b_hi, den: -v }), Time::At(Frac { num: a_hi - b_lo, den: -v })))
    }
}

/// Swept test of the box `[a_min, a_max]` moving by `v` against the box
/// `[b_min, b_max]`: the axis of first contact and the entry time along it.
/// An axis without motion is divided by nothing: it leaves the time open
/// when the boxes already overlap on it and rules out contact otherwise, so
/// a box that does not move at all, inside the target, gets `NegInf`.
pub fn swept_aabb(a_min: Vec2, a_max: Vec2, b_min: Vec2, b_max: Vec2, v: Vec2) -> (r: (usize, Time))
    requires
        vec_within(a_min),
        vec_within(a_max),
        vec_within(b_min),
        vec_within(b_max),
        vec_within(v),
    ensures
        r == sweep(a_min, a_max, b_min, b_max, v),
        time_bounded(r.1),
{
    let wx = axis_times(a_min.x, a_max.x, b_min.x, b_max.x, v.x);
    let (entry_x, exit_x) = match wx {
        Some(w) => w,
        None => { return (0, Time::At(Frac { num: 0, den: 1 })); },
    };
    let wy = axis_times(a_min.y, a_max.y, b_min.y, b_max.y, v.y);
    let (entry_y, exit_y) = match wy {
        Some(w) => w,
        None => { return (0, Time::At(Frac { num: 0, den: 1 })); },
    };
    if later(entry_x, exit_y) || later(entry_y, exit_x) {
        return (0, Time::At(Frac { num: 0, den: 1 }));
    }
    if later(entry_x, entry_y) {
        (1, entry_x)
    } else {
        (2, entry_y)
    }
}

/// Overlap does not depend on which box is named first.
pub proof fn lemma_overlaps_symmetric(a_min: Vec2, a_max: Vec2, b_min: Vec2, b_max: Vec2)
    ensures
        overlaps(a_min, a_max, b_min, b_max) == overlaps(b_min, b_max, a_min, a_max),
{
}

/// The geometry queries are functions of their arguments: two calls on the
/// same boxes and displacement give the same answers.
pub proof fn lemma_queries_repeatable(
    a_min: Vec2,
    a_max: Vec2,
    b_min: Vec2,
    b_max: Vec2,
    v: Vec2,
    first: (bool, (usize, Time)),
    second: (bool, (usize, Time)),
)
    requires
        first.0 == overlaps(a_min, a_max, b_min, b_max),
        second.0 == overlaps(a_min, a_max, b_min, b_max),
        first.1 == sweep(a_min, a_max, b_min, b_max, v),
        second.1 == sweep(a_min, a_max, b_min, b_max, v),
    ensures
        first == second,
{
}

proof fn lemma_entry_not_after_exit(en: int, ed: int, xn: int, xd: int)
    requires
        ed > 0,
        xd > 0,
        en < ed,
        xn > xd,
    ensures
        !(xn * ed < en * xd),
{
    assert(!(xn * ed < en * xd)) by (nonlinear_arith)
        requires
            ed > 0,
            xd > 0,
            en < ed,
            xn > xd,
    ;
}

proof fn lemma_later_than_nonneg(pn: int, pd: int, qn: int, qd: int)
    requires
        pd > 0,
        qd > 0,
        qn >= 0,
        qn * pd <= pn * qd,
    ensures
        pn >= 0,
{
    assert(pn >= 0) by (nonlinear_arith)
        requires
            pd > 0,
            qd > 0,
            qn >= 0,
            qn * pd <= pn * qd,
    ;
}

/// One axis of a box whose end position overlaps the target on that axis.
proof fn lemma_axis_reaches(a_lo: i64, a_hi: i64, b_lo: i64, b_hi: i64, v: i64)
    requires
        within(a_lo),
        within(a_hi),
        within(b_lo),
        within(b_hi),
        within(v),
        a_lo + v < b_hi,
        a_hi + v > b_lo,
    ensures
        axis_window(a_lo, a_hi, b_lo, b_hi, v) is Some,
        v == 0 ==> axis_window(a_lo, a_hi, b_lo, b_hi, v) == Some((Time::NegInf, Time::PosInf)),
        v != 0 ==> {
            let (e, x) = axis_window(a_lo, a_hi, b_lo, b_hi, v).unwrap();
            &&& e matches Time::At(ef)
            &&& x matches Time::At(xf)
            &&& ef.den > 0 && xf.den > 0
            &&& ef.num < ef.den
            &&& xf.num > xf.den
            &&& (a_hi <= b_lo || a_lo >= b_hi) ==> ef.num >= 0
        },
{
}

/// A box that starts apart from a target and ends overlapping it is
/// reported as a hit, with an entry time that is not negative.
pub proof fn lemma_sweep_detects_contact(a_min: Vec2, a_max: Vec2, b_min: Vec2, b_max: Vec2, v: Vec2)
    requires
        vec_within(a_min),
        vec_within(a_max),
        vec_within(b_min),
        vec_within(b_max),
        vec_within(v),
        v.x != 0 || v.y != 0,
        !overlaps(a_min, a_max, b_min, b_max),
        overlaps(shifted(a_min, v), shifted(a_max, v), b_min, b_max),
    ensures
        sweep(a_min, a_max, b_min, b_max, v).0 != 0,
        time_nonneg(sweep(a_min, a_max, b_min, b_max, v).1),
{
    lemma_axis_reaches(a_min.x, a_max.x, b_min.x, b_max.x, v.x);
    lemma_axis_reaches(a_min.y, a_max.y, b_min.y, b_max.y, v.y);
    let (ex, xx) = axis_window(a_min.x, a_max.x, b_min.x, b_max.x, v.x).unwrap();
    let (ey, xy) = axis_window(a_min.y, a_max.y, b_min.y, b_max.y, v.y).unwrap();
    if let (Time::At(p), Time::At(q)) = (ex, xy) {
        lemma_entry_not_after_exit(p.num as int, p.den as int, q.num as int, q.den as int);
    }
    if let (Time::At(p), Time::At(q)) = (ey, xx) {
        lemma_entry_not_after_exit(p.num as int, p.den as int, q.num as int, q.den as int);
    }
    assert(!time_gt(ex, xy) && !time_gt(ey, xx));
    let sep_x = a_max.x <= b_min.x || a_min.x >= b_max.x;
    if time_gt(ex, ey) {
        if !sep_x {
            if let (Time::At(p), Time::At(q)) = (ex, ey) {
                lemma_later_than_nonneg(p.num as int, p.den as int, q.num as int, q.den as int);
            }
        }
    } else {
        if sep_x {
            if let (Time::At(p), Time::At(q)) = (ex, ey) {
                lemma_later_than_nonneg(q.num as int, q.den as int, p.num as int, p.den as int);
            }
        }
    }
}

} // verus!
