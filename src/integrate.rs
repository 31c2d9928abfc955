use vstd::prelude::*;
use crate::body::{abs, Body};
use crate::config::{Config, COORD_LIMIT, SPAN_LIMIT};

verus! {

/// A coordinate after moving for `dt` at velocity `v`.
pub open spec fn moved(p: i64, v: i64, dt: u64) -> int {
    p + v * dt
}

/// A coordinate lies outside the closed interval `[0, max]`.
pub open spec fn outside(p: int, max: int) -> bool {
    p < 0 || p > max
}

/// The body can be advanced by `dt` without leaving the representable range.
pub open spec fn can_advance(b: Body, dt: u64) -> bool {
    abs(moved(b.x, b.vx, dt)) <= COORD_LIMIT && abs(moved(b.y, b.vy, dt)) <= COORD_LIMIT
}

/// One body after one tick: it moves by its velocity, and each velocity
/// component whose new coordinate lies outside the box changes sign. The
/// position is never clamped.
pub open spec fn advanced(b: Body, dt: u64, max_position: i64) -> Body {
    let x = moved(b.x, b.vx, dt);
    let y = moved(b.y, b.vy, dt);
    Body {
        x: x as i64,
        y: y as i64,
        vx: if outside(x, max_position as int) { (-b.vx) as i64 } else { b.vx },
        vy: if outside(y, max_position as int) { (-b.vy) as i64 } else { b.vy },
        ..b
    }
}

/// Every body of a population after one tick of motion.
pub open spec fn integrated(s: Seq<Body>, dt: u64, max_position: i64) -> Seq<Body> {
    Seq::new(s.len(), |i: int| advanced(s[i], dt, max_position))
}

proof fn lemma_displacement_bound(v: i64, dt: u64)
    requires
        abs(v as int) <= SPAN_LIMIT,
    ensures
        abs(v * dt) <= SPAN_LIMIT * 0x1_0000_0000_0000_0000,
{
    let m: int = SPAN_LIMIT as int;
    let t: int = dt as int;
    assert(0 <= t < 0x1_0000_0000_0000_0000);
    if v >= 0 {
        assert(0 <= v * t <= m * 0x1_0000_0000_0000_0000) by (nonlinear_arith)
            requires
                0 <= v <= m,
                0 <= t < 0x1_0000_0000_0000_0000,
        ;
    } else {
        assert(0 <= (-v) * t <= m * 0x1_0000_0000_0000_0000) by (nonlinear_arith)
            requires
                0 < -v <= m,
                0 <= t < 0x1_0000_0000_0000_0000,
        ;
        assert(v * t == -((-v) * t)) by (nonlinear_arith);
    }
}

/// A coordinate after `dt`, if it stays within the representable range.
fn try_move(p: i64, v: i64, dt: u64) -> (r: Option<i64>)
    requires
        abs(p as int) <= COORD_LIMIT,
        abs(v as int) <= SPAN_LIMIT,
    ensures
        r is Some <==> abs(moved(p, v, dt)) <= COORD_LIMIT,
        r matches Some(q) ==> q == moved(p, v, dt),
{
    proof {
        lemma_displacement_bound(v, dt);
    }
    let q: i128 = p as i128 + (v as i128) * (dt as i128);
    if -(COORD_LIMIT as i128) <= q && q <= COORD_LIMIT as i128 {
        Some(q as i64)
    } else {
        None
    }
}

/// Advancing a body that fits keeps it fitting.
pub proof fn lemma_advanced_fits(b: Body, dt: u64, c: Config)
    requires
        c.valid(),
        b.fits(c),
        can_advance(b, dt),
    ensures
        advanced(b, dt, c.max_position).fits(c),
        advanced(b, dt, c.max_position).id == b.id,
        advanced(b, dt, c.max_position).count == b.count,
{
}

/// Whether [`advance`] can move the body by `dt`.
pub fn can_advance_exec(b: &Body, dt: u64, c: &Config) -> (r: bool)
    requires
        c.valid(),
        b.fits(*c),
    ensures
        r == can_advance(*b, dt),
{
    try_move(b.x, b.vx, dt).is_some() && try_move(b.y, b.vy, dt).is_some()
}

/// Moves the body by `dt` and reflects it off the box.
pub fn advance(b: &mut Body, dt: u64, c: &Config)
    requires
        c.valid(),
        old(b).fits(*c),
        can_advance(*old(b), dt),
    ensures
        *final(b) == advanced(*old(b), dt, c.max_position),
        final(b).fits(*c),
{
    let x = match try_move(b.x, b.vx, dt) {
        Some(q) => q,
        None => b.x,
    };
    let y = match try_move(b.y, b.vy, dt) {
        Some(q) => q,
        None => b.y,
    };
    b.x = x;
    b.y = y;
    if x < 0 || x > c.max_position {
        b.vx = -b.vx;
    }
    if y < 0 || y > c.max_position {
        b.vy = -b.vy;
    }
}

} // verus!
