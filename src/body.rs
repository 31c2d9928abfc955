use vstd::prelude::*;
use crate::config::{Config, COORD_LIMIT};
use rand::Rng;

verus! {

/// One simulated body.
#[derive(Clone, Copy, Debug, PartialEq, Eq, Structural)]
pub struct Body {
    pub id: u64,
    pub x: i64,
    pub y: i64,
    pub vx: i64,
    pub vy: i64,
    pub radius: i64,
    /// Collisions counted since the body was created.
    pub count: u64,
}

/// The random part of a fresh body: where it starts, how it moves, its size.
#[derive(Clone, Copy, Debug, PartialEq, Eq, Structural)]
pub struct Draw {
    pub x: i64,
    pub y: i64,
    pub vx: i64,
    pub vy: i64,
    pub radius: i64,
}

impl Draw {
    /// The draw lies in the ranges that fresh bodies are sampled from.
    pub open spec fn within(self, c: Config) -> bool {
        &&& 0 <= self.x <= c.max_position
        &&& 0 <= self.y <= c.max_position
        &&& 0 <= self.vx <= c.max_speed
        &&& 0 <= self.vy <= c.max_speed
        &&& 0 < self.radius <= c.max_collider
    }

    pub fn is_within(&self, c: &Config) -> (r: bool)
        ensures
            r == self.within(*c),
    {
        0 <= self.x && self.x <= c.max_position && 0 <= self.y && self.y <= c.max_position && 0
            <= self.vx && self.vx <= c.max_speed && 0 <= self.vy && self.vy <= c.max_speed && 0
            < self.radius && self.radius <= c.max_collider
    }
}

/// The body that a draw makes under a given id.
pub open spec fn spawned(id: u64, d: Draw) -> Body {
    Body { id, x: d.x, y: d.y, vx: d.vx, vy: d.vy, radius: d.radius, count: 0 }
}

pub fn spawn(id: u64, d: &Draw) -> (b: Body)
    ensures
        b == spawned(id, *d),
{
    Body { id, x: d.x, y: d.y, vx: d.vx, vy: d.vy, radius: d.radius, count: 0 }
}

pub open spec fn abs(v: int) -> int {
    if v < 0 {
        -v
    } else {
        v
    }
}

impl Body {
    /// The body respects the bounds of the world it lives in.
    pub open spec fn fits(self, c: Config) -> bool {
        &&& abs(self.x as int) <= COORD_LIMIT
        &&& abs(self.y as int) <= COORD_LIMIT
        &&& abs(self.vx as int) <= c.max_speed
        &&& abs(self.vy as int) <= c.max_speed
        &&& 0 < self.radius <= c.max_collider
    }

    pub fn is_fit(&self, c: &Config) -> (r: bool)
        requires
            c.valid(),
        ensures
            r == self.fits(*c),
    {
        -COORD_LIMIT <= self.x && self.x <= COORD_LIMIT && -COORD_LIMIT <= self.y && self.y
            <= COORD_LIMIT && -c.max_speed <= self.vx && self.vx <= c.max_speed && -c.max_speed
            <= self.vy && self.vy <= c.max_speed && 0 < self.radius && self.radius
            <= c.max_collider
    }
}

/// Relies on rand's `Rng::gen_range` over an inclusive range, on the thread's
/// generator: the value lies in the range, which must not be empty.
#[verifier::external_body]
fn uniform(lo: i64, hi: i64) -> (r: i64)
    requires
        lo <= hi,
    ensures
        lo <= r <= hi,
{
    rand::thread_rng().gen_range(lo..=hi)
}

/// Samples a fresh draw uniformly from the ranges of the world.
pub fn random_draw(c: &Config) -> (d: Draw)
    requires
        c.valid(),
    ensures
        d.within(*c),
{
    let x = uniform(0, c.max_position);
    let y = uniform(0, c.max_position);
    let vx = uniform(0, c.max_speed);
    let vy = uniform(0, c.max_speed);
    let radius = uniform(1, c.max_collider);
    Draw { x, y, vx, vy, radius }
}

} // verus!
