use vstd::prelude::*;
use vstd::set_lib::{lemma_int_range, lemma_len_subset, set_int_range};
use crate::body::{abs, Body};
use crate::config::{Config, COORD_LIMIT, SPAN_LIMIT};

verus! {

pub open spec fn dist_sq(a: Body, b: Body) -> int {
    (a.x - b.x) * (a.x - b.x) + (a.y - b.y) * (a.y - b.y)
}

pub open spec fn reach_sq(a: Body, b: Body) -> int {
    (a.radius + b.radius) * (a.radius + b.radius)
}

/// The collision predicate of this model: the squared distance between the
/// centres exceeds the squared sum of the radii. This is the reverse of the
/// usual disk-overlap test, and is kept as the model defines it.
pub open spec fn collides(a: Body, b: Body) -> bool {
    dist_sq(a, b) > reach_sq(a, b)
}

/// Body `m` of `s` is another body than `k` (by id) and collides with it.
pub open spec fn meets(s: Seq<Body>, k: int, m: int) -> bool {
    &&& 0 <= m < s.len()
    &&& s[m].id != s[k].id
    &&& collides(s[k], s[m])
}

/// The indices of the bodies that body `k` collides with.
pub open spec fn partners(s: Seq<Body>, k: int) -> Set<int> {
    Set::new(|m: int| meets(s, k, m))
}

/// Collisions that body `k` takes part in during one scan.
pub open spec fn hits(s: Seq<Body>, k: int) -> nat {
    partners(s, k).len()
}

/// The population after one scan: each counter grows by the body's hits.
pub open spec fn scanned(s: Seq<Body>) -> Seq<Body> {
    Seq::new(s.len(), |k: int| Body { count: (s[k].count + hits(s, k)) as u64, ..s[k] })
}

/// The scan can count without overflowing any counter.
pub open spec fn counters_have_room(s: Seq<Body>) -> bool {
    forall|k: int| 0 <= k < s.len() ==> #[trigger] s[k].count + s.len() <= u64::MAX
}

pub proof fn lemma_collides_symmetric(a: Body, b: Body)
    ensures
        collides(a, b) == collides(b, a),
{
    assert((a.x - b.x) * (a.x - b.x) == (b.x - a.x) * (b.x - a.x)) by (nonlinear_arith);
    assert((a.y - b.y) * (a.y - b.y) == (b.y - a.y) * (b.y - a.y)) by (nonlinear_arith);
}

/// The pair `{k, m}` comes before the pair `(i, j)` in the order of the scan.
spec fn done(k: int, m: int, i: int, j: int) -> bool {
    let lo = if k < m { k } else { m };
    let hi = if k < m { m } else { k };
    lo < i || (lo == i && hi < j)
}

/// The partners of `k` found before the scan reaches the pair `(i, j)`.
spec fn seen(s: Seq<Body>, k: int, i: int, j: int) -> Set<int> {
    Set::new(|m: int| meets(s, k, m) && done(k, m, i, j))
}

proof fn lemma_seen_bounded(s: Seq<Body>, k: int, i: int, j: int)
    ensures
        seen(s, k, i, j).finite(),
        seen(s, k, i, j).len() <= s.len(),
{
    lemma_int_range(0, s.len() as int);
    lemma_len_subset(seen(s, k, i, j), set_int_range(0, s.len() as int));
}

proof fn lemma_seen_step(s: Seq<Body>, i: int, j: int, k: int)
    requires
        0 <= i < j < s.len(),
        0 <= k < s.len(),
    ensures
        !seen(s, i, i, j).contains(j),
        !seen(s, j, i, j).contains(i),
        meets(s, i, j) == meets(s, j, i),
        seen(s, k, i, j + 1) == if meets(s, i, j) && k == i {
            seen(s, k, i, j).insert(j)
        } else if meets(s, i, j) && k == j {
            seen(s, k, i, j).insert(i)
        } else {
            seen(s, k, i, j)
        },
{
    lemma_collides_symmetric(s[i], s[j]);
    if meets(s, i, j) && k == i {
        assert(seen(s, k, i, j + 1) =~= seen(s, k, i, j).insert(j));
    } else if meets(s, i, j) && k == j {
        assert(seen(s, k, i, j + 1) =~= seen(s, k, i, j).insert(i));
    } else {
        assert(seen(s, k, i, j + 1) =~= seen(s, k, i, j));
    }
}

proof fn lemma_seen_row(s: Seq<Body>, i: int, k: int)
    requires
        0 <= i < s.len(),
        0 <= k < s.len(),
    ensures
        seen(s, k, i, s.len() as int) == seen(s, k, i + 1, i + 2),
{
    assert(seen(s, k, i, s.len() as int) =~= seen(s, k, i + 1, i + 2));
}

proof fn lemma_seen_ends(s: Seq<Body>, k: int)
    requires
        0 <= k < s.len(),
    ensures
        seen(s, k, 0, 1) == Set::<int>::empty(),
        seen(s, k, s.len() as int, s.len() as int + 1) == partners(s, k),
{
    assert(seen(s, k, 0, 1) =~= Set::<int>::empty());
    assert(seen(s, k, s.len() as int, s.len() as int + 1) =~= partners(s, k));
}

fn square(d: i128) -> (r: i128)
    requires
        abs(d as int) <= 0x4000_0000_0000_0000,
    ensures
        r == d * d,
        0 <= r <= 0x1000_0000_0000_0000_0000_0000_0000_0000,
{
    proof {
        let b: int = 0x4000_0000_0000_0000;
        if d >= 0 {
            assert(0 <= d * d <= b * b) by (nonlinear_arith)
                requires
                    0 <= d <= b,
            ;
        } else {
            assert(0 <= d * d <= b * b) by (nonlinear_arith)
                requires
                    0 < -d <= b,
            ;
        }
    }
    d * d
}

/// Whether two bodies collide, by the predicate of the model.
pub fn collides_exec(a: &Body, b: &Body, c: &Config) -> (r: bool)
    requires
        c.valid(),
        a.fits(*c),
        b.fits(*c),
    ensures
        r == collides(*a, *b),
{
    let dx: i128 = a.x as i128 - b.x as i128;
    let dy: i128 = a.y as i128 - b.y as i128;
    let dr: i128 = a.radius as i128 + b.radius as i128;
    square(dx) + square(dy) > square(dr)
}

/// Counts the collisions of one tick over every unordered pair of distinct
/// bodies, each pair tested once; a colliding pair adds one to each side.
/// Returns the new counter of each body.
pub fn tally(bodies: &Vec<Body>, c: &Config) -> (counts: Vec<u64>)
    requires
        c.valid(),
        forall|k: int| 0 <= k < bodies@.len() ==> #[trigger] bodies@[k].fits(*c),
        counters_have_room(bodies@),
    ensures
        counts@.len() == bodies@.len(),
        forall|k: int| 0 <= k < bodies@.len() ==> #[trigger] counts@[k] == scanned(bodies@)[k].count,
{
    let ghost s = bodies@;
    let n = bodies.len();
    let mut counts: Vec<u64> = Vec::with_capacity(n);
    let mut k: usize = 0;
    while k < n
        invariant
            s == bodies@,
            n == s.len(),
            k <= n,
            counts@.len() == k,
            forall|q: int| 0 <= q < k ==> #[trigger] counts@[q] == s[q].count,
        decreases n - k,
    {
        counts.push(bodies[k].count);
        k += 1;
    }
    proof {
        assert forall|q: int| 0 <= q < n implies #[trigger] counts@[q] == s[q].count + seen(
            s,
            q,
            0,
            1,
        ).len() by {
            lemma_seen_ends(s, q);
        }
    }
    let mut i: usize = 0;
    while i < n
        invariant
            c.valid(),
            s == bodies@,
            n == s.len(),
            i <= n,
            counts@.len() == n,
            forall|q: int| 0 <= q < s.len() ==> #[trigger] s[q].fits(*c),
            counters_have_room(s),
            forall|q: int|
                0 <= q < n ==> #[trigger] counts@[q] == s[q].count + seen(
                    s,
                    q,
                    i as int,
                    i + 1,
                ).len(),
        decreases n - i,
    {
        let mut j: usize = i + 1;
        while j < n
            invariant
                c.valid(),
                s == bodies@,
                n == s.len(),
                i < n,
                i + 1 <= j <= n,
                counts@.len() == n,
                forall|q: int| 0 <= q < s.len() ==> #[trigger] s[q].fits(*c),
                counters_have_room(s),
                forall|q: int|
                    0 <= q < n ==> #[trigger] counts@[q] == s[q].count + seen(
                        s,
                        q,
                        i as int,
                        j as int,
                    ).len(),
            decreases n - j,
        {
            let ghost before = counts@;
            proof {
                assert forall|q: int| 0 <= q < n implies seen(s, q, i as int, j + 1) == if meets(
                    s,
                    i as int,
                    j as int,
                ) && q == i {
                    seen(s, q, i as int, j as int).insert(j as int)
                } else if meets(s, i as int, j as int) && q == j {
                    seen(s, q, i as int, j as int).insert(i as int)
                } else {
                    seen(s, q, i as int, j as int)
                } by {
                    lemma_seen_step(s, i as int, j as int, q);
                }
                lemma_seen_step(s, i as int, j as int, i as int);
                lemma_seen_bounded(s, i as int, i as int, j as int);
                lemma_seen_bounded(s, j as int, i as int, j as int);
                lemma_seen_bounded(s, i as int, i as int, j + 1);
                lemma_seen_bounded(s, j as int, i as int, j + 1);
                assert(s[i as int].count + s.len() <= u64::MAX);
                assert(s[j as int].count + s.len() <= u64::MAX);
            }
            if bodies[i].id != bodies[j].id && collides_exec(&bodies[i], &bodies[j], c) {
                counts.set(i, counts[i] + 1);
                counts.set(j, counts[j] + 1);
            }
            proof {
                assert forall|q: int| 0 <= q < n implies #[trigger] counts@[q] == s[q].count
                    + seen(s, q, i as int, j + 1).len() by {
                    lemma_seen_step(s, i as int, j as int, q);
                    lemma_seen_bounded(s, q, i as int, j as int);
                }
            }
            j += 1;
        }
        proof {
            assert forall|q: int| 0 <= q < n implies #[trigger] counts@[q] == s[q].count + seen(
                s,
                q,
                i + 1,
                i + 2,
            ).len() by {
                lemma_seen_row(s, i as int, q);
            }
        }
        i += 1;
    }
    proof {
        assert forall|q: int| 0 <= q < n implies #[trigger] counts@[q] == scanned(s)[q].count by {
            lemma_seen_ends(s, q);
            lemma_seen_bounded(s, q, n as int, n + 1);
        }
    }
    counts
}

} // verus!
