use vstd::prelude::*;
use crate::body::{spawn, spawned, Body, Draw};
use crate::config::Policy;

verus! {

/// A counter past the collision limit; a limit of zero or less never kills.
pub open spec fn over_limit(count: u64, limit: i64) -> bool {
    limit > 0 && count > limit
}

pub fn over_limit_exec(count: u64, limit: i64) -> (r: bool)
    ensures
        r == over_limit(count, limit),
{
    limit > 0 && count > limit as u64
}

/// Whether a body dies in a tick that takes its counter from `before` to
/// `after`. Under the replace policy every body past the limit dies; under the
/// count-only policy a death is the tick in which the counter first passes it.
pub open spec fn is_dead(policy: Policy, before: u64, after: u64, limit: i64) -> bool {
    match policy {
        Policy::Replace => over_limit(after, limit),
        Policy::CountOnly => over_limit(after, limit) && !over_limit(before, limit),
    }
}

pub fn is_dead_exec(policy: Policy, before: u64, after: u64, limit: i64) -> (r: bool)
    ensures
        r == is_dead(policy, before, after, limit),
{
    match policy {
        Policy::Replace => over_limit_exec(after, limit),
        Policy::CountOnly => over_limit_exec(after, limit) && !over_limit_exec(before, limit),
    }
}

/// Deaths among the first `k` bodies, counters going from `before` to `after`.
pub open spec fn dead_count(
    policy: Policy,
    before: Seq<Body>,
    after: Seq<Body>,
    limit: i64,
    k: int,
) -> nat
    decreases k,
{
    if k <= 0 {
        0
    } else {
        dead_count(policy, before, after, limit, k - 1) + if is_dead(
            policy,
            before[k - 1].count,
            after[k - 1].count,
            limit,
        ) {
            1nat
        } else {
            0nat
        }
    }
}

pub proof fn lemma_dead_count_bounded(
    policy: Policy,
    before: Seq<Body>,
    after: Seq<Body>,
    limit: i64,
    k: int,
)
    requires
        0 <= k,
    ensures
        dead_count(policy, before, after, limit, k) <= k,
    decreases k,
{
    if k > 0 {
        lemma_dead_count_bounded(policy, before, after, limit, k - 1);
    }
}

/// A body is replaced: the replace policy holds and its counter is past the limit.
pub open spec fn replaced(policy: Policy, b: Body, limit: i64) -> bool {
    policy == Policy::Replace && over_limit(b.count, limit)
}

/// The body at index `i` after the population manager: a replaced body gives
/// way to a fresh one with id `next_id + i`, made from the `i`-th draw.
pub open spec fn settled_at(policy: Policy, b: Body, limit: i64, next_id: u64, i: int, d: Draw) -> Body {
    if replaced(policy, b, limit) {
        spawned((next_id + i) as u64, d)
    } else {
        b
    }
}

pub open spec fn settled(
    policy: Policy,
    s: Seq<Body>,
    limit: i64,
    next_id: u64,
    draws: Seq<Draw>,
) -> Seq<Body> {
    Seq::new(s.len(), |i: int| settled_at(policy, s[i], limit, next_id, i, draws[i]))
}

/// Gives each body its new counter, replaces the dead ones under the replace
/// policy, and returns the number of deaths.
pub fn settle(
    bodies: &mut Vec<Body>,
    counts: &Vec<u64>,
    draws: &Vec<Draw>,
    policy: Policy,
    limit: i64,
    next_id: u64,
) -> (deaths: u64)
    requires
        counts@.len() == old(bodies)@.len(),
        draws@.len() == old(bodies)@.len(),
        next_id + old(bodies)@.len() <= u64::MAX,
    ensures
        final(bodies)@ == settled(
            policy,
            Seq::new(
                old(bodies)@.len(),
                |i: int| Body { count: counts@[i], ..old(bodies)@[i] },
            ),
            limit,
            next_id,
            draws@,
        ),
        deaths == dead_count(
            policy,
            old(bodies)@,
            Seq::new(
                old(bodies)@.len(),
                |i: int| Body { count: counts@[i], ..old(bodies)@[i] },
            ),
            limit,
            old(bodies)@.len() as int,
        ),
{
    let ghost s = bodies@;
    let ghost after = Seq::new(s.len(), |i: int| Body { count: counts@[i], ..s[i] });
    let n = bodies.len();
    let mut deaths: u64 = 0;
    let mut i: usize = 0;
    while i < n
        invariant
            n == s.len(),
            bodies@.len() == n,
            counts@.len() == n,
            draws@.len() == n,
            next_id + n <= u64::MAX,
            after == Seq::new(s.len(), |i: int| Body { count: counts@[i], ..s[i] }),
            i <= n,
            deaths <= i,
            deaths == dead_count(policy, s, after, limit, i as int),
            forall|q: int|
                0 <= q < n ==> #[trigger] bodies@[q] == if q < i {
                    settled_at(policy, after[q], limit, next_id, q, draws@[q])
                } else {
                    s[q]
                },
        decreases n - i,
    {
        let b = bodies[i];
        let c = counts[i];
        if is_dead_exec(policy, b.count, c, limit) {
            deaths = deaths + 1;
        }
        if policy == Policy::Replace && over_limit_exec(c, limit) {
            let fresh = spawn(next_id + i as u64, &draws[i]);
            bodies.set(i, fresh);
        } else {
            bodies.set(i, Body { count: c, ..b });
        }
        i += 1;
    }
    proof {
        assert(bodies@ =~= settled(policy, after, limit, next_id, draws@));
    }
    deaths
}

} // verus!
