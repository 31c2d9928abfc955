//! Properties of the simulation that hold over every input, proved from the
//! definitions that the functions' own contracts use.
use vstd::prelude::*;
use crate::body::{Body, Draw};
use crate::collision::{collides, hits, partners, scanned};
use crate::config::Policy;
use crate::population::{dead_count, over_limit, settled_at};
use crate::simulation::{draws_fit, SimState};

verus! {

/// The state after a tick of `dts[t]` with `draws[t]`, for each `t` in turn.
pub open spec fn run(st: SimState, dts: Seq<u64>, draws: Seq<Seq<Draw>>) -> SimState
    decreases dts.len(),
{
    if dts.len() == 0 {
        st
    } else {
        run(st.ticked(dts[0], draws[0]), dts.drop_first(), draws.drop_first())
    }
}

/// Under the replace policy with a positive limit, every tick keeps the
/// population size, however many ticks are run.
pub proof fn lemma_replace_keeps_population(st: SimState, dts: Seq<u64>, draws: Seq<Seq<Draw>>)
    requires
        st.config.policy == Policy::Replace,
        st.collision_limit >= 1,
    ensures
        run(st, dts, draws).population() == st.population(),
    decreases dts.len(),
{
    if dts.len() > 0 {
        let next = st.ticked(dts[0], draws[0]);
        lemma_replace_keeps_population(next, dts.drop_first(), draws.drop_first());
    }
}

/// Under the count-only policy no body ever leaves: whatever the limit, the
/// population and the id at each index stay as they were over any run.
pub proof fn lemma_count_only_keeps_bodies(st: SimState, dts: Seq<u64>, draws: Seq<Seq<Draw>>)
    requires
        st.config.policy == Policy::CountOnly,
    ensures
        run(st, dts, draws).population() == st.population(),
        forall|i: int|
            0 <= i < st.population() ==> #[trigger] run(st, dts, draws).bodies[i].id
                == st.bodies[i].id,
    decreases dts.len(),
{
    if dts.len() > 0 {
        let next = st.ticked(dts[0], draws[0]);
        assert forall|i: int| 0 <= i < st.population() implies #[trigger] next.bodies[i].id
            == st.bodies[i].id by {
            assert(next.bodies[i] == settled_at(
                st.config.policy,
                st.hit(dts[0])[i],
                st.collision_limit,
                st.next_id,
                i,
                draws[0][i],
            ));
        }
        lemma_count_only_keeps_bodies(next, dts.drop_first(), draws.drop_first());
    }
}

proof fn lemma_no_deaths_when_disabled(st: SimState, dt: u64, k: int)
    requires
        st.collision_limit <= 0,
        0 <= k,
    ensures
        dead_count(st.config.policy, st.moved(dt), st.hit(dt), st.collision_limit, k) == 0,
    decreases k,
{
    if k > 0 {
        lemma_no_deaths_when_disabled(st, dt, k - 1);
    }
}

/// With a limit of zero or less, a tick has no deaths and replaces no body,
/// and, where the tick is representable, no counter goes down.
pub proof fn lemma_disabled_death_tick(st: SimState, dt: u64, draws: Seq<Draw>)
    requires
        st.collision_limit <= 0,
    ensures
        st.deaths(dt) == 0,
        st.ticked(dt, draws).population() == st.population(),
        forall|i: int|
            0 <= i < st.population() ==> #[trigger] st.ticked(dt, draws).bodies[i].id
                == st.bodies[i].id,
        st.ready(dt) ==> forall|i: int|
            0 <= i < st.population() ==> #[trigger] st.ticked(dt, draws).bodies[i].count
                >= st.bodies[i].count,
{
    lemma_no_deaths_when_disabled(st, dt, st.population() as int);
    let t = st.ticked(dt, draws);
    assert forall|i: int| 0 <= i < st.population() implies t.bodies[i].id == st.bodies[i].id && (
    st.ready(dt) ==> #[trigger] t.bodies[i].count >= st.bodies[i].count) by {
        assert(t.bodies[i] == settled_at(
            st.config.policy,
            st.hit(dt)[i],
            st.collision_limit,
            st.next_id,
            i,
            draws[i],
        ));
        if st.ready(dt) {
            assert(st.bodies[i].count + st.population() <= u64::MAX);
            assert(hits(st.moved(dt), i) <= st.population()) by {
                vstd::set_lib::lemma_int_range(0, st.population() as int);
                vstd::set_lib::lemma_len_subset(
                    partners(st.moved(dt), i),
                    vstd::set_lib::set_int_range(0, st.population() as int),
                );
            }
        }
    }
}

/// With a limit of zero or less, no body is ever replaced or removed over any
/// run: the population and the id at each index stay as they were.
pub proof fn lemma_disabled_death_run(st: SimState, dts: Seq<u64>, draws: Seq<Seq<Draw>>)
    requires
        st.collision_limit <= 0,
    ensures
        run(st, dts, draws).population() == st.population(),
        forall|i: int|
            0 <= i < st.population() ==> #[trigger] run(st, dts, draws).bodies[i].id
                == st.bodies[i].id,
    decreases dts.len(),
{
    if dts.len() > 0 {
        let next = st.ticked(dts[0], draws[0]);
        lemma_disabled_death_tick(st, dts[0], draws[0]);
        lemma_disabled_death_run(next, dts.drop_first(), draws.drop_first());
    }
}

/// A colliding pair of distinct bodies counts once for each side: each is
/// among the other's partners, and without that pair each side's count of
/// hits is one lower.
pub proof fn lemma_counter_symmetry(s: Seq<Body>, i: int, j: int)
    requires
        0 <= i < s.len(),
        0 <= j < s.len(),
        s[i].id != s[j].id,
        collides(s[i], s[j]),
    ensures
        partners(s, i).contains(j),
        partners(s, j).contains(i),
        hits(s, i) == partners(s, i).remove(j).len() + 1,
        hits(s, j) == partners(s, j).remove(i).len() + 1,
{
    crate::collision::lemma_collides_symmetric(s[i], s[j]);
    vstd::set_lib::lemma_int_range(0, s.len() as int);
    vstd::set_lib::lemma_len_subset(partners(s, i), vstd::set_lib::set_int_range(0, s.len() as int));
    vstd::set_lib::lemma_len_subset(partners(s, j), vstd::set_lib::set_int_range(0, s.len() as int));
}

/// A pair of bodies alone: when they collide, the scan adds exactly one to
/// each counter.
pub proof fn lemma_pair_scan(a: Body, b: Body)
    requires
        a.id != b.id,
        collides(a, b),
        a.count < u64::MAX,
        b.count < u64::MAX,
    ensures
        scanned(seq![a, b])[0].count == a.count + 1,
        scanned(seq![a, b])[1].count == b.count + 1,
{
    let s = seq![a, b];
    crate::collision::lemma_collides_symmetric(a, b);
    assert(partners(s, 0) =~= set![1int]);
    assert(partners(s, 1) =~= set![0int]);
}

/// An empty population stays empty: the tick finds no pair and no death, and
/// it never overflows.
pub proof fn lemma_empty_tick(st: SimState, dt: u64, draws: Seq<Draw>)
    requires
        st.population() == 0,
    ensures
        st.ready(dt),
        scanned(st.moved(dt)).len() == 0,
        st.deaths(dt) == 0,
        st.ticked(dt, draws).population() == 0,
{
}

/// Under the replace policy a body that dies leaves the population: its id no
/// longer appears, and the body in its place has an id that no body had.
pub proof fn lemma_dead_replaced(st: SimState, dt: u64, draws: Seq<Draw>, i: int)
    requires
        st.wf(),
        st.ready(dt),
        draws_fit(draws, st.population(), st.config),
        st.config.policy == Policy::Replace,
        0 <= i < st.population(),
        over_limit(st.hit(dt)[i].count, st.collision_limit),
    ensures
        forall|k: int|
            0 <= k < st.population() ==> #[trigger] st.ticked(dt, draws).bodies[k].id
                != st.bodies[i].id,
        st.ticked(dt, draws).bodies[i].id == st.next_id + i,
        forall|k: int| 0 <= k < st.population() ==> #[trigger] st.bodies[k].id != st.next_id + i,
        st.ticked(dt, draws).bodies[i].count == 0,
{
    let t = st.ticked(dt, draws);
    assert(st.bodies[i].fits(st.config));
    assert forall|k: int| 0 <= k < st.population() implies #[trigger] t.bodies[k].id
        != st.bodies[i].id by {
        assert(st.bodies[k].fits(st.config));
        assert(t.bodies[k] == settled_at(
            st.config.policy,
            st.hit(dt)[k],
            st.collision_limit,
            st.next_id,
            k,
            draws[k],
        ));
    }
    assert forall|k: int| 0 <= k < st.population() implies #[trigger] st.bodies[k].id
        != st.next_id + i by {
        assert(st.bodies[k].fits(st.config));
    }
}

/// Under the replace policy with a positive limit, no counter is past the
/// limit once a tick is over.
pub proof fn lemma_replace_caps_counters(st: SimState, dt: u64, draws: Seq<Draw>)
    requires
        st.config.policy == Policy::Replace,
        st.collision_limit >= 1,
    ensures
        forall|k: int|
            0 <= k < st.population() ==> #[trigger] st.ticked(dt, draws).bodies[k].count
                <= st.collision_limit,
{
    let t = st.ticked(dt, draws);
    assert forall|k: int| 0 <= k < st.population() implies #[trigger] t.bodies[k].count
        <= st.collision_limit by {
        assert(t.bodies[k] == settled_at(
            st.config.policy,
            st.hit(dt)[k],
            st.collision_limit,
            st.next_id,
            k,
            draws[k],
        ));
    }
}

} // verus!
