use vstd::prelude::*;
use crate::body::{random_draw, spawn, spawned, Body, Draw};
use crate::collision::{counters_have_room, scanned, tally};
use crate::config::{Config, Policy};
use crate::integrate::{advance, can_advance, can_advance_exec, integrated, lemma_advanced_fits};
use crate::population::{dead_count, lemma_dead_count_bounded, over_limit_exec, replaced, settle, settled, settled_at};

verus! {

/// What a [`Simulation`] holds, as mathematical values.
pub struct SimState {
    pub bodies: Seq<Body>,
    pub config: Config,
    /// Counters past this limit kill their body; zero or less disables deaths.
    pub collision_limit: i64,
    /// Every id of a live body lies below this one, and fresh ids start here.
    pub next_id: u64,
    /// Deaths over every tick so far.
    pub deaths_total: u64,
}

/// Every draw of `d` is in range, one for each of `n` bodies.
pub open spec fn draws_fit(d: Seq<Draw>, n: nat, c: Config) -> bool {
    d.len() == n && forall|i: int| 0 <= i < n ==> #[trigger] d[i].within(c)
}

/// A body can enter a simulation: it fits the bounds, and its id leaves room
/// for a larger one.
pub open spec fn admissible(b: Body, c: Config) -> bool {
    b.fits(c) && b.id < u64::MAX
}

/// No two bodies share an id.
pub open spec fn ids_distinct(s: Seq<Body>) -> bool {
    forall|i: int, j: int|
        0 <= i < s.len() && 0 <= j < s.len() && i != j ==> #[trigger] s[i].id != #[trigger] s[j].id
}

/// One past the largest id of `s`, or zero when `s` is empty.
pub open spec fn id_bound(s: Seq<Body>) -> nat
    decreases s.len(),
{
    if s.len() == 0 {
        0
    } else {
        let rest = id_bound(s.drop_last());
        let own = s.last().id + 1;
        if own > rest {
            own as nat
        } else {
            rest
        }
    }
}

pub proof fn lemma_id_bound(s: Seq<Body>)
    ensures
        forall|i: int| 0 <= i < s.len() ==> #[trigger] s[i].id < id_bound(s),
    decreases s.len(),
{
    if s.len() > 0 {
        lemma_id_bound(s.drop_last());
        assert forall|i: int| 0 <= i < s.len() implies #[trigger] s[i].id < id_bound(s) by {
            if i < s.len() - 1 {
                assert(s.drop_last()[i] == s[i]);
            }
        }
    }
}

impl SimState {
    pub open spec fn population(self) -> nat {
        self.bodies.len()
    }

    /// The invariant of a simulation: valid bounds, bodies that fit them,
    /// and ids that are unique and below `next_id`.
    pub open spec fn wf(self) -> bool {
        &&& self.config.valid()
        &&& forall|i: int|
            0 <= i < self.bodies.len() ==> #[trigger] self.bodies[i].fits(self.config)
                && self.bodies[i].id < self.next_id
        &&& forall|i: int, j: int|
            0 <= i < self.bodies.len() && 0 <= j < self.bodies.len() && i != j
                ==> #[trigger] self.bodies[i].id != #[trigger] self.bodies[j].id
    }

    /// A tick of `dt` keeps every coordinate and every counter representable.
    pub open spec fn ready(self, dt: u64) -> bool {
        &&& forall|i: int| 0 <= i < self.bodies.len() ==> can_advance(#[trigger] self.bodies[i], dt)
        &&& counters_have_room(self.bodies)
        &&& self.next_id + self.bodies.len() <= u64::MAX
        &&& self.deaths_total + self.bodies.len() <= u64::MAX
    }

    /// The bodies after the motion of a tick.
    pub open spec fn moved(self, dt: u64) -> Seq<Body> {
        integrated(self.bodies, dt, self.config.max_position)
    }

    /// The bodies after the motion and the collision scan of a tick.
    pub open spec fn hit(self, dt: u64) -> Seq<Body> {
        scanned(self.moved(dt))
    }

    /// Deaths in a tick of `dt`.
    pub open spec fn deaths(self, dt: u64) -> nat {
        dead_count(
            self.config.policy,
            self.moved(dt),
            self.hit(dt),
            self.collision_limit,
            self.bodies.len() as int,
        )
    }

    /// The state after a tick of `dt`, with `draws` for the fresh bodies.
    pub open spec fn ticked(self, dt: u64, draws: Seq<Draw>) -> SimState {
        SimState {
            bodies: settled(
                self.config.policy,
                self.hit(dt),
                self.collision_limit,
                self.next_id,
                draws,
            ),
            next_id: if self.config.policy == Policy::Replace {
                (self.next_id + self.bodies.len()) as u64
            } else {
                self.next_id
            },
            deaths_total: (self.deaths_total + self.deaths(dt)) as u64,
            ..self
        }
    }
}

/// What one tick reports.
#[derive(Clone, Copy, Debug, PartialEq, Eq, Structural)]
pub struct StepReport {
    /// Bodies that died in the tick (replaced, or only counted).
    pub deaths: u64,
}

/// Why a tick was refused; the simulation is then left as it was.
#[derive(Clone, Copy, Debug, PartialEq, Eq, Structural)]
pub enum StepError {
    /// A coordinate, a counter, an id or the death tally would overflow.
    Overflow,
    /// The draws are not one in range for each body.
    BadDraws,
}

/// Why a simulation could not be built.
#[derive(Clone, Copy, Debug, PartialEq, Eq, Structural)]
pub enum SetupError {
    /// The bounds of the world are out of range.
    InvalidConfig,
    /// A body or a draw does not fit the bounds of the world.
    InvalidBody,
    /// Two bodies share an id.
    DuplicateId,
}

/// The state of a running simulation.
pub struct Simulation {
    bodies: Vec<Body>,
    config: Config,
    collision_limit: i64,
    next_id: u64,
    deaths_total: u64,
}

impl View for Simulation {
    type V = SimState;

    closed spec fn view(&self) -> SimState {
        SimState {
            bodies: self.bodies@,
            config: self.config,
            collision_limit: self.collision_limit,
            next_id: self.next_id,
            deaths_total: self.deaths_total,
        }
    }
}


/// A tick keeps the invariant of a simulation.
pub proof fn lemma_tick_keeps_wf(st: SimState, dt: u64, draws: Seq<Draw>)
    requires
        st.wf(),
        st.ready(dt),
        draws_fit(draws, st.population(), st.config),
    ensures
        st.ticked(dt, draws).wf(),
        st.ticked(dt, draws).population() == st.population(),
{
    let t = st.ticked(dt, draws);
    let n = st.bodies.len();
    let h = st.hit(dt);
    assert forall|i: int| 0 <= i < n implies h[i].fits(st.config) && h[i].id == st.bodies[i].id by {
        lemma_advanced_fits(st.bodies[i], dt, st.config);
    }
    assert forall|i: int| 0 <= i < n implies #[trigger] t.bodies[i].fits(t.config) && t.bodies[i].id
        < t.next_id by {
        assert(t.bodies[i] == settled_at(
            st.config.policy,
            h[i],
            st.collision_limit,
            st.next_id,
            i,
            draws[i],
        ));
        if replaced(st.config.policy, h[i], st.collision_limit) {
            assert(draws[i].within(st.config));
            assert(t.bodies[i].id == st.next_id + i);
        } else {
            assert(t.bodies[i] == h[i]);
            assert(st.bodies[i].fits(st.config));
        }
    }
    assert forall|i: int, j: int|
        0 <= i < n && 0 <= j < n && i != j implies #[trigger] t.bodies[i].id
        != #[trigger] t.bodies[j].id by {
        assert(t.bodies[i] == settled_at(
            st.config.policy,
            h[i],
            st.collision_limit,
            st.next_id,
            i,
            draws[i],
        ));
        assert(t.bodies[j] == settled_at(
            st.config.policy,
            h[j],
            st.collision_limit,
            st.next_id,
            j,
            draws[j],
        ));
        assert(st.bodies[i].fits(st.config) && st.bodies[j].fits(st.config));
        assert(h[i].id == st.bodies[i].id && h[i].id < st.next_id);
        assert(h[j].id == st.bodies[j].id && h[j].id < st.next_id);
    }
}

impl Simulation {
    /// Builds a simulation of `draws.len()` fresh bodies, the `i`-th with id
    /// `i` and made from the `i`-th draw.
    pub fn populate(config: Config, collision_limit: i64, draws: &Vec<Draw>) -> (r: Result<
        Simulation,
        SetupError,
    >)
        ensures
            r matches Err(SetupError::InvalidConfig) <==> !config.valid(),
            r matches Err(SetupError::InvalidBody) <==> config.valid() && !draws_fit(
                draws@,
                draws@.len(),
                config,
            ),
            !(r matches Err(SetupError::DuplicateId)),
            r matches Ok(sim) ==> {
                &&& sim@.wf()
                &&& sim@.bodies == Seq::new(draws@.len(), |i: int| spawned(i as u64, draws@[i]))
                &&& sim@.config == config
                &&& sim@.collision_limit == collision_limit
                &&& sim@.next_id == draws@.len()
                &&& sim@.deaths_total == 0
            },
    {
        if !config.is_valid() {
            return Err(SetupError::InvalidConfig);
        }
        if !draws_fit_exec(draws, &config) {
            return Err(SetupError::InvalidBody);
        }
        let n = draws.len();
        let mut bodies: Vec<Body> = Vec::with_capacity(n);
        let mut i: usize = 0;
        while i < n
            invariant
                n == draws@.len(),
                i <= n,
                bodies@ == Seq::new(i as nat, |q: int| spawned(q as u64, draws@[q])),
            decreases n - i,
        {
            bodies.push(spawn(i as u64, &draws[i]));
            proof {
                assert(bodies@ =~= Seq::new((i + 1) as nat, |q: int| spawned(q as u64, draws@[q])));
            }
            i += 1;
        }
        proof {
            assert forall|q: int| 0 <= q < n implies #[trigger] bodies@[q].fits(config)
                && bodies@[q].id < n by {
                assert(draws@[q].within(config));
            }
        }
        let sim = Simulation {
            bodies,
            config,
            collision_limit,
            next_id: n as u64,
            deaths_total: 0,
        };
        Ok(sim)
    }

    /// A simulation of `size` random bodies in the world `config`.
    pub fn with_config(config: Config, size: usize, collision_limit: i64) -> (r: Result<
        Simulation,
        SetupError,
    >)
        ensures
            r is Err <==> !config.valid(),
            r is Err ==> r == Err::<Simulation, SetupError>(SetupError::InvalidConfig),
            r matches Ok(sim) ==> {
                &&& sim@.wf()
                &&& sim@.population() == size
                &&& sim@.config == config
                &&& sim@.collision_limit == collision_limit
                &&& sim@.next_id == size
                &&& sim@.deaths_total == 0
                &&& exists|d: Seq<Draw>|
                    draws_fit(d, size as nat, config) && sim@.bodies == Seq::new(
                        size as nat,
                        |i: int| spawned(i as u64, d[i]),
                    )
            },
    {
        if !config.is_valid() {
            return Err(SetupError::InvalidConfig);
        }
        let mut draws: Vec<Draw> = Vec::with_capacity(size);
        let mut i: usize = 0;
        while i < size
            invariant
                config.valid(),
                i <= size,
                draws@.len() == i,
                forall|q: int| 0 <= q < i ==> #[trigger] draws@[q].within(config),
            decreases size - i,
        {
            draws.push(random_draw(&config));
            i += 1;
        }
        let r = Simulation::populate(config, collision_limit, &draws);
        proof {
            assert(draws_fit(draws@, size as nat, config));
        }
        r
    }

    /// A simulation of `size` random bodies in the standard world, under the
    /// replace policy.
    pub fn initialize(size: usize, collision_limit: i64) -> (sim: Simulation)
        ensures
            sim@.wf(),
            sim@.population() == size,
            sim@.config == Config::standard(),
            sim@.collision_limit == collision_limit,
            sim@.next_id == size,
            sim@.deaths_total == 0,
            exists|d: Seq<Draw>|
                draws_fit(d, size as nat, Config::standard()) && sim@.bodies == Seq::new(
                    size as nat,
                    |i: int| spawned(i as u64, d[i]),
                ),
    {
        let config = Config::standard();
        match Simulation::with_config(config, size, collision_limit) {
            Ok(sim) => sim,
            Err(_) => {
                proof {
                    assert(false);
                }
                Simulation {
                    bodies: Vec::new(),
                    config,
                    collision_limit,
                    next_id: 0,
                    deaths_total: 0,
                }
            },
        }
    }

    /// Whether a tick of `dt` can run without overflow.
    pub fn is_ready(&self, dt: u64) -> (r: bool)
        requires
            self@.wf(),
        ensures
            r == self@.ready(dt),
    {
        let n = self.bodies.len();
        if self.next_id > u64::MAX - n as u64 || self.deaths_total > u64::MAX - n as u64 {
            return false;
        }
        let mut i: usize = 0;
        while i < n
            invariant
                self@.wf(),
                n == self@.bodies.len(),
                i <= n,
                forall|q: int| 0 <= q < i ==> can_advance(#[trigger] self@.bodies[q], dt),
                forall|q: int| 0 <= q < i ==> #[trigger] self@.bodies[q].count + n <= u64::MAX,
            decreases n - i,
        {
            if !can_advance_exec(&self.bodies[i], dt, &self.config) {
                return false;
            }
            if self.bodies[i].count > u64::MAX - n as u64 {
                return false;
            }
            i += 1;
        }
        true
    }

    /// Moves every body by `dt` and reflects it off the box.
    fn advance_all(&mut self, dt: u64)
        requires
            old(self)@.wf(),
            old(self)@.ready(dt),
        ensures
            final(self)@ == (SimState { bodies: old(self)@.moved(dt), ..old(self)@ }),
    {
        let ghost s = self@.bodies;
        let n = self.bodies.len();
        let mut i: usize = 0;
        while i < n
            invariant
                old(self)@.wf(),
                old(self)@.ready(dt),
                s == old(self)@.bodies,
                n == s.len(),
                i <= n,
                self.bodies@.len() == n,
                self.config == old(self).config,
                self.collision_limit == old(self).collision_limit,
                self.next_id == old(self).next_id,
                self.deaths_total == old(self).deaths_total,
                forall|q: int|
                    0 <= q < n ==> #[trigger] self.bodies@[q] == if q < i {
                        old(self)@.moved(dt)[q]
                    } else {
                        s[q]
                    },
            decreases n - i,
        {
            let mut b = self.bodies[i];
            advance(&mut b, dt, &self.config);
            self.bodies.set(i, b);
            i += 1;
        }
        proof {
            assert(self@.bodies =~= old(self)@.moved(dt));
        }
    }

    /// Runs one tick of `dt`: motion, the collision scan, and the population
    /// manager, which takes the `i`-th draw for a fresh body at index `i`.
    pub fn step_with(&mut self, dt: u64, draws: &Vec<Draw>) -> (r: Result<StepReport, StepError>)
        requires
            old(self)@.wf(),
        ensures
            final(self)@.wf(),
            r matches Err(StepError::Overflow) <==> !old(self)@.ready(dt),
            r matches Err(StepError::BadDraws) <==> old(self)@.ready(dt) && !draws_fit(
                draws@,
                old(self)@.population(),
                old(self)@.config,
            ),
            r is Err ==> final(self)@ == old(self)@,
            r matches Ok(rep) ==> {
                &&& final(self)@ == old(self)@.ticked(dt, draws@)
                &&& rep.deaths == old(self)@.deaths(dt)
            },
    {
        if !self.is_ready(dt) {
            return Err(StepError::Overflow);
        }
        if !draws_fit_exec_n(draws, self.bodies.len(), &self.config) {
            return Err(StepError::BadDraws);
        }
        let rep = self.tick(dt, draws);
        Ok(rep)
    }

    fn tick(&mut self, dt: u64, draws: &Vec<Draw>) -> (rep: StepReport)
        requires
            old(self)@.wf(),
            old(self)@.ready(dt),
            draws_fit(draws@, old(self)@.population(), old(self)@.config),
        ensures
            final(self)@ == old(self)@.ticked(dt, draws@),
            final(self)@.wf(),
            rep.deaths == old(self)@.deaths(dt),
    {
        let ghost st = self@;
        let counts = self.prepare(dt);
        self.finish(dt, &counts, draws, Ghost(st))
    }

    /// The motion and the collision scan of a tick; returns the new counters.
    fn prepare(&mut self, dt: u64) -> (counts: Vec<u64>)
        requires
            old(self)@.wf(),
            old(self)@.ready(dt),
        ensures
            final(self)@ == (SimState { bodies: old(self)@.moved(dt), ..old(self)@ }),
            counts@.len() == old(self)@.population(),
            forall|k: int|
                0 <= k < counts@.len() ==> #[trigger] counts@[k] == old(self)@.hit(dt)[k].count,
    {
        let ghost st = self@;
        self.advance_all(dt);
        proof {
            assert forall|q: int| 0 <= q < self.bodies@.len() implies #[trigger] self.bodies@[q].fits(
                self.config,
            ) && self.bodies@[q].count == st.bodies[q].count by {
                lemma_advanced_fits(st.bodies[q], dt, st.config);
            }
            assert(counters_have_room(self.bodies@));
        }
        tally(&self.bodies, &self.config)
    }

    /// The population manager of a tick whose motion and scan are done.
    fn finish(&mut self, dt: u64, counts: &Vec<u64>, draws: &Vec<Draw>, Ghost(st): Ghost<SimState>) -> (rep: StepReport)
        requires
            st.wf(),
            st.ready(dt),
            draws_fit(draws@, st.population(), st.config),
            old(self)@ == (SimState { bodies: st.moved(dt), ..st }),
            counts@.len() == st.population(),
            forall|k: int|
                0 <= k < counts@.len() ==> #[trigger] counts@[k] == st.hit(dt)[k].count,
        ensures
            final(self)@ == st.ticked(dt, draws@),
            final(self)@.wf(),
            rep.deaths == st.deaths(dt),
    {
        let n = self.bodies.len();
        let deaths = settle(
            &mut self.bodies,
            counts,
            draws,
            self.config.policy,
            self.collision_limit,
            self.next_id,
        );
        proof {
            assert(Seq::new(n as nat, |i: int| Body { count: counts@[i], ..st.moved(dt)[i] })
                =~= st.hit(dt));
            lemma_tick_keeps_wf(st, dt, draws@);
            lemma_dead_count_bounded(
                st.config.policy,
                st.moved(dt),
                st.hit(dt),
                st.collision_limit,
                n as int,
            );
        }
        if self.config.policy == Policy::Replace {
            self.next_id = self.next_id + n as u64;
        }
        self.deaths_total = self.deaths_total + deaths;
        StepReport { deaths }
    }

    /// Runs one tick of `dt`, drawing a random fresh body for each body that
    /// the replace policy removes.
    pub fn step(&mut self, dt: u64) -> (r: Result<StepReport, StepError>)
        requires
            old(self)@.wf(),
        ensures
            final(self)@.wf(),
            r is Err <==> !old(self)@.ready(dt),
            r is Err ==> r == Err::<StepReport, StepError>(StepError::Overflow) && final(self)@
                == old(self)@,
            r matches Ok(rep) ==> {
                &&& rep.deaths == old(self)@.deaths(dt)
                &&& exists|d: Seq<Draw>|
                    draws_fit(d, old(self)@.population(), old(self)@.config) && final(self)@
                        == old(self)@.ticked(dt, d)
            },
    {
        if !self.is_ready(dt) {
            return Err(StepError::Overflow);
        }
        let ghost st = self@;
        let counts = self.prepare(dt);
        let n = self.bodies.len();
        let spare = Draw { x: 0, y: 0, vx: 0, vy: 0, radius: self.config.max_collider };
        let mut draws: Vec<Draw> = Vec::with_capacity(n);
        let mut i: usize = 0;
        while i < n
            invariant
                self.config.valid(),
                spare.within(self.config),
                n == counts@.len(),
                i <= n,
                draws@.len() == i,
                forall|q: int| 0 <= q < i ==> #[trigger] draws@[q].within(self.config),
            decreases n - i,
        {
            if self.config.policy == Policy::Replace && over_limit_exec(counts[i], self.collision_limit) {
                draws.push(random_draw(&self.config));
            } else {
                draws.push(spare);
            }
            i += 1;
        }
        let rep = self.finish(dt, &counts, &draws, Ghost(st));
        Ok(rep)
    }

    /// Builds a simulation of the given bodies, which must fit the bounds of
    /// the world and carry distinct ids; fresh ids start past the largest.
    pub fn from_bodies(config: Config, collision_limit: i64, bodies: Vec<Body>) -> (r: Result<
        Simulation,
        SetupError,
    >)
        ensures
            r matches Err(SetupError::InvalidConfig) <==> !config.valid(),
            r matches Err(SetupError::InvalidBody) <==> config.valid() && exists|i: int|
                0 <= i < bodies@.len() && !admissible(#[trigger] bodies@[i], config),
            r matches Err(SetupError::DuplicateId) <==> config.valid() && (forall|i: int|
                0 <= i < bodies@.len() ==> admissible(#[trigger] bodies@[i], config)) && !ids_distinct(
                bodies@,
            ),
            r matches Ok(sim) ==> {
                &&& sim@.wf()
                &&& sim@.bodies == bodies@
                &&& sim@.config == config
                &&& sim@.collision_limit == collision_limit
                &&& sim@.next_id == id_bound(bodies@)
                &&& sim@.deaths_total == 0
            },
    {
        if !config.is_valid() {
            return Err(SetupError::InvalidConfig);
        }
        let n = bodies.len();
        let mut next_id: u64 = 0;
        let mut i: usize = 0;
        while i < n
            invariant
                config.valid(),
                n == bodies@.len(),
                i <= n,
                forall|q: int| 0 <= q < i ==> admissible(#[trigger] bodies@[q], config),
                next_id == id_bound(bodies@.take(i as int)),
            decreases n - i,
        {
            if !bodies[i].is_fit(&config) || bodies[i].id == u64::MAX {
                return Err(SetupError::InvalidBody);
            }
            if bodies[i].id >= next_id {
                next_id = bodies[i].id + 1;
            }
            proof {
                assert(bodies@.take(i + 1).drop_last() =~= bodies@.take(i as int));
            }
            i += 1;
        }
        proof {
            assert(bodies@.take(n as int) =~= bodies@);
            lemma_id_bound(bodies@);
        }
        let mut i: usize = 0;
        while i < n
            invariant
                config.valid(),
                forall|q: int| 0 <= q < n ==> admissible(#[trigger] bodies@[q], config),
                n == bodies@.len(),
                i <= n,
                forall|p: int, q: int|
                    0 <= p < i && 0 <= q < n && p != q ==> #[trigger] bodies@[p].id
                        != #[trigger] bodies@[q].id,
            decreases n - i,
        {
            let mut j: usize = 0;
            while j < n
                invariant
                    config.valid(),
                    forall|q: int| 0 <= q < n ==> admissible(#[trigger] bodies@[q], config),
                    n == bodies@.len(),
                    i < n,
                    j <= n,
                    forall|p: int, q: int|
                        0 <= p < i && 0 <= q < n && p != q ==> #[trigger] bodies@[p].id
                            != #[trigger] bodies@[q].id,
                    forall|q: int| 0 <= q < j && q != i ==> bodies@[i as int].id != #[trigger] bodies@[q].id,
                decreases n - j,
            {
                if j != i && bodies[i].id == bodies[j].id {
                    return Err(SetupError::DuplicateId);
                }
                j += 1;
            }
            i += 1;
        }
        Ok(Simulation { bodies, config, collision_limit, next_id, deaths_total: 0 })
    }

    pub fn population_size(&self) -> (r: usize)
        ensures
            r == self@.population(),
    {
        self.bodies.len()
    }

    pub fn bodies(&self) -> (r: &Vec<Body>)
        ensures
            r@ == self@.bodies,
    {
        &self.bodies
    }

    pub fn config(&self) -> (r: Config)
        ensures
            r == self@.config,
    {
        self.config
    }

    pub fn collision_limit(&self) -> (r: i64)
        ensures
            r == self@.collision_limit,
    {
        self.collision_limit
    }

    pub fn deaths_total(&self) -> (r: u64)
        ensures
            r == self@.deaths_total,
    {
        self.deaths_total
    }
}

fn draws_fit_exec_n(draws: &Vec<Draw>, n: usize, c: &Config) -> (r: bool)
    ensures
        r == draws_fit(draws@, n as nat, *c),
{
    if draws.len() != n {
        return false;
    }
    draws_fit_exec(draws, c)
}

fn draws_fit_exec(draws: &Vec<Draw>, c: &Config) -> (r: bool)
    ensures
        r == draws_fit(draws@, draws@.len(), *c),
{
    let mut i: usize = 0;
    while i < draws.len()
        invariant
            i <= draws@.len(),
            forall|q: int| 0 <= q < i ==> #[trigger] draws@[q].within(*c),
        decreases draws@.len() - i,
    {
        if !draws[i].is_within(c) {
            return false;
        }
        i += 1;
    }
    true
}

} // verus!
