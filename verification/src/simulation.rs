//! The simulation: a trail field, the agents on it, their steering
//! parameters, a clock and a source of random draws, advanced tick by tick.

use vstd::prelude::*;
use crate::agent::{Agent, AgentModel, MAX_ELAPSED};
use crate::clock::{bound_elapsed, bounded_elapsed, SimulationClock, MIN_ELAPSED};
use crate::config::SteeringConfig;
use crate::field::{Grid, TrailField, MAX_EXTENT};
use crate::random::RandomSource;

verus! {

/// The mathematical model of a simulation: what a tick reads and changes.
pub struct SimulationModel {
    pub grid: Grid,
    pub agents: Seq<AgentModel>,
    pub config: SteeringConfig,
}

impl SimulationModel {
    /// The grid and the parameters are well formed, there is at least one
    /// agent, and every agent lies within the domain and has a unit
    /// heading.
    pub open spec fn wf(self) -> bool {
        &&& self.grid.wf()
        &&& self.config.wf()
        &&& self.agents.len() >= 1
        &&& forall|i: int|
            0 <= i < self.agents.len() ==> (#[trigger] self.agents[i]).wf(self.grid)
    }

    /// The simulation after the decay pass that opens a tick.
    pub open spec fn decayed(self) -> SimulationModel {
        SimulationModel {
            grid: self.grid.decayed(self.config.evaporation as int),
            agents: self.agents,
            config: self.config,
        }
    }

    /// The simulation after its first `n` agents have stepped, one after
    /// the other, each over the grid as the agents before it left it, and
    /// the `i`-th with the `i`-th of `draws`.
    pub open spec fn stepped(self, elapsed: int, draws: Seq<u32>, n: int) -> SimulationModel
        decreases n,
    {
        if n <= 0 {
            self
        } else {
            let before = self.stepped(elapsed, draws, n - 1);
            let agent = before.agents[n - 1];
            let draw = draws[n - 1] as int;
            SimulationModel {
                grid: agent.marked(before.grid, self.config, elapsed, draw),
                agents: before.agents.update(
                    n - 1,
                    agent.stepped(before.grid, self.config, elapsed, draw),
                ),
                config: self.config,
            }
        }
    }

    /// The simulation after a tick of `elapsed` seconds: the field decays,
    /// then every agent steps.
    pub open spec fn ticked(self, elapsed: int, draws: Seq<u32>) -> SimulationModel {
        self.decayed().stepped(elapsed, draws, self.agents.len() as int)
    }

    /// Every agent is one that three draws scatter over the grid.
    pub open spec fn scattered(self) -> bool {
        forall|i: int| 0 <= i < self.agents.len() ==> is_scattered(#[trigger] self.agents[i], self.grid)
    }
}

/// While the agents step, the simulation stays well formed: the grid keeps
/// its size, the number of agents stays the same, every agent lies within
/// the domain and every heading is a unit vector.
pub proof fn lemma_stepped_preserves_wf(s: SimulationModel, elapsed: int, draws: Seq<u32>, n: int)
    requires
        s.wf(),
        n <= s.agents.len(),
    ensures
        s.stepped(elapsed, draws, n).wf(),
        s.stepped(elapsed, draws, n).agents.len() == s.agents.len(),
        s.stepped(elapsed, draws, n).grid.width == s.grid.width,
        s.stepped(elapsed, draws, n).grid.height == s.grid.height,
        s.stepped(elapsed, draws, n).config == s.config,
    decreases n,
{
    if n > 0 {
        lemma_stepped_preserves_wf(s, elapsed, draws, n - 1);
        let before = s.stepped(elapsed, draws, n - 1);
        let after = s.stepped(elapsed, draws, n);
        let agent = before.agents[n - 1];
        crate::agent::lemma_step_preserves_wf(
            agent,
            before.grid,
            s.config,
            elapsed,
            draws[n - 1] as int,
        );
        assert forall|i: int| 0 <= i < after.agents.len() implies (#[trigger] after.agents[i]).wf(
            after.grid,
        ) by {
            if i != n - 1 {
                assert(after.agents[i] == before.agents[i]);
                assert(before.agents[i].wf(before.grid));
            }
        }
    }
}

/// A tick keeps the simulation well formed, whatever the elapsed time and
/// the draws: every intensity stays within its range, every agent within
/// the domain, and every heading a unit vector; the number of agents and
/// the size of the field do not change.
pub proof fn lemma_tick_preserves_wf(s: SimulationModel, elapsed: int, draws: Seq<u32>)
    requires
        s.wf(),
    ensures
        s.ticked(elapsed, draws).wf(),
        s.ticked(elapsed, draws).grid.in_range(),
        s.ticked(elapsed, draws).agents.len() == s.agents.len(),
        s.ticked(elapsed, draws).grid.width == s.grid.width,
        s.ticked(elapsed, draws).grid.height == s.grid.height,
        s.ticked(elapsed, draws).config == s.config,
{
    crate::field::lemma_decay_bounded(s.grid, s.config.evaporation as int, 255);
    let d = s.decayed();
    assert forall|i: int| 0 <= i < d.agents.len() implies (#[trigger] d.agents[i]).wf(d.grid) by {
        assert(s.agents[i].wf(s.grid));
    }
    lemma_stepped_preserves_wf(d, elapsed, draws, s.agents.len() as int);
}

/// `agent` is one that three draws scatter over `g`.
pub open spec fn is_scattered(agent: AgentModel, g: Grid) -> bool {
    exists|a: int, b: int, c: int| agent == #[trigger] AgentModel::scattered(g, a, b, c)
}

/// A running simulation.
pub struct Simulation {
    field: TrailField,
    agents: Vec<Agent>,
    config: SteeringConfig,
    clock: SimulationClock,
    random: RandomSource,
}

impl View for Simulation {
    type V = SimulationModel;

    closed spec fn view(&self) -> SimulationModel {
        SimulationModel {
            grid: self.field@,
            agents: Seq::new(self.agents@.len(), |i: int| self.agents@[i]@),
            config: self.config,
        }
    }
}

impl Simulation {
    /// The simulation is well formed: see `SimulationModel::wf`.
    pub open spec fn wf(&self) -> bool {
        self@.wf()
    }

    /// A simulation on a blank field of `width` by `height` cells, with
    /// `agent_count` agents scattered about its centre by the random stream
    /// that the seed selects.
    pub fn construct(
        width: usize,
        height: usize,
        agent_count: usize,
        config: SteeringConfig,
        seed: (u64, u64),
    ) -> (sim: Simulation)
        requires
            1 <= width <= MAX_EXTENT,
            1 <= height <= MAX_EXTENT,
            1 <= agent_count,
            config.wf(),
        ensures
            sim.wf(),
            sim@.grid == Grid::blank(width as int, height as int),
            sim@.agents.len() == agent_count,
            sim@.config == config,
            sim@.scattered(),
    {
        let field = TrailField::new(width, height);
        let mut random = RandomSource::seeded(seed.0, seed.1);
        let mut agents: Vec<Agent> = Vec::new();
        let mut i: usize = 0;
        while i < agent_count
            invariant
                i <= agent_count,
                agents@.len() == i,
                field.wf(),
                forall|k: int| 0 <= k < i ==> (#[trigger] agents@[k])@.wf(field@),
                forall|k: int| 0 <= k < i ==> is_scattered((#[trigger] agents@[k])@, field@),
            decreases agent_count - i,
        {
            let turn_draw: u32 = random.next_draw();
            let x_draw: u32 = random.next_draw();
            let y_draw: u32 = random.next_draw();
            let agent = Agent::scattered(&field, turn_draw, x_draw, y_draw);
            assert(is_scattered(agent@, field@));
            agents.push(agent);
            i += 1;
        }
        let sim = Simulation { field, agents, config, clock: SimulationClock::start(), random };
        proof {
            assert forall|k: int| 0 <= k < sim@.agents.len() implies is_scattered(
                #[trigger] sim@.agents[k],
                sim@.grid,
            ) by {
                assert(sim@.agents[k] == sim.agents@[k]@);
            }
        }
        sim
    }

    /// Whether every agent of `agents` lies within the domain of `field`
    /// and has a unit heading.
    pub fn all_valid(field: &TrailField, agents: &Vec<Agent>) -> (ok: bool)
        requires
            field.wf(),
        ensures
            ok == (forall|i: int| 0 <= i < agents@.len() ==> (#[trigger] agents@[i])@.wf(field@)),
    {
        let w: i64 = (field.width() as i64) * 65536;
        let h: i64 = (field.height() as i64) * 65536;
        let mut i: usize = 0;
        while i < agents.len()
            invariant
                i <= agents@.len(),
                field.wf(),
                w == field@.width * 65536,
                h == field@.height * 65536,
                forall|k: int| 0 <= k < i ==> (#[trigger] agents@[k])@.wf(field@),
            decreases agents@.len() - i,
        {
            let a = agents[i];
            if !(0 <= a.position.x && a.position.x <= w && 0 <= a.position.y && a.position.y <= h
                && a.heading.is_unit()) {
                assert(!agents@[i as int]@.wf(field@));
                return false;
            }
            i += 1;
        }
        true
    }

    /// A simulation on a blank field of `width` by `height` cells, with the
    /// agents given.
    pub fn with_agents(
        width: usize,
        height: usize,
        agents: Vec<Agent>,
        config: SteeringConfig,
        seed: (u64, u64),
    ) -> (sim: Simulation)
        requires
            1 <= width <= MAX_EXTENT,
            1 <= height <= MAX_EXTENT,
            1 <= agents@.len(),
            config.wf(),
            forall|i: int|
                0 <= i < agents@.len() ==> (#[trigger] agents@[i])@.wf(
                    Grid::blank(width as int, height as int),
                ),
        ensures
            sim.wf(),
            sim@.grid == Grid::blank(width as int, height as int),
            sim@.agents == Seq::new(agents@.len(), |i: int| agents@[i]@),
            sim@.config == config,
    {
        let field = TrailField::new(width, height);
        let random = RandomSource::seeded(seed.0, seed.1);
        Simulation { field, agents, config, clock: SimulationClock::start(), random }
    }

    /// The trail field as the last tick left it, for reading.
    pub fn field_snapshot(&self) -> (field: &TrailField)
        ensures
            field@ == self@.grid,
    {
        &self.field
    }

    /// The agents as the last tick left them, for reading.
    pub fn agents(&self) -> (agents: &Vec<Agent>)
        ensures
            self@.agents == Seq::new(agents@.len(), |i: int| agents@[i]@),
    {
        &self.agents
    }

    /// The steering parameters in force.
    pub fn config(&self) -> (config: SteeringConfig)
        ensures
            config == self@.config,
    {
        self.config
    }

    /// Replaces the steering parameters as a whole.
    pub fn update_config(&mut self, config: SteeringConfig)
        requires
            old(self).wf(),
            config.wf(),
        ensures
            final(self).wf(),
            final(self)@.config == config,
            final(self)@.grid == old(self)@.grid,
            final(self)@.agents == old(self)@.agents,
    {
        self.config = config;
    }

    /// One tick of `elapsed` seconds, held between the shortest and the
    /// longest span of a step, in which the `i`-th agent wanders as the
    /// `i`-th of `draws` selects: the field decays, then every agent steps
    /// in turn, each over the field as the agents before it left it.
    pub fn tick_with(&mut self, elapsed: i64, draws: &Vec<u32>)
        requires
            old(self).wf(),
            draws@.len() == old(self)@.agents.len(),
        ensures
            final(self).wf(),
            final(self)@ == old(self)@.ticked(bounded_elapsed(elapsed as int), draws@),
            final(self)@.grid.in_range(),
            final(self)@.agents.len() == old(self)@.agents.len(),
            final(self)@.grid.width == old(self)@.grid.width,
            final(self)@.grid.height == old(self)@.grid.height,
            final(self)@.config == old(self)@.config,
    {
        let elapsed: i64 = bound_elapsed(elapsed);
        proof {
            crate::field::lemma_decay_bounded(
                self@.grid,
                self.config.evaporation as int,
                255,
            );
        }
        self.field.decay(self.config.evaporation);
        let n: usize = self.agents.len();
        let ghost start = self@;
        proof {
            assert(start =~= old(self)@.decayed());
            assert forall|k: int| 0 <= k < n implies (#[trigger] self.agents@[k])@.wf(
                self.field@,
            ) by {
                assert(old(self)@.agents[k] == self.agents@[k]@);
            }
        }
        let mut i: usize = 0;
        while i < n
            invariant
                i <= n,
                n == self.agents@.len(),
                n == draws@.len(),
                n >= 1,
                MIN_ELAPSED <= elapsed <= MAX_ELAPSED,
                self.config == start.config,
                self.config.wf(),
                self.field.wf(),
                self.field@.width == start.grid.width,
                self.field@.height == start.grid.height,
                forall|k: int| 0 <= k < n ==> (#[trigger] self.agents@[k])@.wf(self.field@),
                self@ == start.stepped(elapsed as int, draws@, i as int),
            decreases n - i,
        {
            let ghost before = self@;
            let mut agent: Agent = self.agents[i];
            agent.step(&mut self.field, &self.config, elapsed, draws[i]);
            self.agents[i] = agent;
            i += 1;
            proof {
                assert(self@.agents =~= before.agents.update(i - 1, agent@));
                assert(self@ == start.stepped(elapsed as int, draws@, i as int));
            }
        }
        proof {
            assert forall|k: int| 0 <= k < self@.agents.len() implies (#[trigger] self@.agents[k]).wf(
                self@.grid,
            ) by {
                assert(self@.agents[k] == self.agents@[k]@);
            }
        }
    }

    /// One tick: the field decays, then every agent steps in turn, each
    /// with a fresh draw from the simulation's random stream.  The tick
    /// spans `elapsed_hint` seconds where a hint is given, else the time
    /// since the last tick ended; either is held between the shortest and
    /// the longest span of a step.
    pub fn tick(&mut self, elapsed_hint: Option<i64>)
        requires
            old(self).wf(),
        ensures
            final(self).wf(),
            final(self)@.grid.in_range(),
            final(self)@.agents.len() == old(self)@.agents.len(),
            final(self)@.grid.width == old(self)@.grid.width,
            final(self)@.grid.height == old(self)@.grid.height,
            final(self)@.config == old(self)@.config,
            exists|elapsed: int, draws: Seq<u32>|
                {
                    &&& MIN_ELAPSED <= elapsed <= MAX_ELAPSED
                    &&& elapsed_hint matches Some(hint) ==> elapsed == bounded_elapsed(hint as int)
                    &&& draws.len() == old(self)@.agents.len()
                    &&& final(self)@ == #[trigger] old(self)@.ticked(elapsed, draws)
                },
    {
        let elapsed: i64 = match elapsed_hint {
            Some(hint) => bound_elapsed(hint),
            None => self.clock.elapsed(),
        };
        let draws: Vec<u32> = self.random.draws(self.agents.len());
        self.tick_with(elapsed, &draws);
        self.clock.mark();
        assert(final(self)@ == old(self)@.ticked(elapsed as int, draws@));
    }
}

} // verus!
