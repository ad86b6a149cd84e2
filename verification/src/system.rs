//! The simulation: particles, velocity grid and occupancy field under one
//! run/pause switch, advanced one frame at a time.

use vstd::prelude::*;
use vstd::arithmetic::div_mod::lemma_fundamental_div_mod;
use vstd::arithmetic::div_mod::lemma_mod_bound;
use vstd::arithmetic::div_mod::lemma_mod_multiples_basic;
use crate::config::Config;
use crate::config::ConfigError;
use crate::integrate::lemma_step_ends_inside;
use crate::integrate::step_all;
use crate::integrate::stepped_particle;
use crate::integrate::stepped;
use crate::occupancy::lemma_visited_step;
use crate::occupancy::marked;
use crate::occupancy::pixel_of;
use crate::occupancy::pixel_under;
use crate::occupancy::visited;
use crate::particle::Particle;
use crate::random::random_in;
use crate::scalar::UNIT;
use crate::state::State;
use crate::transfer::gather;
use crate::transfer::gathered;
use crate::transfer::scatter;
use crate::transfer::scattered_grid;

verus! {

/// The mathematical content of a simulation.
pub struct SystemView {
    pub config: Config,
    pub particles: Seq<Particle>,
    pub velocity: Seq<(i64, i64)>,
    pub cells: Seq<bool>,
    pub state: State,
}

/// Fewest pixels per unit of time that a seeded particle moves sideways.
pub const MIN_SEED_DRIFT: i32 = -100;

/// The horizontal speed, in pixels per unit of time, that no seeded particle
/// reaches.
pub const END_SEED_DRIFT: i32 = 100;

impl SystemView {
    /// The sizes of the three stores fit the configuration, and the
    /// configuration can be simulated.
    pub open spec fn wf(self) -> bool {
        &&& self.config.valid()
        &&& self.particles.len() == self.config.num_particles
        &&& self.velocity.len() == self.config.grid_len()
        &&& self.cells.len() == self.config.pixel_count()
    }

    /// A simulation that has not run yet: the grid is at rest and no pixel
    /// has been visited.
    pub open spec fn initial(config: Config, particles: Seq<Particle>) -> SystemView {
        SystemView {
            config,
            particles,
            velocity: Seq::new(config.grid_len() as nat, |c: int| (0i64, 0i64)),
            cells: Seq::new(config.pixel_count() as nat, |i: int| false),
            state: config.initial_state,
        }
    }

    /// Whether a particle may come out of random seeding: it sits on a pixel
    /// of the playground, does not move vertically, and moves sideways at a
    /// whole number of pixels per unit of time, from `MIN_SEED_DRIFT` up to
    /// but not including `END_SEED_DRIFT`.
    pub open spec fn seeded(config: Config, p: Particle) -> bool {
        &&& p.pos.0 as int % (UNIT as int) == 0
        &&& p.pos.1 as int % (UNIT as int) == 0
        &&& p.vel.0 as int % (UNIT as int) == 0
        &&& 0 <= p.pos.0 < config.playground_width * UNIT
        &&& 0 <= p.pos.1 < config.playground_height * UNIT
        &&& MIN_SEED_DRIFT * UNIT <= p.vel.0 < END_SEED_DRIFT * UNIT
        &&& p.vel.1 == 0
    }

    /// The first reason, if any, for which no simulation can be made of a
    /// configuration and `count` particles.
    pub open spec fn construction_fault(config: Config, count: int) -> Option<ConfigError> {
        match config.fault() {
            Some(e) => Some(e),
            None => if count != config.num_particles {
                Some(ConfigError::ParticleCount)
            } else {
                None
            },
        }
    }

    /// The flag of the pixel `(x, y)`, or nothing where the playground has no
    /// such pixel.
    pub open spec fn occupancy(self, x: int, y: int) -> Option<bool> {
        if self.config.in_playground(x, y) {
            Some(self.cells[self.config.pixel_index(x, y)])
        } else {
            None
        }
    }

    /// The velocity sample of the grid node `(i, j)`, or zero where the grid
    /// has no such node.
    pub open spec fn velocity_at(self, i: int, j: int) -> (i64, i64) {
        if self.config.in_grid((i, j)) {
            self.velocity[self.config.cell_index((i, j))]
        } else {
            (0i64, 0i64)
        }
    }

    /// The simulation with the run/pause switch flipped.
    pub open spec fn toggled(self) -> SystemView {
        SystemView { state: self.state.flipped(), ..self }
    }

    /// The simulation after the scatter pass: the grid is overwritten with
    /// what the particles splat onto it.
    pub open spec fn scattered(self) -> SystemView {
        SystemView { velocity: scattered_grid(self.config, self.particles), ..self }
    }

    /// The simulation after the gather pass that follows a scatter pass on
    /// the grid `before`.
    pub open spec fn gathered(self, before: Seq<(i64, i64)>) -> SystemView {
        SystemView {
            particles: gathered(self.config, self.particles, self.velocity, before),
            ..self
        }
    }

    /// The simulation after every particle has moved by one time step.
    pub open spec fn stepped(self) -> SystemView {
        SystemView { particles: stepped(self.config, self.particles), ..self }
    }

    /// The simulation after the pixels under the particles are set.
    pub open spec fn marked(self) -> SystemView {
        SystemView { cells: marked(self.config, self.cells, self.particles), ..self }
    }

    /// The simulation one frame later. A paused simulation stays as it is; a
    /// running one scatters, gathers against the grid from before the
    /// scatter, steps, and marks the pixels reached.
    pub open spec fn updated(self) -> SystemView {
        if self.state == State::Paused {
            self
        } else {
            self.scattered().gathered(self.velocity).stepped().marked()
        }
    }

    /// A frame keeps the stores at their sizes and the configuration as it
    /// is.
    pub proof fn lemma_update_keeps_shape(self)
        requires
            self.wf(),
        ensures
            self.updated().wf(),
            self.updated().config == self.config,
            self.updated().state == self.state,
    {
    }

    /// Flipping the switch twice gives back the simulation as it was.
    pub proof fn lemma_toggle_twice(self)
        ensures
            self.toggled().toggled() == self,
    {
    }

    /// A paused simulation does not change in a frame.
    pub proof fn lemma_paused_update_changes_nothing(self)
        requires
            self.state == State::Paused,
        ensures
            self.updated() == self,
    {
    }

    /// The scatter pass overwrites the grid: what it leaves does not depend
    /// on the grid before, so a second pass over the same particles leaves
    /// the same grid again.
    pub proof fn lemma_scatter_overwrites(self, grid: Seq<(i64, i64)>)
        ensures
            (SystemView { velocity: grid, ..self }).scattered() == self.scattered(),
            self.scattered().scattered() == self.scattered(),
            self.scattered().particles == self.particles,
    {
    }

    /// Nothing lies outside the playground, and the simulation never clears
    /// a pixel: one that is set stays set over any frame.
    pub proof fn lemma_occupancy_is_monotonic(self, x: int, y: int)
        requires
            self.wf(),
        ensures
            !self.config.in_playground(x, y) ==> self.updated().occupancy(x, y) is None,
            self.occupancy(x, y) == Some(true) ==> self.updated().occupancy(x, y) == Some(true),
    {
        if self.occupancy(x, y) == Some(true) {
            let i = self.config.pixel_index(x, y);
            assert(0 <= i < self.cells.len()) by (nonlinear_arith)
                requires
                    0 <= x < self.config.playground_width,
                    0 <= y < self.config.playground_height,
                    i == x + y * self.config.playground_width,
                    self.cells.len() == self.config.playground_width
                        * self.config.playground_height,
            ;
        }
    }

    /// After a frame of a running simulation every particle lies in the
    /// playground, and the pixel under it is set.
    pub proof fn lemma_update_marks_every_particle(self, n: int)
        requires
            self.wf(),
            self.state == State::Running,
            0 <= n < self.particles.len(),
        ensures
            pixel_of(self.config, self.updated().particles[n]) is Some,
            self.updated().cells[pixel_of(self.config, self.updated().particles[n]).unwrap()],
    {
        let before = self.scattered().gathered(self.velocity);
        let after = self.updated();
        let p = after.particles[n];
        lemma_step_ends_inside(self.config, before.particles[n]);
        assert(p == stepped_particle(self.config, before.particles[n]));
        let x = p.pos.0 as int / (UNIT as int);
        let y = p.pos.1 as int / (UNIT as int);
        lemma_fundamental_div_mod(p.pos.0 as int, UNIT as int);
        lemma_fundamental_div_mod(p.pos.1 as int, UNIT as int);
        lemma_mod_bound(p.pos.0 as int, UNIT as int);
        lemma_mod_bound(p.pos.1 as int, UNIT as int);
        assert(self.config.in_playground(x, y));
        let i = self.config.pixel_index(x, y);
        assert(0 <= i < self.cells.len()) by (nonlinear_arith)
            requires
                0 <= x < self.config.playground_width,
                0 <= y < self.config.playground_height,
                i == x + y * self.config.playground_width,
                self.cells.len() == self.config.playground_width * self.config.playground_height,
        ;
        assert(visited(self.config, after.particles, i));
    }

    /// Outside the grid the velocity is zero.
    pub proof fn lemma_velocity_outside_grid(self, i: int, j: int)
        requires
            i >= self.config.width_cells() || j >= self.config.height_cells(),
        ensures
            self.velocity_at(i, j) == (0i64, 0i64),
    {
    }
}

/// A particle simulation.
pub struct PhysSystem {
    config: Config,
    particles: Vec<Particle>,
    velocity: Vec<(i64, i64)>,
    cells: Vec<bool>,
    state: State,
}

impl View for PhysSystem {
    type V = SystemView;

    closed spec fn view(&self) -> SystemView {
        SystemView {
            config: self.config,
            particles: self.particles@,
            velocity: self.velocity@,
            cells: self.cells@,
            state: self.state,
        }
    }
}

impl PhysSystem {
    #[verifier::type_invariant]
    spec fn inv(self) -> bool {
        self@.wf()
    }

    /// A simulation of the given particles that has not run yet.
    pub fn from_particles(config: Config, particles: Vec<Particle>) -> (r: Result<
        PhysSystem,
        ConfigError,
    >)
        ensures
            match r {
                Ok(sys) => SystemView::construction_fault(config, particles@.len() as int) is None
                    && sys@ == SystemView::initial(config, particles@) && sys@.wf(),
                Err(e) => SystemView::construction_fault(config, particles@.len() as int) == Some(
                    e,
                ),
            },
    {
        match config.check() {
            Err(e) => {
                return Err(e);
            },
            Ok(_) => {},
        }
        if particles.len() != config.num_particles as usize {
            return Err(ConfigError::ParticleCount);
        }
        proof {
            config.lemma_grid_shape();
        }
        let cells_len: usize = (config.playground_width as u64 * config.playground_height as u64) as usize;
        let grid_len: usize = (config.num_width_cells() as u64 * config.num_height_cells() as u64) as usize;
        let cells: Vec<bool> = vec![false; cells_len];
        let mut velocity: Vec<(i64, i64)> = Vec::new();
        let mut c: usize = 0;
        while c < grid_len
            invariant
                c <= grid_len,
                velocity@.len() == c,
                forall|i: int| 0 <= i < c ==> #[trigger] velocity@[i] == (0i64, 0i64),
            decreases grid_len - c,
        {
            velocity.push((0, 0));
            c += 1;
        }
        assert(velocity@ =~= SystemView::initial(config, particles@).velocity);
        assert(cells@ =~= SystemView::initial(config, particles@).cells);
        Ok(PhysSystem { config, particles, velocity, cells, state: config.initial_state })
    }

    /// A simulation with randomly seeded particles that has not run yet.
    pub fn new(config: Config) -> (r: Result<PhysSystem, ConfigError>)
        ensures
            match r {
                Ok(sys) => config.fault() is None && sys@ == SystemView::initial(
                    config,
                    sys@.particles,
                ) && sys@.wf() && forall|n: int|
                    0 <= n < sys@.particles.len() ==> SystemView::seeded(
                        config,
                        #[trigger] sys@.particles[n],
                    ),
                Err(e) => config.fault() == Some(e),
            },
    {
        match config.check() {
            Err(e) => {
                return Err(e);
            },
            Ok(_) => {},
        }
        let mut particles: Vec<Particle> = Vec::new();
        let mut n: u32 = 0;
        while n < config.num_particles
            invariant
                config.valid(),
                n <= config.num_particles,
                particles@.len() == n,
                forall|i: int|
                    0 <= i < n ==> SystemView::seeded(config, #[trigger] particles@[i]),
            decreases config.num_particles - n,
        {
            let x: i64 = random_in(0, config.playground_width as i64);
            let y: i64 = random_in(0, config.playground_height as i64);
            let drift: i64 = random_in(MIN_SEED_DRIFT as i64, END_SEED_DRIFT as i64);
            let p: Particle = Particle::at_pixel(x as u32, y as u32, drift as i32);
            proof {
                lemma_mod_multiples_basic(x as int, UNIT as int);
                lemma_mod_multiples_basic(y as int, UNIT as int);
                lemma_mod_multiples_basic(drift as int, UNIT as int);
            }
            particles.push(p);
            n += 1;
        }
        PhysSystem::from_particles(config, particles)
    }

    /// The configuration that the simulation was made with.
    pub fn config(&self) -> (c: Config)
        ensures
            c == self@.config,
            self@.wf(),
    {
        proof {
            use_type_invariant(self);
        }
        self.config
    }

    /// The flag of the pixel `(x, y)`, or nothing where the playground has no
    /// such pixel.
    pub fn get(&self, x: i32, y: i32) -> (r: Option<bool>)
        ensures
            r == self@.occupancy(x as int, y as int),
            !self@.config.in_playground(x as int, y as int) ==> r is None,
    {
        proof {
            use_type_invariant(self);
            self.config.lemma_grid_shape();
        }
        if x >= 0 && y >= 0 && (x as u32) < self.config.playground_width && (y as u32)
            < self.config.playground_height {
            proof {
                Self::lemma_pixel_in_range(self.config, x as int, y as int);
            }
            let index: usize = (x as u64 + y as u64 * self.config.playground_width as u64) as usize;
            Some(self.cells[index])
        } else {
            None
        }
    }

    /// The flag of the pixel `(x, y)`, to read and to write, or nothing
    /// where the playground has no such pixel.
    pub fn get_mut(&mut self, x: i32, y: i32) -> (r: Option<&mut bool>)
        ensures
            match r {
                Some(flag) => {
                    &&& old(self)@.occupancy(x as int, y as int) == Some(*flag)
                    &&& final(self)@ == (SystemView {
                        cells: old(self)@.cells.update(
                            old(self)@.config.pixel_index(x as int, y as int),
                            *final(flag),
                        ),
                        ..old(self)@
                    })
                },
                None => old(self)@.occupancy(x as int, y as int) is None && final(self)@ == old(
                    self,
                )@,
            },
    {
        proof {
            use_type_invariant(&*self);
            self.config.lemma_grid_shape();
        }
        if x >= 0 && y >= 0 && (x as u32) < self.config.playground_width && (y as u32)
            < self.config.playground_height {
            proof {
                Self::lemma_pixel_in_range(self.config, x as int, y as int);
            }
            let index: usize = (x as u64 + y as u64 * self.config.playground_width as u64) as usize;
            Some(&mut self.cells[index])
        } else {
            None
        }
    }

    proof fn lemma_pixel_in_range(config: Config, x: int, y: int)
        requires
            config.in_playground(x, y),
        ensures
            0 <= y * config.playground_width,
            0 <= config.pixel_index(x, y) < config.pixel_count(),
    {
        assert(0 <= y * config.playground_width && 0 <= x + y * config.playground_width
            < config.playground_width * config.playground_height) by (nonlinear_arith)
            requires
                0 <= x < config.playground_width,
                0 <= y < config.playground_height,
        ;
    }

    proof fn lemma_node_in_range(config: Config, i: int, j: int)
        requires
            config.in_grid((i, j)),
        ensures
            0 <= j * config.width_cells(),
            0 <= config.cell_index((i, j)) < config.grid_len(),
    {
        assert(0 <= j * config.width_cells() && 0 <= i + j * config.width_cells()
            < config.width_cells() * config.height_cells()) by (nonlinear_arith)
            requires
                0 <= i < config.width_cells(),
                0 <= j < config.height_cells(),
        ;
    }

    /// The velocity sample of the grid node `(x, y)`, or zero where the grid
    /// has no such node.
    pub fn get_vel(&self, x: u32, y: u32) -> (r: (i64, i64))
        ensures
            r == self@.velocity_at(x as int, y as int),
            x >= self@.config.width_cells() || y >= self@.config.height_cells() ==> r == (
                0i64,
                0i64,
            ),
    {
        proof {
            use_type_invariant(self);
            self.config.lemma_grid_shape();
        }
        let columns: u32 = self.config.num_width_cells();
        if x < columns && y < self.config.num_height_cells() {
            proof {
                Self::lemma_node_in_range(self.config, x as int, y as int);
            }
            let index: usize = (x as u64 + y as u64 * columns as u64) as usize;
            self.velocity[index]
        } else {
            (0, 0)
        }
    }

    /// Overwrites the velocity sample of the grid node `(x, y)`; does
    /// nothing where the grid has no such node.
    pub fn set_vel(&mut self, x: u32, y: u32, val: (i64, i64))
        ensures
            old(self)@.config.in_grid((x as int, y as int)) ==> final(self)@ == (SystemView {
                velocity: old(self)@.velocity.update(
                    old(self)@.config.cell_index((x as int, y as int)),
                    val,
                ),
                ..old(self)@
            }),
            !old(self)@.config.in_grid((x as int, y as int)) ==> final(self)@ == old(self)@,
            final(self)@.velocity_at(x as int, y as int) == if old(self)@.config.in_grid(
                (x as int, y as int),
            ) {
                val
            } else {
                (0i64, 0i64)
            },
    {
        proof {
            use_type_invariant(&*self);
            self.config.lemma_grid_shape();
        }
        let columns: u32 = self.config.num_width_cells();
        if x < columns && y < self.config.num_height_cells() {
            proof {
                Self::lemma_node_in_range(self.config, x as int, y as int);
            }
            let index: usize = (x as u64 + y as u64 * columns as u64) as usize;
            self.velocity[index] = val;
        }
    }

    /// A copy of the particles as they are now.
    pub fn particles(&self) -> (r: Vec<Particle>)
        ensures
            r@ == self@.particles,
    {
        let count: usize = self.particles.len();
        let mut copy: Vec<Particle> = Vec::new();
        let mut n: usize = 0;
        while n < count
            invariant
                n <= count,
                count == self.particles@.len(),
                copy@.len() == n,
                forall|i: int| 0 <= i < n ==> #[trigger] copy@[i] == self.particles@[i],
            decreases count - n,
        {
            copy.push(self.particles[n]);
            n += 1;
        }
        assert(copy@ =~= self.particles@);
        copy
    }

    /// The occupancy field, row by row.
    pub fn cells(&self) -> (r: &Vec<bool>)
        ensures
            r@ == self@.cells,
    {
        &self.cells
    }

    /// Whether the simulation is running or paused.
    pub fn state(&self) -> (s: State)
        ensures
            s == self@.state,
    {
        self.state
    }

    /// Flips the run/pause switch. Nothing else changes.
    pub fn toggle_state(&mut self)
        ensures
            final(self)@ == old(self)@.toggled(),
    {
        proof {
            use_type_invariant(&*self);
        }
        self.state = self.state.toggled();
    }

    /// Advances every particle by one time step.
    pub fn step(&mut self)
        ensures
            final(self)@ == old(self)@.stepped(),
    {
        proof {
            use_type_invariant(&*self);
        }
        let moved: Vec<Particle> = step_all(&self.config, &self.particles);
        self.particles = moved;
    }

    /// The scatter pass: overwrites the grid with what the particles splat
    /// onto it, and hands back the grid as it was before.
    pub fn particles_to_grid(&mut self) -> (before: Vec<(i64, i64)>)
        ensures
            before@ == old(self)@.velocity,
            final(self)@ == old(self)@.scattered(),
    {
        proof {
            use_type_invariant(&*self);
        }
        let grid: Vec<(i64, i64)> = scatter(&self.config, &self.particles);
        let before: Vec<(i64, i64)> = copy_grid(&self.velocity);
        self.velocity = grid;
        before
    }

    /// The gather pass: every particle's velocity grows by the change of the
    /// grid since `old_grid`, interpolated at the particle.
    pub fn grid_to_particles(&mut self, old_grid: &Vec<(i64, i64)>)
        requires
            old_grid@.len() == old(self)@.velocity.len(),
        ensures
            final(self)@ == old(self)@.gathered(old_grid@),
    {
        proof {
            use_type_invariant(&*self);
        }
        let moved: Vec<Particle> = gather(&self.config, &self.particles, &self.velocity, old_grid);
        self.particles = moved;
    }

    /// The place in a frame where the grid would be made free of
    /// divergence. Nothing is enforced: the simulation stays as it is.
    pub fn enforce_incompressibility(&mut self, _old_grid: &Vec<(i64, i64)>)
        ensures
            final(self)@ == old(self)@,
    {
    }

    /// Sets the pixels that the particles lie on.
    fn mark_cells(&mut self)
        ensures
            final(self)@ == old(self)@.marked(),
    {
        proof {
            use_type_invariant(&*self);
        }
        let count: usize = self.particles.len();
        let mut n: usize = 0;
        assert(self.cells@ =~= marked(self.config, old(self).cells@, self.particles@.take(0))) by {
            assert forall|i: int| !visited(self.config, self.particles@.take(0), i) by {}
        }
        while n < count
            invariant
                self.inv(),
                n <= count,
                count == self.particles@.len(),
                self.config == old(self).config,
                self.particles == old(self).particles,
                self.velocity == old(self).velocity,
                self.state == old(self).state,
                self.cells@ == marked(
                    self.config,
                    old(self).cells@,
                    self.particles@.take(n as int),
                ),
            decreases count - n,
        {
            let ghost before = self.cells@;
            let at: Option<usize> = pixel_under(&self.config, self.particles[n]);
            match at {
                Some(index) => {
                    self.cells[index] = true;
                },
                None => {},
            }
            proof {
                assert forall|i: int| 0 <= i < self.cells@.len() implies self.cells@[i] == (old(
                    self,
                ).cells@[i] || visited(self.config, self.particles@.take(n + 1), i)) by {
                    lemma_visited_step(self.config, self.particles@, n as int, i);
                }
                assert(self.cells@ =~= marked(
                    self.config,
                    old(self).cells@,
                    self.particles@.take(n + 1),
                ));
            }
            n += 1;
        }
        assert(self.particles@.take(count as int) =~= self.particles@);
    }

    /// Advances the simulation by one frame, unless it is paused.
    pub fn update(&mut self)
        ensures
            final(self)@ == old(self)@.updated(),
    {
        proof {
            use_type_invariant(&*self);
        }
        if self.state == State::Paused {
            return ;
        }
        let before: Vec<(i64, i64)> = self.particles_to_grid();
        self.enforce_incompressibility(&before);
        self.grid_to_particles(&before);
        self.step();
        self.mark_cells();
    }
}

/// A copy of a grid.
fn copy_grid(grid: &Vec<(i64, i64)>) -> (copy: Vec<(i64, i64)>)
    ensures
        copy@ == grid@,
{
    let count: usize = grid.len();
    let mut copy: Vec<(i64, i64)> = Vec::new();
    let mut n: usize = 0;
    while n < count
        invariant
            n <= count,
            count == grid@.len(),
            copy@.len() == n,
            forall|i: int| 0 <= i < n ==> #[trigger] copy@[i] == grid@[i],
        decreases count - n,
    {
        copy.push(grid[n]);
        n += 1;
    }
    assert(copy@ =~= grid@);
    copy
}

} // verus!
