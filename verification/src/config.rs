//! The configuration of a simulation and the grid geometry that follows
//! from it.

use vstd::prelude::*;
use crate::scalar::UNIT;
use crate::state::State;

verus! {

/// Why a configuration cannot be simulated.
#[derive(Copy, Clone, Debug, PartialEq, Eq, Structural)]
pub enum ConfigError {
    /// The cell size is zero.
    ZeroCellSize,
    /// The playground has no width or no height.
    EmptyDomain,
    /// The cell size does not divide the width and the height evenly.
    NotDivisible,
    /// The playground has more pixels than can be addressed.
    TooLarge,
    /// The number of particles handed over differs from the configured one.
    ParticleCount,
}

/// Everything that is fixed for the lifetime of a simulation.
///
/// Lengths are in pixels; `timestep`, `gravity` and `damping` are scalars.
#[derive(Copy, Clone, Debug, PartialEq, Eq, Structural)]
pub struct Config {
    pub playground_width: u32,
    pub playground_height: u32,
    pub cell_size: u32,
    pub num_particles: u32,
    pub timestep: i64,
    pub gravity: i64,
    pub damping: i64,
    pub initial_state: State,
}

impl Config {
    /// The first reason, if any, for which this configuration is refused.
    pub open spec fn fault(self) -> Option<ConfigError> {
        if self.cell_size == 0 {
            Some(ConfigError::ZeroCellSize)
        } else if self.playground_width == 0 || self.playground_height == 0 {
            Some(ConfigError::EmptyDomain)
        } else if self.playground_width % self.cell_size != 0 || self.playground_height
            % self.cell_size != 0 {
            Some(ConfigError::NotDivisible)
        } else if self.playground_width * self.playground_height > usize::MAX {
            Some(ConfigError::TooLarge)
        } else {
            None
        }
    }

    /// A configuration that can be simulated.
    pub open spec fn valid(self) -> bool {
        self.fault() is None
    }

    /// Every cell size that divides a playground with pixels is accepted, as
    /// long as the pixels can be addressed.
    pub proof fn lemma_divisible_is_valid(self)
        requires
            self.cell_size > 0,
            self.playground_width > 0,
            self.playground_height > 0,
            self.playground_width % self.cell_size == 0,
            self.playground_height % self.cell_size == 0,
            self.playground_width * self.playground_height <= usize::MAX,
        ensures
            self.valid(),
    {
    }

    /// Number of grid columns.
    pub open spec fn width_cells(self) -> int {
        self.playground_width as int / self.cell_size as int
    }

    /// Number of grid rows.
    pub open spec fn height_cells(self) -> int {
        self.playground_height as int / self.cell_size as int
    }

    /// Number of velocity samples in the grid.
    pub open spec fn grid_len(self) -> int {
        self.width_cells() * self.height_cells()
    }

    /// Number of pixels in the playground.
    pub open spec fn pixel_count(self) -> int {
        self.playground_width * self.playground_height
    }

    /// The edge of a grid cell, as a scalar.
    pub open spec fn cell_span(self) -> int {
        self.cell_size * UNIT
    }

    /// Whether the grid has a node with these coordinates.
    pub open spec fn in_grid(self, node: (int, int)) -> bool {
        0 <= node.0 < self.width_cells() && 0 <= node.1 < self.height_cells()
    }

    /// The place of a node's sample in the row-major grid.
    pub open spec fn cell_index(self, node: (int, int)) -> int {
        node.0 + node.1 * self.width_cells()
    }

    /// Whether the playground has a pixel with these coordinates.
    pub open spec fn in_playground(self, x: int, y: int) -> bool {
        0 <= x < self.playground_width && 0 <= y < self.playground_height
    }

    /// The place of a pixel in the row-major occupancy field.
    pub open spec fn pixel_index(self, x: int, y: int) -> int {
        x + y * self.playground_width
    }

    /// Checks the configuration, reporting the first fault found.
    pub fn check(&self) -> (r: Result<(), ConfigError>)
        ensures
            r == match self.fault() {
                Some(e) => Err::<(), ConfigError>(e),
                None => Ok::<(), ConfigError>(()),
            },
    {
        if self.cell_size == 0 {
            return Err(ConfigError::ZeroCellSize);
        }
        if self.playground_width == 0 || self.playground_height == 0 {
            return Err(ConfigError::EmptyDomain);
        }
        if self.playground_width % self.cell_size != 0 || self.playground_height % self.cell_size
            != 0 {
            return Err(ConfigError::NotDivisible);
        }
        assert(self.playground_width * self.playground_height <= 0xffff_ffff * 0xffff_ffff)
            by (nonlinear_arith)
            requires
                self.playground_width <= 0xffff_ffff,
                self.playground_height <= 0xffff_ffff,
        ;
        let pixels: u64 = self.playground_width as u64 * self.playground_height as u64;
        if pixels > usize::MAX as u64 {
            return Err(ConfigError::TooLarge);
        }
        Ok(())
    }

    /// Number of grid columns.
    pub fn num_width_cells(&self) -> (n: u32)
        requires
            self.cell_size > 0,
        ensures
            n == self.width_cells(),
    {
        self.playground_width / self.cell_size
    }

    /// Number of grid rows.
    pub fn num_height_cells(&self) -> (n: u32)
        requires
            self.cell_size > 0,
        ensures
            n == self.height_cells(),
    {
        self.playground_height / self.cell_size
    }

    /// Whether the grid has a node with these coordinates.
    pub fn exists_in_vel_grid(&self, node: (i64, i64)) -> (r: bool)
        requires
            self.cell_size > 0,
        ensures
            r == self.in_grid((node.0 as int, node.1 as int)),
    {
        0 <= node.0 && node.0 < self.num_width_cells() as i64 && 0 <= node.1 && node.1
            < self.num_height_cells() as i64
    }

    /// In a valid configuration the grid is not empty, its rows tile the
    /// playground exactly, and every node in the grid has its own index.
    pub proof fn lemma_grid_shape(self)
        requires
            self.valid(),
        ensures
            1 <= self.width_cells() <= self.playground_width,
            1 <= self.height_cells() <= self.playground_height,
            self.width_cells() * self.cell_size == self.playground_width,
            self.height_cells() * self.cell_size == self.playground_height,
            1 <= self.grid_len() <= self.pixel_count() <= usize::MAX,
            1_000_000 <= self.cell_span() <= 4_294_967_295_000_000,
            forall|node: (int, int)| #[trigger]
                self.in_grid(node) ==> 0 <= self.cell_index(node) < self.grid_len(),
            forall|a: (int, int), b: (int, int)|
                self.in_grid(a) && self.in_grid(b) && #[trigger] self.cell_index(a)
                    == #[trigger] self.cell_index(b) ==> a == b,
    {
        let w = self.playground_width as int;
        let h = self.playground_height as int;
        let c = self.cell_size as int;
        let cw = self.width_cells();
        let ch = self.height_cells();
        vstd::arithmetic::div_mod::lemma_fundamental_div_mod(w, c);
        vstd::arithmetic::div_mod::lemma_fundamental_div_mod(h, c);
        assert(cw * c == w && ch * c == h && cw >= 1 && ch >= 1 && cw <= w && ch <= h)
            by (nonlinear_arith)
            requires
                w == c * cw,
                h == c * ch,
                c >= 1,
                w >= 1,
                h >= 1,
        ;
        assert(1 <= cw * ch <= w * h) by (nonlinear_arith)
            requires
                1 <= cw <= w,
                1 <= ch <= h,
        ;
        assert forall|node: (int, int)| #[trigger] self.in_grid(node) implies 0
            <= self.cell_index(node) < self.grid_len() by {
            assert(0 <= node.0 + node.1 * cw < cw * ch) by (nonlinear_arith)
                requires
                    0 <= node.0 < cw,
                    0 <= node.1 < ch,
            ;
        }
        assert forall|a: (int, int), b: (int, int)|
            self.in_grid(a) && self.in_grid(b) && #[trigger] self.cell_index(a)
                == #[trigger] self.cell_index(b) implies a == b by {
            assert(a.1 == b.1 && a.0 == b.0) by (nonlinear_arith)
                requires
                    0 <= a.0 < cw,
                    0 <= b.0 < cw,
                    a.0 + a.1 * cw == b.0 + b.1 * cw,
            ;
        }
    }
}

impl Default for Config {
    /// A playground of twenty by ten cells of sixty pixels with five
    /// particles, ten steps per unit of time, and walls that take no energy.
    fn default() -> (c: Config)
        ensures
            c == (Config {
                playground_width: 1200,
                playground_height: 600,
                cell_size: 60,
                num_particles: 5,
                timestep: 100_000,
                gravity: 9_800_000,
                damping: 1_000_000,
                initial_state: State::Running,
            }),
            c.valid(),
    {
        Config {
            playground_width: 1200,
            playground_height: 600,
            cell_size: 60,
            num_particles: 5,
            timestep: 100_000,
            gravity: 9_800_000,
            damping: 1_000_000,
            initial_state: State::Running,
        }
    }
}

} // verus!
