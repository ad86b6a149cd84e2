use particle_grid::Config;
use particle_grid::ConfigError;
use particle_grid::State;

fn base() -> Config {
    Config {
        playground_width: 200,
        playground_height: 100,
        cell_size: 50,
        num_particles: 1,
        timestep: 100_000,
        gravity: 9_800_000,
        damping: 1_000_000,
        initial_state: State::Running,
    }
}

#[test]
fn a_divisible_playground_is_accepted() {
    assert_eq!(base().check(), Ok(()));
    assert_eq!(base().num_width_cells(), 4);
    assert_eq!(base().num_height_cells(), 2);
}

#[test]
fn the_default_configuration_is_accepted() {
    let c = Config::default();
    assert_eq!(c.check(), Ok(()));
    assert_eq!(c.playground_width, 1200);
    assert_eq!(c.playground_height, 600);
    assert_eq!(c.cell_size, 60);
    assert_eq!(c.num_particles, 5);
    assert_eq!(c.timestep, 100_000);
    assert_eq!(c.gravity, 9_800_000);
    assert_eq!(c.damping, 1_000_000);
    assert_eq!(c.initial_state, State::Running);
    assert_eq!(c.num_width_cells(), 20);
    assert_eq!(c.num_height_cells(), 10);
}

#[test]
fn a_zero_cell_size_is_refused() {
    let c = Config { cell_size: 0, ..base() };
    assert_eq!(c.check(), Err(ConfigError::ZeroCellSize));
    // the cell size is looked at first
    let c = Config { cell_size: 0, playground_width: 0, ..base() };
    assert_eq!(c.check(), Err(ConfigError::ZeroCellSize));
}

#[test]
fn an_empty_playground_is_refused() {
    let c = Config { playground_width: 0, ..base() };
    assert_eq!(c.check(), Err(ConfigError::EmptyDomain));
    let c = Config { playground_height: 0, ..base() };
    assert_eq!(c.check(), Err(ConfigError::EmptyDomain));
}

#[test]
fn a_cell_size_that_does_not_divide_is_refused() {
    let c = Config { playground_width: 210, ..base() };
    assert_eq!(c.check(), Err(ConfigError::NotDivisible));
    let c = Config { playground_height: 99, ..base() };
    assert_eq!(c.check(), Err(ConfigError::NotDivisible));
    let c = Config { cell_size: 300, ..base() };
    assert_eq!(c.check(), Err(ConfigError::NotDivisible));
}

#[test]
fn any_cell_size_that_divides_is_accepted() {
    let c = Config { cell_size: 2001, playground_width: 4002, playground_height: 2001, ..base() };
    assert_eq!(c.check(), Ok(()));
    assert_eq!(c.num_width_cells(), 2);
    assert_eq!(c.num_height_cells(), 1);
    let c = Config { cell_size: 1, playground_width: 7, playground_height: 3, ..base() };
    assert_eq!(c.check(), Ok(()));
    let c = Config {
        cell_size: 1_000_000,
        playground_width: 3_000_000,
        playground_height: 1_000_000,
        ..base()
    };
    assert_eq!(c.check(), Ok(()));
    assert_eq!(c.num_width_cells(), 3);
}

#[test]
fn a_playground_with_more_pixels_than_addresses_is_refused() {
    let c = Config {
        cell_size: u32::MAX,
        playground_width: u32::MAX,
        playground_height: u32::MAX,
        ..base()
    };
    let pixels = u32::MAX as u128 * u32::MAX as u128;
    let expected = if pixels > usize::MAX as u128 { Err(ConfigError::TooLarge) } else { Ok(()) };
    assert_eq!(c.check(), expected);
    // the size is looked at last
    let c = Config { playground_width: u32::MAX - 1, ..c };
    assert_eq!(c.check(), Err(ConfigError::NotDivisible));
}

#[test]
fn grid_membership_follows_the_cell_counts() {
    let c = base();
    assert!(c.exists_in_vel_grid((0, 0)));
    assert!(c.exists_in_vel_grid((3, 1)));
    assert!(!c.exists_in_vel_grid((4, 1)));
    assert!(!c.exists_in_vel_grid((3, 2)));
    assert!(!c.exists_in_vel_grid((-1, 0)));
    assert!(!c.exists_in_vel_grid((0, -1)));
}
