use particle_grid::scalar::UNIT;
use particle_grid::transfer::gather;
use particle_grid::transfer::scatter;
use particle_grid::Config;
use particle_grid::Particle;
use particle_grid::State;

fn domain() -> Config {
    Config {
        playground_width: 200,
        playground_height: 100,
        cell_size: 50,
        num_particles: 1,
        timestep: 100_000,
        gravity: 9_800_000,
        damping: 1_000_000,
        initial_state: State::Running,
    }
}

fn at(x: i64, y: i64, vx: i64, vy: i64) -> Particle {
    Particle { pos: (x, y), vel: (vx, vy) }
}

fn rest() -> Vec<(i64, i64)> {
    vec![(0, 0); 8]
}

#[test]
fn scatter_of_no_particles_is_a_grid_at_rest() {
    assert_eq!(scatter(&domain(), &vec![]), rest());
}

#[test]
fn scatter_from_a_node_lands_on_that_node_alone() {
    let p = at(100 * UNIT, 50 * UNIT, 3 * UNIT, -2 * UNIT);
    let grid = scatter(&domain(), &vec![p]);
    let mut expected = rest();
    expected[2 + 1 * 4] = (300_000, -200_000);
    assert_eq!(grid, expected);
}

#[test]
fn scatter_from_a_cell_centre_splits_into_quarters() {
    let p = at(25 * UNIT, 25 * UNIT, 4 * UNIT, 8 * UNIT);
    let grid = scatter(&domain(), &vec![p]);
    let mut expected = rest();
    expected[0] = (100_000, 200_000);
    expected[1] = (100_000, 200_000);
    expected[4] = (100_000, 200_000);
    expected[5] = (100_000, 200_000);
    assert_eq!(grid, expected);
}

#[test]
fn scatter_uses_each_corner_weight() {
    // 10 pixels right of and 20 pixels below the node (1, 0):
    // weights 12/25, 3/25, 2/25, 8/25 clockwise from the top left
    let p = at(60 * UNIT, 20 * UNIT, 250 * UNIT, -500 * UNIT);
    let grid = scatter(&domain(), &vec![p]);
    let mut expected = rest();
    expected[1] = (12 * UNIT, -24 * UNIT);
    expected[2] = (3 * UNIT, -6 * UNIT);
    expected[2 + 4] = (2 * UNIT, -4 * UNIT);
    expected[1 + 4] = (8 * UNIT, -16 * UNIT);
    assert_eq!(grid, expected);
}

#[test]
fn scatter_drops_the_weight_of_corners_outside_the_grid() {
    // the last cell: only its top-left node exists
    let p = at(175 * UNIT, 75 * UNIT, 4 * UNIT, 0);
    let grid = scatter(&domain(), &vec![p]);
    let mut expected = rest();
    expected[3 + 1 * 4] = (100_000, 0);
    assert_eq!(grid, expected);
}

#[test]
fn scatter_ignores_a_particle_far_outside() {
    let p = at(1000 * UNIT, -1000 * UNIT, 4 * UNIT, 4 * UNIT);
    assert_eq!(scatter(&domain(), &vec![p]), rest());
}

#[test]
fn scatter_adds_up_the_particles_on_a_node() {
    let a = at(50 * UNIT, 0, 10 * UNIT, UNIT);
    let b = at(50 * UNIT, 0, 20 * UNIT, -3 * UNIT);
    let grid = scatter(&domain(), &vec![a, b]);
    let mut expected = rest();
    expected[1] = (3 * UNIT, -200_000);
    assert_eq!(grid, expected);
}

#[test]
fn scatter_rounds_down() {
    // a quarter of the smallest negative velocity rounds down to it
    let p = at(25 * UNIT, 25 * UNIT, -1, 1);
    let grid = scatter(&domain(), &vec![p]);
    let mut expected = rest();
    expected[0] = (-1, 0);
    expected[1] = (-1, 0);
    expected[4] = (-1, 0);
    expected[5] = (-1, 0);
    assert_eq!(grid, expected);
}

#[test]
fn scatter_takes_the_extreme_velocities() {
    let p = at(0, 0, i64::MAX, i64::MIN);
    let grid = scatter(&domain(), &vec![p]);
    assert_eq!(grid[0], (922_337_203_685_477_580, -922_337_203_685_477_581));
}

#[test]
fn scatter_does_not_depend_on_the_order_of_the_particles() {
    let a = at(60 * UNIT, 20 * UNIT, 7 * UNIT + 3, -UNIT - 1);
    let b = at(20 * UNIT, 60 * UNIT, -13, 999_999);
    let c = at(130 * UNIT + 5, 45 * UNIT + 7, 5 * UNIT, 5);
    let one = scatter(&domain(), &vec![a, b, c]);
    let two = scatter(&domain(), &vec![c, a, b]);
    assert_eq!(one, two);
}

#[test]
fn gather_without_a_change_of_the_grid_changes_nothing() {
    let p = at(60 * UNIT, 20 * UNIT, 5, -7);
    let mut grid = rest();
    grid[1] = (UNIT, UNIT);
    let moved = gather(&domain(), &vec![p], &grid, &grid);
    assert_eq!(moved, vec![p]);
}

#[test]
fn gather_interpolates_the_change_of_the_grid() {
    let p = at(25 * UNIT, 25 * UNIT, 10, 20);
    let before = rest();
    let mut after = rest();
    after[0] = (4 * UNIT, -8 * UNIT);
    let moved = gather(&domain(), &vec![p], &after, &before);
    assert_eq!(moved, vec![at(25 * UNIT, 25 * UNIT, 10 + UNIT, 20 - 2 * UNIT)]);
}

#[test]
fn gather_subtracts_the_grid_before() {
    let p = at(50 * UNIT, 50 * UNIT, 0, 0);
    let mut before = rest();
    before[1 + 4] = (3 * UNIT, 5 * UNIT);
    let mut after = rest();
    after[1 + 4] = (UNIT, 9 * UNIT);
    let moved = gather(&domain(), &vec![p], &after, &before);
    assert_eq!(moved[0].vel, (-2 * UNIT, 4 * UNIT));
    assert_eq!(moved[0].pos, p.pos);
}

#[test]
fn gather_divides_by_the_weights_inside_the_grid() {
    // the last cell: only its top-left node exists, with a quarter of the
    // weight, and its change arrives in full
    let p = at(175 * UNIT, 75 * UNIT, 1, 2);
    let before = rest();
    let mut after = rest();
    after[3 + 4] = (2 * UNIT, -4 * UNIT);
    let moved = gather(&domain(), &vec![p], &after, &before);
    assert_eq!(moved[0].vel, (1 + 2 * UNIT, 2 - 4 * UNIT));
}

#[test]
fn gather_left_of_the_playground_uses_the_two_nodes_on_its_edge() {
    let p = at(-10 * UNIT, 10 * UNIT, 0, 0);
    let before = rest();
    let mut after = rest();
    after[0] = (5 * UNIT, 0);
    after[4] = (10 * UNIT, 0);
    let moved = gather(&domain(), &vec![p], &after, &before);
    assert_eq!(moved[0].vel, (6 * UNIT, 0));
}

#[test]
fn gather_leaves_a_particle_with_no_node_in_the_grid_as_it_is() {
    let before = rest();
    let after = vec![(7 * UNIT, 7 * UNIT); 8];
    let on_the_right_wall = at(200 * UNIT, 50 * UNIT, 11, 12);
    let far_away = at(-1000 * UNIT, 5000 * UNIT, 13, 14);
    let below = at(10 * UNIT, 100 * UNIT, 15, 16);
    let ps = vec![on_the_right_wall, far_away, below];
    assert_eq!(gather(&domain(), &ps, &after, &before), ps);
}

#[test]
fn gather_leaves_a_particle_whose_only_nodes_weigh_nothing_as_it_is() {
    // on the node (-1, 0) exactly: the nodes to its right weigh nothing
    let p = at(-50 * UNIT, 0, 3, 4);
    let before = rest();
    let after = vec![(7 * UNIT, 7 * UNIT); 8];
    assert_eq!(gather(&domain(), &vec![p], &after, &before), vec![p]);
}

#[test]
fn gather_rounds_down_and_saturates() {
    let p = at(25 * UNIT, 25 * UNIT, 0, i64::MAX);
    let before = rest();
    let mut after = rest();
    after[0] = (-1, 8);
    let moved = gather(&domain(), &vec![p], &after, &before);
    // a quarter of -0.000001 rounds down to -0.000001
    assert_eq!(moved[0].vel, (-1, i64::MAX));
}

#[test]
fn gather_takes_the_largest_change_of_the_grid() {
    let p = at(0, 0, 0, 0);
    let before = vec![(i64::MIN, i64::MAX); 8];
    let after = vec![(i64::MAX, i64::MIN); 8];
    let moved = gather(&domain(), &vec![p], &after, &before);
    assert_eq!(moved[0].vel, (i64::MAX, i64::MIN));
}

fn wide() -> Config {
    let side: u32 = u32::MAX / 2;
    Config { cell_size: side, playground_width: 2 * side, playground_height: 2 * side, ..domain() }
}

const WIDE_SPAN: i64 = (u32::MAX / 2) as i64 * UNIT;

#[test]
fn scatter_over_the_widest_cells_rounds_each_share_once() {
    let a = at(1_234_567_890_123_456, 987_654_321_098_765, i64::MAX, i64::MIN);
    let grid = scatter(&wide(), &vec![a]);
    assert_eq!(
        grid,
        vec![
            (211_765_293_577_769_351, -211_765_293_577_769_352),
            (286_377_609_022_949_518, -286_377_609_022_949_519),
            (180_329_038_583_598_158, -180_329_038_583_598_159),
            (243_865_262_501_160_551, -243_865_262_501_160_552),
        ]
    );
    let b = at(WIDE_SPAN + 1, WIDE_SPAN - 1, -7, 123_456_789_012_345_678);
    let grid = scatter(&wide(), &vec![a, b]);
    assert_eq!(
        grid,
        vec![
            (211_765_293_577_769_351, -211_765_293_577_769_352),
            (286_377_609_022_949_518, -286_377_609_022_949_513),
            (180_329_038_583_598_158, -180_329_038_583_598_159),
            (243_865_262_501_160_551, -231_519_583_599_925_996),
        ]
    );
}

#[test]
fn scatter_over_one_cell_of_the_largest_size() {
    let side = u32::MAX;
    let cfg = Config { cell_size: side, playground_width: side, playground_height: side, ..domain() };
    if cfg.check().is_err() {
        return;
    }
    let span = side as i64 * UNIT;
    let grid = scatter(&cfg, &vec![at(span / 2, span / 2, 4 * UNIT, i64::MAX)]);
    assert_eq!(grid, vec![(100_000, 230_584_300_921_369_395)]);
    let grid = scatter(&cfg, &vec![at(span - 1, span - 1, i64::MAX, i64::MIN)]);
    assert_eq!(grid, vec![(0, -1)]);
    let grid = scatter(&cfg, &vec![at(1, 1, i64::MAX, i64::MIN)]);
    assert_eq!(grid, vec![(922_337_203_685_477_151, -922_337_203_685_477_152)]);
}

#[test]
fn gather_over_the_widest_cells_rounds_once() {
    let after = vec![
        (i64::MAX, i64::MIN),
        (i64::MIN, i64::MAX),
        (5, -5),
        (123_456_789, -987_654_321),
    ];
    let before = vec![(i64::MIN, i64::MAX), (i64::MAX, i64::MIN), (-5, 5), (-1, 1)];
    let ps = vec![
        at(1_234_567_890_123_456, 987_654_321_098_765, 10, -10),
        at(WIDE_SPAN + 1, WIDE_SPAN - 1, 10, -10),
        at(WIDE_SPAN + WIDE_SPAN / 3, WIDE_SPAN + WIDE_SPAN / 7, 0, 0),
    ];
    let moved = gather(&wide(), &ps, &after, &before);
    assert_eq!(moved[0].vel, (-1_492_246_308_870_961_435, 1_492_246_308_642_468_256));
    assert_eq!(moved[1].vel, (123_448_210, -987_645_743));
    assert_eq!(moved[2].vel, (123_456_790, -987_654_322));
    assert_eq!(moved[0].pos, ps[0].pos);
}

#[test]
fn gather_over_the_widest_cells_with_part_of_the_stencil_outside() {
    let after = vec![(1_000_003, -1_000_003), (17, -17), (5, -5), (123_456_789, -987_654_321)];
    let before = rest_of(4);
    let inside = at(1_234_567_890_123_456, 987_654_321_098_765, 0, 0);
    let left = at(-715_827_882_333_334, 987_654_321_098_765, 0, 0);
    let moved = gather(&wide(), &vec![inside, left], &after, &before);
    assert_eq!(moved[0].vel, (32_871_485, -261_364_663));
    assert_eq!(moved[1].vel, (540_091, -540_092));
}

fn rest_of(cells: usize) -> Vec<(i64, i64)> {
    vec![(0, 0); cells]
}
