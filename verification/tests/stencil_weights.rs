use particle_grid::scalar::UNIT;
use particle_grid::stencil::corner;
use particle_grid::Config;
use particle_grid::State;

fn domain() -> Config {
    Config {
        playground_width: 200,
        playground_height: 100,
        cell_size: 50,
        num_particles: 1,
        timestep: 100_000,
        gravity: 9_800_000,
        damping: 1_000_000,
        initial_state: State::Running,
    }
}

const SPAN: i128 = 50 * UNIT as i128;

#[test]
fn a_point_on_a_node_gives_that_node_all_the_weight() {
    let cfg = domain();
    let pos = (100 * UNIT, 50 * UNIT);
    let c0 = corner(&cfg, pos, 0);
    assert_eq!(c0.node, (2, 1));
    assert_eq!(c0.weight, SPAN * SPAN);
    assert_eq!(corner(&cfg, pos, 1).weight, 0);
    assert_eq!(corner(&cfg, pos, 2).weight, 0);
    assert_eq!(corner(&cfg, pos, 3).weight, 0);
}

#[test]
fn corners_run_clockwise_from_the_top_left() {
    let cfg = domain();
    let pos = (60 * UNIT, 20 * UNIT);
    assert_eq!(corner(&cfg, pos, 0).node, (1, 0));
    assert_eq!(corner(&cfg, pos, 1).node, (2, 0));
    assert_eq!(corner(&cfg, pos, 2).node, (2, 1));
    assert_eq!(corner(&cfg, pos, 3).node, (1, 1));
}

#[test]
fn weights_are_the_products_of_the_offsets() {
    let cfg = domain();
    // 10 pixels right of and 20 pixels below the node (1, 0)
    let pos = (60 * UNIT, 20 * UNIT);
    let dx: i128 = 10 * UNIT as i128;
    let dy: i128 = 20 * UNIT as i128;
    assert_eq!(corner(&cfg, pos, 0).weight, (SPAN - dx) * (SPAN - dy));
    assert_eq!(corner(&cfg, pos, 1).weight, dx * (SPAN - dy));
    assert_eq!(corner(&cfg, pos, 2).weight, dx * dy);
    assert_eq!(corner(&cfg, pos, 3).weight, (SPAN - dx) * dy);
}

#[test]
fn weights_add_up_to_one() {
    let cfg = domain();
    let points = [
        (0, 0),
        (1, 1),
        (60 * UNIT, 20 * UNIT),
        (199 * UNIT + 999_999, 99 * UNIT + 999_999),
        (-1, -1),
        (-73 * UNIT - 5, 1_234_567_891),
        (i64::MAX, i64::MIN),
        (i64::MIN, i64::MAX),
    ];
    for pos in points {
        let mut sum: i128 = 0;
        for k in 0..4 {
            let w = corner(&cfg, pos, k).weight;
            assert!(w >= 0);
            assert!(w <= SPAN * SPAN);
            sum += w;
        }
        assert_eq!(sum, SPAN * SPAN);
    }
}

#[test]
fn a_point_left_of_the_playground_has_its_first_node_outside() {
    let cfg = domain();
    let pos = (-10 * UNIT, 10 * UNIT);
    let c0 = corner(&cfg, pos, 0);
    assert_eq!(c0.node, (-1, 0));
    assert!(!cfg.exists_in_vel_grid(c0.node));
    let c1 = corner(&cfg, pos, 1);
    assert_eq!(c1.node, (0, 0));
    assert_eq!(c1.weight, (40 * UNIT as i128) * (40 * UNIT as i128));
}

#[test]
fn the_widest_cells_keep_exact_weights() {
    let side: u32 = u32::MAX / 2;
    let cfg = Config { cell_size: side, playground_width: 2 * side, playground_height: 2 * side, ..domain() };
    assert_eq!(cfg.check(), Ok(()));
    let span: i128 = side as i128 * UNIT as i128;
    let pos = (1_234_567_890_123_456, 987_654_321_098_765);
    let expected: [i128; 4] = [
        1_058_826_466_902_737_768_001_432_131_840,
        1_431_888_043_781_197_931_602_612_868_160,
        1_219_326_311_370_216_639_521_419_131_840,
        901_645_192_078_268_269_874_535_868_160,
    ];
    let mut sum: i128 = 0;
    for k in 0..4 {
        let c = corner(&cfg, pos, k);
        assert_eq!(c.weight, expected[k]);
        sum += c.weight;
    }
    assert_eq!(sum, span * span);
    assert_eq!(corner(&cfg, pos, 0).node, (0, 0));
    assert_eq!(corner(&cfg, pos, 2).node, (1, 1));
    let last = ((span - 1) as i64, (span - 1) as i64);
    assert_eq!(corner(&cfg, last, 0).weight, 1);
    assert_eq!(corner(&cfg, last, 2).weight, (span - 1) * (span - 1));
}
