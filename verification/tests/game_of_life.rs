use life_canvas::game_of_life::GameOfLife;

fn alive_count(g: &GameOfLife) -> usize {
    let mut n = 0;
    for &c in g.cells.iter() {
        if c {
            n += 1;
        }
    }
    n
}

#[test]
fn new_grid_all_dead() {
    let g = GameOfLife::new(5, 7);
    assert_eq!(g.width, 5);
    assert_eq!(g.height, 7);
    assert_eq!(g.cells.len(), 35);
    assert_eq!(alive_count(&g), 0);
}

#[test]
fn set_alive_and_read_back() {
    let mut g = GameOfLife::new(5, 5);
    g.set_alive(2, 3);
    assert!(g.is_alive(2, 3));
    assert!(!g.is_alive(0, 0));
    assert!(!g.is_alive(3, 2));
    assert_eq!(alive_count(&g), 1);
}

#[test]
fn set_alive_out_of_range_is_noop() {
    let mut g = GameOfLife::new(5, 5);
    g.set_alive(5, 0);
    g.set_alive(0, 5);
    g.set_alive(100, 100);
    assert_eq!(alive_count(&g), 0);
}

#[test]
fn toroidal_wraparound_matches_wrapped_coordinate() {
    let mut g = GameOfLife::new(6, 4);
    g.set_alive(5, 2);
    g.set_alive(0, 1);
    g.set_alive(3, 0);
    g.set_alive(3, 3);
    // One column past either vertical edge reads the opposite edge.
    assert_eq!(g.is_alive(-1, 2), g.is_alive(5, 2));
    assert!(g.is_alive(-1, 2));
    assert_eq!(g.is_alive(6, 1), g.is_alive(0, 1));
    assert!(g.is_alive(6, 1));
    // One row past either horizontal edge reads the opposite edge.
    assert_eq!(g.is_alive(3, -1), g.is_alive(3, 3));
    assert!(g.is_alive(3, -1));
    assert_eq!(g.is_alive(3, 4), g.is_alive(3, 0));
    assert!(g.is_alive(3, 4));
    // A whole period in either direction changes nothing.
    assert_eq!(g.is_alive(-6, 1), g.is_alive(0, 1));
    assert_eq!(g.is_alive(0, -4), g.is_alive(0, 0));
    // Coordinates far past any edge wrap like their in-range residues.
    assert!(g.is_alive(-13, 2)); // -13 wraps to 5 on width 6
    assert!(g.is_alive(17, -6)); // 17 wraps to 5, -6 wraps to 2
    assert!(g.is_alive(isize::MIN, isize::MIN) == g.is_alive(
        (isize::MIN).rem_euclid(6),
        (isize::MIN).rem_euclid(4),
    ));
}

#[test]
fn count_neighbors_stays_within_bounds() {
    let mut g = GameOfLife::new(3, 3);
    for x in 0..3 {
        for y in 0..3 {
            g.set_alive(x, y);
        }
    }
    // Fully alive torus: every cell sees the maximum of 8 neighbors.
    for x in 0..3 {
        for y in 0..3 {
            let n = g.count_neighbors(x, y);
            assert_eq!(n, 8);
        }
    }
    let empty = GameOfLife::new(3, 3);
    assert_eq!(empty.count_neighbors(1, 1), 0);
}

#[test]
fn count_neighbors_wraps_around_corners() {
    let mut g = GameOfLife::new(4, 4);
    g.set_alive(3, 3);
    // (3, 3) is the wrapped diagonal neighbor of (0, 0).
    assert_eq!(g.count_neighbors(0, 0), 1);
    assert_eq!(g.count_neighbors(2, 2), 1);
    assert_eq!(g.count_neighbors(1, 1), 0);
}

#[test]
fn lone_cell_dies() {
    let mut g = GameOfLife::new(5, 5);
    g.set_alive(2, 2);
    g.tick();
    assert_eq!(alive_count(&g), 0);
}

#[test]
fn birth_with_exactly_three_neighbors() {
    let mut g = GameOfLife::new(6, 6);
    g.set_alive(1, 1);
    g.set_alive(2, 1);
    g.set_alive(1, 2);
    g.tick();
    // The fourth corner of the square is born; the three survive.
    assert!(g.is_alive(2, 2));
    assert!(g.is_alive(1, 1));
    assert!(g.is_alive(2, 1));
    assert!(g.is_alive(1, 2));
    assert_eq!(alive_count(&g), 4);
}

#[test]
fn block_is_a_still_life() {
    let mut g = GameOfLife::new(6, 6);
    g.insert_tub(2, 2);
    let before = g.cells.clone();
    for _ in 0..5 {
        g.tick();
        assert_eq!(g.cells, before);
    }
}

#[test]
fn blinker_oscillates_with_period_two() {
    let mut g = GameOfLife::new(8, 8);
    g.insert_blinker(2, 2);
    // The inserted pattern is the horizontal line (2,3), (3,3), (4,3).
    let start = g.cells.clone();
    g.tick();
    // After one step: the vertical line through the center (3,3).
    let mid = g.cells.clone();
    assert_ne!(mid, start);
    assert!(g.is_alive(3, 2));
    assert!(g.is_alive(3, 3));
    assert!(g.is_alive(3, 4));
    assert_eq!(alive_count(&g), 3);
    // After the second step: exactly the starting state again.
    g.tick();
    assert_eq!(g.cells, start);
}

#[test]
fn glider_pattern_cells() {
    let mut g = GameOfLife::new(10, 10);
    g.insert_glider(1, 1);
    for (dx, dy) in [(1, 0), (2, 1), (0, 2), (1, 2), (2, 2)] {
        assert!(g.is_alive(1 + dx, 1 + dy));
    }
    assert_eq!(alive_count(&g), 5);
}

#[test]
fn toad_pattern_cells() {
    let mut g = GameOfLife::new(10, 10);
    g.insert_toad(2, 3);
    for (dx, dy) in [(1, 0), (2, 0), (3, 0), (0, 1), (1, 1), (2, 1)] {
        assert!(g.is_alive(2 + dx, 3 + dy));
    }
    assert_eq!(alive_count(&g), 6);
}

#[test]
fn pulsar_pattern_cell_count() {
    let mut g = GameOfLife::new(20, 20);
    g.insert_pulsar(3, 3);
    assert_eq!(alive_count(&g), 48);
    assert!(g.is_alive(3 + 2, 3 + 0));
    assert!(g.is_alive(3 + 12, 3 + 10));
}

#[test]
fn hwss_pattern_cell_count() {
    let mut g = GameOfLife::new(12, 12);
    g.insert_hwss(1, 1);
    assert_eq!(alive_count(&g), 12);
}

#[test]
fn remaining_patterns_insert_expected_cell_counts() {
    let cases: Vec<(fn(&mut GameOfLife, usize, usize), usize)> = vec![
        (GameOfLife::insert_blinker, 3),
        (GameOfLife::insert_beacon, 6),
        (GameOfLife::insert_spaceship, 5),
        (GameOfLife::insert_acorn, 6),
        (GameOfLife::insert_r_pentomino, 5),
        (GameOfLife::insert_glider_gun, 25),
        (GameOfLife::insert_gosper_glider_gun, 25),
        (GameOfLife::insert_lwss, 9),
        (GameOfLife::insert_beehive, 6),
        (GameOfLife::insert_loaf, 7),
        (GameOfLife::insert_boat, 5),
        (GameOfLife::insert_tub, 4),
        (GameOfLife::insert_mwss, 10),
    ];
    for (insert, expected) in cases {
        let mut g = GameOfLife::new(40, 40);
        insert(&mut g, 2, 2);
        assert_eq!(alive_count(&g), expected);
    }
}

#[test]
fn pattern_clipped_at_grid_edge() {
    let mut g = GameOfLife::new(3, 3);
    // Every glider offset translated by (2, 2) lands outside the 3x3 grid.
    g.insert_glider(2, 2);
    assert_eq!(alive_count(&g), 0);
    // A partially clipped insert keeps only the in-range cells.
    let mut p = GameOfLife::new(4, 4);
    p.insert_blinker(2, 2);
    // Offsets (0,1), (1,1), (2,1) at origin (2,2): (2,3) and (3,3) fit, (4,3) is clipped.
    assert!(p.is_alive(2, 3));
    assert!(p.is_alive(3, 3));
    assert_eq!(alive_count(&p), 2);
}

#[test]
fn tick_keeps_dimensions() {
    let mut g = GameOfLife::new(7, 9);
    g.insert_glider(1, 1);
    g.tick();
    assert_eq!(g.width, 7);
    assert_eq!(g.height, 9);
    assert_eq!(g.cells.len(), 63);
}
