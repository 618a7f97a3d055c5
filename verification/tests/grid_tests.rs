use toroidal_life::grid::Cell;
use toroidal_life::grid::GridError;
use toroidal_life::grid::Pos;
use toroidal_life::grid::ToroidalGrid;
use toroidal_life::grid::sum_alive;

fn pos(x: i64, y: i64) -> Pos {
    Pos { x, y }
}

#[test]
fn new_rejects_zero_dimension() {
    assert!(matches!(ToroidalGrid::new(0, 5), Err(GridError::InvalidDimensions)));
    assert!(matches!(ToroidalGrid::new(5, 0), Err(GridError::InvalidDimensions)));
}

#[test]
fn new_rejects_negative_dimensions() {
    assert!(matches!(ToroidalGrid::new(-1, 3), Err(GridError::InvalidDimensions)));
    assert!(matches!(ToroidalGrid::new(3, -7), Err(GridError::InvalidDimensions)));
    assert!(matches!(ToroidalGrid::new(0, 0), Err(GridError::InvalidDimensions)));
}

#[test]
fn new_accepts_positive_dimensions() {
    let g = ToroidalGrid::new(30, 20).unwrap();
    assert_eq!(g.width(), 30);
    assert_eq!(g.height(), 20);
}

#[test]
fn new_grid_all_dead() {
    let g = ToroidalGrid::new(4, 3).unwrap();
    for x in 0..4 {
        for y in 0..3 {
            assert!(!g.get(pos(x, y)).alive);
        }
    }
}

#[test]
fn wraparound_indexing_matches_reduced_coordinates() {
    let mut g = ToroidalGrid::new(4, 3).unwrap();
    g.set(pos(1, 2), Cell { alive: true });
    // (-3) mod 4 == 1 and (-1) mod 3 == 2 under non-negative remainder.
    assert!(g.get(pos(-3, -1)).alive);
    assert!(g.get(pos(5, 5)).alive);
    assert!(g.get(pos(1 - 400, 2 + 300)).alive);
    assert!(!g.get(pos(0, 0)).alive);
    assert!(!g.get(pos(2, 2)).alive);
}

#[test]
fn wraparound_total_at_extreme_magnitudes() {
    let mut g = ToroidalGrid::new(7, 5).unwrap();
    let cx = i64::MIN.rem_euclid(7);
    let cy = i64::MAX.rem_euclid(5);
    g.set(pos(cx, cy), Cell { alive: true });
    assert!(g.get(pos(i64::MIN, i64::MAX)).alive);
    assert_eq!(
        g.get(pos(i64::MIN, i64::MAX)).alive,
        g.get(pos(cx, cy)).alive
    );
}

#[test]
fn set_via_negative_coordinate_visible_at_canonical() {
    let mut g = ToroidalGrid::new(6, 4).unwrap();
    g.set(pos(-1, -1), Cell { alive: true });
    assert!(g.get(pos(5, 3)).alive);
    assert!(!g.get(pos(0, 0)).alive);
}

#[test]
fn set_leaves_other_cells_untouched() {
    let mut g = ToroidalGrid::new(5, 5).unwrap();
    g.set(pos(2, 2), Cell { alive: true });
    g.set(pos(4, 4), Cell { alive: true });
    g.set(pos(2, 2), Cell { alive: false });
    assert!(g.get(pos(4, 4)).alive);
    for x in 0..5 {
        for y in 0..5 {
            if (x, y) != (4, 4) {
                assert!(!g.get(pos(x, y)).alive, "cell ({}, {}) should be dead", x, y);
            }
        }
    }
}

#[test]
fn pos_add_is_componentwise() {
    let a = pos(3, -2);
    let b = pos(-1, 1);
    let c = a.add(b);
    assert_eq!(c.x, 2);
    assert_eq!(c.y, -1);
}

#[test]
fn sum_alive_counts_exact_neighbors() {
    let mut g = ToroidalGrid::new(5, 5).unwrap();
    g.set(pos(1, 1), Cell { alive: true });
    g.set(pos(2, 1), Cell { alive: true });
    g.set(pos(1, 2), Cell { alive: true });
    // (2, 2) touches all three alive cells.
    assert_eq!(sum_alive(&g, pos(2, 2)), 3);
    // (1, 1) touches the other two.
    assert_eq!(sum_alive(&g, pos(1, 1)), 2);
    // (0, 0) touches only (1, 1).
    assert_eq!(sum_alive(&g, pos(0, 0)), 1);
    // (3, 3) touches none of them.
    assert_eq!(sum_alive(&g, pos(3, 3)), 0);
}

#[test]
fn sum_alive_wraps_at_corner() {
    let mut g = ToroidalGrid::new(3, 3).unwrap();
    g.set(pos(0, 0), Cell { alive: true });
    // (2, 2) is diagonally adjacent to (0, 0) across both seams.
    assert_eq!(sum_alive(&g, pos(2, 2)), 1);
    // The count is the same for any coordinate that wraps to (2, 2).
    assert_eq!(sum_alive(&g, pos(-1, -1)), 1);
    assert_eq!(sum_alive(&g, pos(302, -301)), 1);
}

#[test]
fn sum_alive_never_exceeds_eight() {
    let mut g = ToroidalGrid::new(3, 3).unwrap();
    for x in 0..3 {
        for y in 0..3 {
            g.set(pos(x, y), Cell { alive: true });
        }
    }
    for x in 0..3 {
        for y in 0..3 {
            assert_eq!(sum_alive(&g, pos(x, y)), 8);
        }
    }
}

#[test]
fn clone_is_a_deep_copy() {
    let mut g = ToroidalGrid::new(4, 4).unwrap();
    g.set(pos(1, 1), Cell { alive: true });
    let copy = g.clone();
    g.set(pos(1, 1), Cell { alive: false });
    g.set(pos(2, 2), Cell { alive: true });
    assert!(copy.get(pos(1, 1)).alive);
    assert!(!copy.get(pos(2, 2)).alive);
}

#[test]
fn fill_from_bits_writes_row_major() {
    let mut g = ToroidalGrid::new(3, 2).unwrap();
    let bits = vec![true, false, false, false, true, false];
    g.fill_from_bits(&bits);
    assert!(g.get(pos(0, 0)).alive);
    assert!(!g.get(pos(1, 0)).alive);
    assert!(!g.get(pos(2, 0)).alive);
    assert!(!g.get(pos(0, 1)).alive);
    assert!(g.get(pos(1, 1)).alive);
    assert!(!g.get(pos(2, 1)).alive);
}
