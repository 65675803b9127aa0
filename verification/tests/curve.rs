use pixel_shuffle::gilbert;
use pixel_shuffle::paths;

fn visits_every_cell_once(w: u32, h: u32) {
    let mut seen = vec![false; (w * h) as usize];
    for idx in 0..w * h {
        let p = paths::gilbert_d2xy(idx, w, h);
        assert!(0 <= p.0 && (p.0 as u32) < w, "x of {} in {}x{}", idx, w, h);
        assert!(0 <= p.1 && (p.1 as u32) < h, "y of {} in {}x{}", idx, w, h);
        let cell = (p.1 as u32 * w + p.0 as u32) as usize;
        assert!(!seen[cell], "cell {} twice in {}x{}", cell, w, h);
        seen[cell] = true;
    }
    assert!(seen.iter().all(|s| *s));
}

#[test]
fn single_row_runs_left_to_right() {
    for idx in 0..4 {
        let p = gilbert::gilbert_d2xy(idx, 4, 1);
        assert_eq!((p.x, p.y), (idx, 0));
    }
}

#[test]
fn single_column_runs_top_to_bottom() {
    for idx in 0..5 {
        let p = gilbert::gilbert_d2xy(idx, 1, 5);
        assert_eq!((p.x, p.y), (0, idx));
    }
}

#[test]
fn single_cell_is_the_origin() {
    let p = gilbert::gilbert_d2xy(0, 1, 1);
    assert_eq!(p, gilbert::Point { x: 0, y: 0 });
}

#[test]
fn two_by_two_is_a_hilbert_cell() {
    let expected = [(0, 0), (0, 1), (1, 1), (1, 0)];
    for idx in 0..4u32 {
        let p = paths::gilbert_d2xy(idx, 2, 2);
        assert_eq!((p.0, p.1), expected[idx as usize]);
    }
}

#[test]
fn four_by_four_is_the_hilbert_curve() {
    let expected = [
        (0, 0), (1, 0), (1, 1), (0, 1), (0, 2), (0, 3), (1, 3), (1, 2),
        (2, 2), (2, 3), (3, 3), (3, 2), (3, 1), (2, 1), (2, 0), (3, 0),
    ];
    for idx in 0..16 {
        let p = gilbert::gilbert_d2xy(idx, 4, 4);
        assert_eq!((p.x, p.y), expected[idx as usize], "position {}", idx);
    }
}

#[test]
fn three_by_two_goes_out_and_comes_back() {
    let expected = [(0, 0), (0, 1), (1, 1), (2, 1), (2, 0), (1, 0)];
    for idx in 0..6 {
        let p = gilbert::gilbert_d2xy(idx, 3, 2);
        assert_eq!((p.x, p.y), expected[idx as usize], "position {}", idx);
    }
}

#[test]
fn four_by_two_takes_the_wide_split() {
    let expected = [(0, 0), (0, 1), (1, 1), (1, 0), (2, 0), (2, 1), (3, 1), (3, 0)];
    for idx in 0..8 {
        let p = gilbert::gilbert_d2xy(idx, 4, 2);
        assert_eq!((p.x, p.y), expected[idx as usize], "position {}", idx);
    }
}

#[test]
fn tall_grid_walks_its_long_side_first() {
    let expected = [(0, 0), (1, 0), (1, 1), (1, 2), (0, 2), (0, 1)];
    for idx in 0..6 {
        let p = gilbert::gilbert_d2xy(idx, 2, 3);
        assert_eq!((p.x, p.y), expected[idx as usize], "position {}", idx);
    }
}

#[test]
fn both_entry_points_agree() {
    for idx in 0..35 {
        let a = gilbert::gilbert_d2xy(idx, 7, 5);
        let b = paths::gilbert_d2xy(idx as u32, 7, 5);
        assert_eq!((a.x, a.y), (b.0, b.1));
    }
}

#[test]
fn curve_visits_every_cell_of_small_grids_once() {
    for w in 1..=12 {
        for h in 1..=12 {
            visits_every_cell_once(w, h);
        }
    }
}

#[test]
fn curve_visits_every_cell_of_odd_and_uneven_grids_once() {
    visits_every_cell_once(31, 17);
    visits_every_cell_once(100, 3);
    visits_every_cell_once(3, 100);
    visits_every_cell_once(64, 64);
    visits_every_cell_once(1, 97);
    visits_every_cell_once(97, 1);
}

#[test]
fn consecutive_cells_of_an_even_grid_are_neighbours() {
    let (w, h) = (8, 6);
    let mut before = paths::gilbert_d2xy(0, w, h);
    for idx in 1..w * h {
        let p = paths::gilbert_d2xy(idx, w, h);
        assert_eq!((p.0 - before.0).abs() + (p.1 - before.1).abs(), 1, "position {}", idx);
        before = p;
    }
}

#[test]
fn consecutive_cells_of_any_grid_touch() {
    for w in 1..=15u32 {
        for h in 1..=15u32 {
            let mut before = paths::gilbert_d2xy(0, w, h);
            assert_eq!((before.0, before.1), (0, 0));
            for idx in 1..w * h {
                let p = paths::gilbert_d2xy(idx, w, h);
                assert!((p.0 - before.0).abs() <= 1 && (p.1 - before.1).abs() <= 1);
                assert!(p != before);
                before = p;
            }
        }
    }
}

#[test]
fn uneven_grid_takes_a_diagonal_step() {
    let expected = [(4, 2), (3, 2), (4, 1), (3, 1)];
    for (n, idx) in (12..16).enumerate() {
        let p = gilbert::gilbert_d2xy(idx, 5, 4);
        assert_eq!((p.x, p.y), expected[n], "position {}", idx);
    }
}

#[test]
fn curve_reaches_the_last_position_of_a_large_grid() {
    let (w, h) = (40_000u32, 50_000u32);
    let p = paths::gilbert_d2xy(w * h - 1, w, h);
    assert!(0 <= p.0 && (p.0 as u32) < w);
    assert!(0 <= p.1 && (p.1 as u32) < h);
    let first = paths::gilbert_d2xy(0, w, h);
    assert_eq!((first.0, first.1), (0, 0));
}

#[test]
fn shift_moves_each_cell_down_by_its_column() {
    let expected = [(0, 0), (1, 1), (2, 2), (0, 1), (1, 2), (2, 3)];
    for idx in 0..6u32 {
        let p = paths::shift(idx, 3, 2);
        assert_eq!((p.0, p.1), expected[idx as usize]);
    }
}
