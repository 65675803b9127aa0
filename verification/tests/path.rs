use pixel_shuffle::paths::PathFn;
use pixel_shuffle::worker::{build_path, LoadPathMessage};

fn is_permutation_of_pixels(path: &[usize], cells: usize) {
    assert_eq!(path.len(), cells);
    let mut seen = vec![false; cells];
    for offset in path {
        assert_eq!(offset % 4, 0);
        assert!(offset / 4 < cells);
        assert!(!seen[offset / 4], "offset {} twice", offset);
        seen[offset / 4] = true;
    }
}

#[test]
fn path_of_a_single_row_is_the_row() {
    let path = build_path(&LoadPathMessage::new(4, 1, PathFn::Gilbert));
    assert_eq!(path, vec![0, 4, 8, 12]);
}

#[test]
fn path_of_a_single_column_is_the_column() {
    let path = build_path(&LoadPathMessage::new(1, 4, PathFn::Gilbert));
    assert_eq!(path, vec![0, 4, 8, 12]);
}

#[test]
fn path_of_two_by_two() {
    let path = build_path(&LoadPathMessage::new(2, 2, PathFn::Gilbert));
    assert_eq!(path, vec![0, 8, 12, 4]);
}

#[test]
fn path_of_three_by_three() {
    let path = build_path(&LoadPathMessage::new(3, 3, PathFn::Gilbert));
    assert_eq!(path, vec![0, 12, 24, 28, 32, 20, 16, 4, 8]);
}

#[test]
fn path_of_one_pixel() {
    let path = build_path(&LoadPathMessage::new(1, 1, PathFn::Gilbert));
    assert_eq!(path, vec![0]);
}

#[test]
fn path_has_one_offset_for_each_pixel() {
    for w in 1..=10u32 {
        for h in 1..=10u32 {
            let path = build_path(&LoadPathMessage::new(w, h, PathFn::Gilbert));
            is_permutation_of_pixels(&path, (w * h) as usize);
        }
    }
}

#[test]
fn path_length_is_positive_and_at_most_the_pixel_count() {
    for (w, h) in [(1u32, 1u32), (2, 5), (9, 4), (17, 13)] {
        let path = build_path(&LoadPathMessage::new(w, h, PathFn::Gilbert));
        assert!(!path.is_empty());
        assert!(path.len() <= (w * h) as usize);
    }
}

#[test]
fn shifted_path_wraps_rows_into_the_image() {
    let path = build_path(&LoadPathMessage::new(3, 2, PathFn::Shift));
    assert_eq!(path, vec![0, 16, 8, 12, 4, 20]);
}

#[test]
fn shifted_path_has_one_offset_for_each_pixel() {
    for (w, h) in [(1u32, 1u32), (5, 2), (2, 5), (7, 7), (6, 4)] {
        let path = build_path(&LoadPathMessage::new(w, h, PathFn::Shift));
        is_permutation_of_pixels(&path, (w * h) as usize);
    }
}

#[test]
fn load_path_message_keeps_its_fields() {
    let message = LoadPathMessage::new(640, 480, PathFn::Shift);
    assert_eq!(message.width, 640);
    assert_eq!(message.height, 480);
    assert_eq!(message.path_fn, PathFn::Shift);
}
