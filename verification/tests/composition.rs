use atomic_neural_transistors::composition::grid::{
    find_all_objects, find_connected_component, grid_count_value, grid_find_value, grids_equal,
    Region,
};
use atomic_neural_transistors::composition::sequence::{
    all_unique, contains, count_occurrences, find_positions, has_duplicate, is_marked_equal,
};
use atomic_neural_transistors::composition::traits::{EqualityChecker, PerfectEquality};
use atomic_neural_transistors::TernarySignal;

#[test]
fn test_grids_equal() {
    let checker = PerfectEquality;
    let a = vec![vec![1, 2], vec![3, 4]];
    let b = vec![vec![1, 2], vec![3, 4]];
    let c = vec![vec![1, 2], vec![3, 5]];

    assert!(grids_equal(&checker, &a, &b));
    assert!(!grids_equal(&checker, &a, &c));
}

#[test]
fn test_find_all_objects() {
    let checker = PerfectEquality;
    let grid = vec![
        vec![1, 1, 0, 2, 2],
        vec![1, 0, 0, 0, 2],
        vec![0, 0, 3, 0, 0],
    ];

    let objects = find_all_objects(&checker, &grid, 0);
    assert_eq!(objects.len(), 3);
}

#[test]
fn test_contains() {
    let checker = PerfectEquality;
    assert!(contains(&checker, 5, &[1, 2, 3, 5, 7]));
    assert!(!contains(&checker, 9, &[1, 2, 3, 5, 7]));
    assert!(!contains(&checker, 5, &[]));
}

#[test]
fn test_has_duplicate() {
    let checker = PerfectEquality;
    assert!(has_duplicate(&checker, &[1, 2, 3, 2, 5]));
    assert!(!has_duplicate(&checker, &[1, 2, 3, 4, 5]));
    assert!(!has_duplicate(&checker, &[]));
    assert!(!has_duplicate(&checker, &[1]));
    assert!(has_duplicate(&checker, &[1, 1]));
}

#[test]
fn test_all_unique() {
    let checker = PerfectEquality;
    assert!(all_unique(&checker, &[1, 2, 3, 4, 5]));
    assert!(!all_unique(&checker, &[1, 2, 3, 2, 5]));
}

#[test]
fn test_count_occurrences() {
    let checker = PerfectEquality;
    assert_eq!(count_occurrences(&checker, 2, &[1, 2, 3, 2, 5, 2]), 3);
    assert_eq!(count_occurrences(&checker, 9, &[1, 2, 3, 4, 5]), 0);
}

#[test]
fn find_positions_lists_places_in_rising_order() {
    let checker = PerfectEquality;
    assert_eq!(find_positions(&checker, 2, &[1, 2, 3, 2, 5, 2]), vec![1, 3, 5]);
    assert_eq!(find_positions(&checker, 9, &[1, 2, 3]), Vec::<usize>::new());
}

#[test]
fn is_marked_equal_reads_the_value_behind_the_first_mark() {
    let checker = PerfectEquality;
    assert_eq!(is_marked_equal(&checker, 7, &[1, 99, 7, 99, 8], 99), Some(true));
    assert_eq!(is_marked_equal(&checker, 8, &[1, 99, 7, 99, 8], 99), Some(false));
    assert_eq!(is_marked_equal(&checker, 7, &[1, 2, 3], 99), None);
    assert_eq!(is_marked_equal(&checker, 7, &[1, 2, 99], 99), None);
}

#[test]
fn perfect_equality_answers_with_full_or_no_confidence() {
    let checker = PerfectEquality;
    assert_eq!(checker.check_equal(4, 4), TernarySignal { polarity: 1, magnitude: 255 });
    assert_eq!(checker.check_equal(4, 5), TernarySignal { polarity: 0, magnitude: 0 });
}

struct Hesitant;

impl EqualityChecker for Hesitant {
    fn verdict(&self, a: u32, b: u32) -> TernarySignal {
        self.check_equal(a, b)
    }

    fn check_equal(&self, a: u32, b: u32) -> TernarySignal {
        // 127 of 255 is just below half, 128 just above
        if a == b {
            TernarySignal::positive(128)
        } else if a + 1 == b {
            TernarySignal::positive(127)
        } else {
            TernarySignal::negative(255)
        }
    }
}

#[test]
fn a_signal_affirms_from_128_of_255() {
    let checker = Hesitant;
    assert!(contains(&checker, 5, &[5]));
    assert!(!contains(&checker, 4, &[5]));
    assert!(!contains(&checker, 1, &[5]));
}

#[test]
fn grids_of_different_height_or_first_width_differ() {
    let checker = PerfectEquality;
    let a = vec![vec![1, 2]];
    let b = vec![vec![1, 2], vec![3, 4]];
    let c = vec![vec![1, 2, 3]];
    let empty: Vec<Vec<u32>> = vec![];
    assert!(!grids_equal(&checker, &a, &b));
    assert!(!grids_equal(&checker, &a, &c));
    assert!(grids_equal(&checker, &empty, &empty));
}

#[test]
fn grids_are_compared_as_far_as_both_rows_go() {
    let checker = PerfectEquality;
    let a = vec![vec![1, 2], vec![3, 4, 9]];
    let b = vec![vec![1, 2], vec![3, 4]];
    assert!(grids_equal(&checker, &a, &b));
}

#[test]
fn grid_find_value_reads_row_by_row() {
    let checker = PerfectEquality;
    let grid = vec![vec![1, 0, 1], vec![0, 1, 0]];
    assert_eq!(grid_find_value(&checker, &grid, 1), vec![(0, 0), (0, 2), (1, 1)]);
    assert_eq!(grid_count_value(&checker, &grid, 1), 3);
    assert_eq!(grid_count_value(&checker, &grid, 0), 3);
    assert_eq!(grid_count_value(&checker, &grid, 7), 0);
}

#[test]
fn bounding_box_of_a_region() {
    let region = Region { positions: vec![(2, 5), (3, 4), (1, 6)], value: 9 };
    assert_eq!(region.bounding_box(), (1, 4, 3, 6));
    assert_eq!(region.dimensions(), (3, 3));
    assert_eq!(region.size(), 3);
}

#[test]
fn empty_region_has_a_zero_box_and_no_grid() {
    let region = Region { positions: vec![], value: 9 };
    assert_eq!(region.bounding_box(), (0, 0, 0, 0));
    assert_eq!(region.dimensions(), (1, 1));
    assert_eq!(region.size(), 0);
    assert_eq!(region.as_grid(7), Vec::<Vec<u32>>::new());
}

#[test]
fn as_grid_fills_the_box_with_background() {
    let region = Region { positions: vec![(2, 5), (3, 4), (1, 6)], value: 9 };
    assert_eq!(
        region.as_grid(0),
        vec![vec![0, 0, 9], vec![0, 9, 0], vec![9, 0, 0]]
    );
}

#[test]
fn flood_fill_takes_the_connected_cells_and_marks_them() {
    let checker = PerfectEquality;
    let grid = vec![
        vec![1, 1, 0, 2, 2],
        vec![1, 0, 0, 0, 2],
        vec![0, 0, 3, 0, 0],
    ];
    let mut visited = vec![vec![false; 5]; 3];
    let region = find_connected_component(&checker, &grid, 0, 0, &mut visited);
    assert_eq!(region.value, 1);
    assert_eq!(region.positions[0], (0, 0));
    let mut cells = region.positions.clone();
    cells.sort();
    assert_eq!(cells, vec![(0, 0), (0, 1), (1, 0)]);
    assert_eq!(
        visited,
        vec![
            vec![true, true, false, false, false],
            vec![true, false, false, false, false],
            vec![false, false, false, false, false],
        ]
    );
}

#[test]
fn flood_fill_from_a_seen_cell_or_off_the_grid_is_empty() {
    let checker = PerfectEquality;
    let grid = vec![vec![4, 4], vec![4, 4]];
    let mut visited = vec![vec![true, false], vec![false, false]];
    let seen = find_connected_component(&checker, &grid, 0, 0, &mut visited);
    assert_eq!(seen, Region { positions: vec![], value: 0 });
    let off = find_connected_component(&checker, &grid, 2, 0, &mut visited);
    assert_eq!(off, Region { positions: vec![], value: 0 });
    assert_eq!(visited, vec![vec![true, false], vec![false, false]]);
}

#[test]
fn flood_fill_does_not_cross_seen_cells() {
    let checker = PerfectEquality;
    let grid = vec![vec![4, 4, 4]];
    let mut visited = vec![vec![false, true, false]];
    let region = find_connected_component(&checker, &grid, 0, 0, &mut visited);
    assert_eq!(region.positions, vec![(0, 0)]);
}

#[test]
fn objects_come_in_reading_order_of_their_first_cell() {
    let checker = PerfectEquality;
    let grid = vec![
        vec![1, 1, 0, 2, 2],
        vec![1, 0, 0, 0, 2],
        vec![0, 0, 3, 0, 0],
    ];
    let objects = find_all_objects(&checker, &grid, 0);
    assert_eq!(objects[0].value, 1);
    assert_eq!(objects[0].positions[0], (0, 0));
    assert_eq!(objects[0].size(), 3);
    assert_eq!(objects[1].value, 2);
    assert_eq!(objects[1].positions[0], (0, 3));
    assert_eq!(objects[1].size(), 3);
    assert_eq!(objects[2].value, 3);
    assert_eq!(objects[2].positions, vec![(2, 2)]);
}

#[test]
fn a_grid_of_background_has_no_objects() {
    let checker = PerfectEquality;
    let grid = vec![vec![0, 0], vec![0, 0]];
    assert_eq!(find_all_objects(&checker, &grid, 0).len(), 0);
    let empty: Vec<Vec<u32>> = vec![];
    assert_eq!(find_all_objects(&checker, &empty, 0).len(), 0);
}
