use gamesync::grid::{grid_rows_for, keyboard_order, move_selection, row_for_slot};

#[test]
fn ungrouped_slots_fill_rows_of_the_column_count() {
    let rows = grid_rows_for(7, &vec![], 3);
    assert_eq!(rows, vec![(None, vec![0, 1, 2]), (None, vec![3, 4, 5]), (None, vec![6])]);
    assert!(grid_rows_for(0, &vec![], 3).is_empty());
    assert_eq!(row_for_slot(&rows, 4), 1);
    assert_eq!(row_for_slot(&rows, 9), 0);
}

#[test]
fn groups_get_a_header_row_with_their_size() {
    let groups = vec![("Cozy".to_string(), vec![0, 2]), ("No collection".to_string(), vec![0, 1, 3])];
    let rows = grid_rows_for(4, &groups, 2);
    assert_eq!(
        rows,
        vec![
            (Some("Cozy \u{b7} 2".to_string()), vec![]),
            (None, vec![0, 2]),
            (Some("No collection \u{b7} 3".to_string()), vec![]),
            (None, vec![0, 1]),
            (None, vec![3]),
        ]
    );
    assert_eq!(row_for_slot(&rows, 0), 1);
    assert_eq!(row_for_slot(&rows, 3), 4);
    assert_eq!(keyboard_order(&rows), vec![0, 2, 1, 3]);
}

#[test]
fn keyboard_moves_stop_at_the_ends() {
    let order = vec![0, 2, 1, 3];
    assert_eq!(move_selection(&order, None, 1), Some(0));
    assert_eq!(move_selection(&order, Some(2), 1), Some(1));
    assert_eq!(move_selection(&order, Some(2), -5), Some(0));
    assert_eq!(move_selection(&order, Some(1), 100), Some(3));
    assert_eq!(move_selection(&order, Some(9), -1), Some(0));
    assert_eq!(move_selection(&order, Some(3), isize::MAX), Some(3));
    assert_eq!(move_selection(&order, Some(0), isize::MIN), Some(0));
    assert_eq!(move_selection(&vec![], Some(0), 1), None);
}
