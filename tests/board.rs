use bingosync_gen::{cell_index, Board, FieldSize, SampleError, GRID_CELLS};

#[test]
fn new_board_is_blank() {
    let board = Board::new();
    assert_eq!(board.texts().len(), GRID_CELLS);
    assert!(board.texts().iter().all(|t| t.is_empty()));
}

#[test]
fn set_get_and_clear() {
    let mut board = Board::new();
    board.set(7, "seven".to_string());
    assert_eq!(board.get(7), "seven");
    assert_eq!(board.get(8), "");
    board.clear();
    assert_eq!(board.get(7), "");
}

#[test]
fn side_and_cell_counts() {
    assert_eq!(FieldSize::Three.side(), 3);
    assert_eq!(FieldSize::Four.side(), 4);
    assert_eq!(FieldSize::Five.side(), 5);
    assert_eq!(FieldSize::Three.num_cells(), 9);
    assert_eq!(FieldSize::Four.num_cells(), 16);
    assert_eq!(FieldSize::Five.num_cells(), 25);
    assert_eq!(FieldSize::default(), FieldSize::Five);
}

#[test]
fn board_side_outside_three_to_five_is_invalid() {
    assert_eq!(FieldSize::from_side(2), Err(SampleError::InvalidBoardSize));
    assert_eq!(FieldSize::from_side(6), Err(SampleError::InvalidBoardSize));
    assert_eq!(FieldSize::from_side(0), Err(SampleError::InvalidBoardSize));
    assert_eq!(FieldSize::from_side(3), Ok(FieldSize::Three));
    assert_eq!(FieldSize::from_side(4), Ok(FieldSize::Four));
    assert_eq!(FieldSize::from_side(5), Ok(FieldSize::Five));
}

#[test]
fn fill_order_per_size() {
    let three: Vec<usize> = (0..9).map(|j| cell_index(FieldSize::Three, j)).collect();
    assert_eq!(three, vec![6, 7, 8, 11, 12, 13, 16, 17, 18]);
    let four: Vec<usize> = (0..16).map(|j| cell_index(FieldSize::Four, j)).collect();
    assert_eq!(four, vec![0, 1, 2, 3, 5, 6, 7, 8, 10, 11, 12, 13, 15, 16, 17, 18]);
    let five: Vec<usize> = (0..25).map(|j| cell_index(FieldSize::Five, j)).collect();
    assert_eq!(five, (0..25).collect::<Vec<usize>>());
}

fn expected_json(names: &[&str]) -> String {
    let mut out = String::from("[\n");
    for (i, n) in names.iter().enumerate() {
        out.push_str("  {\n    \"name\": \"");
        out.push_str(n);
        out.push_str("\"\n  }");
        if i + 1 < names.len() {
            out.push(',');
        }
        out.push('\n');
    }
    out.push(']');
    out
}

#[test]
fn export_is_pretty_json_of_name_records() {
    let mut board = Board::new();
    board.set(0, "first".to_string());
    board.set(24, "say \"hi\"".to_string());
    let mut names = vec![""; 25];
    names[0] = "first";
    names[24] = "say \\\"hi\\\"";
    assert_eq!(board.to_json(), expected_json(&names));
}

#[test]
fn export_twice_is_byte_identical() {
    let mut board = Board::new();
    for i in 0..GRID_CELLS {
        board.set(i, format!("cell {}", i));
    }
    let a = board.to_json();
    let b = board.to_json();
    assert_eq!(a.as_bytes(), b.as_bytes());
}
