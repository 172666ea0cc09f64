use connect_four::{Board, Player, COLS, ROWS};

fn board_with(drops: &[u8]) -> Board {
    let mut b = Board::new();
    for &c in drops {
        b.drop_tile(c);
    }
    b
}

fn assert_gravity(b: &Board) {
    for c in 0..COLS {
        let mut seen_tile = false;
        for r in 0..ROWS {
            if b.tile(r, c).is_some() {
                seen_tile = true;
            } else {
                assert!(!seen_tile, "gap below a tile in column {c} at row {r}");
            }
        }
    }
}

#[test]
fn new_board_is_empty() {
    let b = Board::new();
    for r in 0..ROWS {
        for c in 0..COLS {
            assert_eq!(b.tile(r, c), None);
        }
    }
    assert_eq!(b.current_player(), Player::Red);
    assert_eq!(b.winner(), None);
    assert_eq!(b.preview(), None);
    assert_eq!(b.find_win(), None);
}

#[test]
fn drop_lands_on_bottom_row() {
    let mut b = Board::new();
    assert!(b.drop_tile(4));
    assert_eq!(b.tile(ROWS - 1, 4), Some(Player::Red));
    assert_eq!(b.tile(ROWS - 2, 4), None);
    assert_eq!(b.current_player(), Player::Yellow);
}

#[test]
fn drops_stack_in_a_column() {
    let b = board_with(&[1, 1, 1]);
    assert_eq!(b.tile(5, 1), Some(Player::Red));
    assert_eq!(b.tile(4, 1), Some(Player::Yellow));
    assert_eq!(b.tile(3, 1), Some(Player::Red));
    assert_eq!(b.tile(2, 1), None);
    assert_gravity(&b);
}

#[test]
fn gravity_holds_over_a_long_sequence() {
    let mut b = Board::new();
    let cols: [u8; 20] = [0, 6, 3, 3, 2, 5, 9, 1, 1, 0, 6, 6, 4, 2, 2, 5, 3, 0, 6, 1];
    for &c in cols.iter() {
        b.drop_tile(c);
        assert_gravity(&b);
    }
}

#[test]
fn turn_flips_only_on_accepted_drop() {
    let mut b = Board::new();
    assert!(b.drop_tile(0));
    assert_eq!(b.current_player(), Player::Yellow);
    assert!(!b.drop_tile(7));
    assert_eq!(b.current_player(), Player::Yellow);
    assert!(!b.drop_tile(200));
    assert_eq!(b.current_player(), Player::Yellow);
    assert!(b.drop_tile(1));
    assert_eq!(b.current_player(), Player::Red);
}

#[test]
fn full_column_is_rejected() {
    let mut b = board_with(&[3, 3, 3, 3, 3, 3]);
    for r in 0..ROWS {
        assert!(b.tile(r, 3).is_some());
    }
    let before: Vec<Option<Player>> = (0..ROWS * COLS).map(|i| b.tile(i / COLS, i % COLS)).collect();
    let player = b.current_player();
    assert!(!b.drop_tile(3));
    let after: Vec<Option<Player>> = (0..ROWS * COLS).map(|i| b.tile(i / COLS, i % COLS)).collect();
    assert_eq!(before, after);
    assert_eq!(b.current_player(), player);
}

#[test]
fn horizontal_win_keeps_the_winner_current() {
    // Red on the bottom row in columns 0 to 3, yellow above it.
    let b = board_with(&[0, 0, 1, 1, 2, 2, 3]);
    assert_eq!(b.winner(), Some(Player::Red));
    assert_eq!(b.current_player(), Player::Red);
    assert_eq!(b.find_win(), Some(Player::Red));
}

#[test]
fn bottom_row_four_red_is_a_win() {
    // Red fills row 5, columns 0 to 3; yellow's tiles go to column 6.
    let b = board_with(&[0, 6, 1, 6, 2, 6, 3]);
    for c in 0..4 {
        assert_eq!(b.tile(5, c), Some(Player::Red));
    }
    assert_eq!(b.find_win(), Some(Player::Red));
    assert_eq!(b.winner(), Some(Player::Red));
}

#[test]
fn vertical_win() {
    let b = board_with(&[2, 3, 2, 3, 2, 3, 2]);
    assert_eq!(b.winner(), Some(Player::Red));
}

#[test]
fn yellow_vertical_win() {
    let b = board_with(&[0, 5, 1, 5, 0, 5, 1, 5]);
    assert_eq!(b.winner(), Some(Player::Yellow));
    assert_eq!(b.current_player(), Player::Yellow);
}

#[test]
fn falling_diagonal_win() {
    // Red ends on (2,0), (3,1), (4,2), (5,3).
    let b = board_with(&[3, 2, 2, 1, 1, 0, 1, 0, 0, 6, 0]);
    assert_eq!(b.tile(2, 0), Some(Player::Red));
    assert_eq!(b.tile(3, 1), Some(Player::Red));
    assert_eq!(b.tile(4, 2), Some(Player::Red));
    assert_eq!(b.tile(5, 3), Some(Player::Red));
    assert_eq!(b.winner(), Some(Player::Red));
}

#[test]
fn rising_diagonal_win() {
    // Red ends on (5,0), (4,1), (3,2), (2,3).
    let b = board_with(&[0, 1, 1, 2, 2, 3, 2, 3, 3, 6, 3]);
    assert_eq!(b.tile(5, 0), Some(Player::Red));
    assert_eq!(b.tile(4, 1), Some(Player::Red));
    assert_eq!(b.tile(3, 2), Some(Player::Red));
    assert_eq!(b.tile(2, 3), Some(Player::Red));
    assert_eq!(b.winner(), Some(Player::Red));
}

#[test]
fn three_in_a_row_is_no_win() {
    let b = board_with(&[0, 0, 1, 1, 2, 2]);
    assert_eq!(b.winner(), None);
    assert_eq!(b.find_win(), None);
}

#[test]
fn drops_after_a_win_are_ignored() {
    let mut b = board_with(&[0, 6, 1, 6, 2, 6, 3]);
    assert_eq!(b.winner(), Some(Player::Red));
    for c in 0..10u8 {
        assert!(!b.drop_tile(c));
    }
    assert_eq!(b.tile(4, 0), None);
    assert_eq!(b.tile(2, 6), None);
    assert_eq!(b.winner(), Some(Player::Red));
    assert_eq!(b.current_player(), Player::Red);
}

#[test]
fn preview_is_set_and_cleared() {
    let mut b = Board::new();
    b.set_preview(Some(5));
    assert_eq!(b.preview(), Some(5));
    b.set_preview(None);
    assert_eq!(b.preview(), None);
}

#[test]
fn preview_survives_a_win() {
    let mut b = board_with(&[0, 6, 1, 6, 2, 6, 3]);
    b.set_preview(Some(2));
    assert_eq!(b.preview(), Some(2));
    assert_eq!(b.winner(), Some(Player::Red));
}

#[test]
fn opponent_swaps_players() {
    assert_eq!(Player::Red.opponent(), Player::Yellow);
    assert_eq!(Player::Yellow.opponent(), Player::Red);
}
