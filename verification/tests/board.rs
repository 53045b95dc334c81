use winesmeeper::board::Board;
use winesmeeper::field::Field;

fn closed() -> Field {
    Field { is_bomb: false, is_opened: false, is_flag: false }
}

fn grid(width: usize, height: usize) -> Vec<Vec<Field>> {
    vec![vec![closed(); height]; width]
}

fn board_of(cells: Vec<Vec<Field>>) -> Board {
    let width = cells.len();
    let height = if width > 0 { cells[0].len() } else { 0 };
    Board { board: cells, width, height, start_x: 0, start_y: 0, bomb_count: 0 }
}

fn count_bombs(b: &Board) -> usize {
    b.board.iter().flatten().filter(|f| f.is_bomb).count()
}

#[test]
fn new_rejects_small_sides() {
    assert_eq!(Board::new(9, 10, 5, 5, 10).unwrap_err(), "x and y size must be >= 10");
    assert_eq!(Board::new(10, 9, 5, 5, 10).unwrap_err(), "x and y size must be >= 10");
}

#[test]
fn new_rejects_start_off_board() {
    assert_eq!(Board::new(10, 10, 10, 0, 5).unwrap_err(), "starting position must be on the field");
    assert_eq!(Board::new(10, 12, 0, 12, 5).unwrap_err(), "starting position must be on the field");
}

#[test]
fn new_rejects_bad_bomb_counts() {
    assert_eq!(Board::new(10, 10, 5, 5, 0).unwrap_err(), "bomb count must be between 1 and 91");
    assert_eq!(Board::new(10, 10, 5, 5, 92).unwrap_err(), "bomb count must be between 1 and 91");
    assert_eq!(Board::new(10, 10, 0, 0, 97).unwrap_err(), "bomb count must be between 1 and 96");
    assert_eq!(Board::new(10, 10, 0, 5, 95).unwrap_err(), "bomb count must be between 1 and 94");
    assert_eq!(Board::new(12, 11, 3, 10, 200).unwrap_err(), "bomb count must be between 1 and 126");
}

#[test]
fn new_places_exactly_the_bombs_outside_the_start_zone() {
    for _ in 0..20 {
        let b = Board::new(10, 12, 4, 7, 30).unwrap();
        assert_eq!((b.width, b.height, b.start_x, b.start_y, b.bomb_count), (10, 12, 4, 7, 30));
        assert_eq!(b.board.len(), 10);
        assert!(b.board.iter().all(|r| r.len() == 12));
        assert_eq!(count_bombs(&b), 30);
        for x in 3..=5 {
            for y in 6..=8 {
                assert!(!b.board[x][y].is_bomb);
            }
        }
        assert!(b.board.iter().flatten().all(|f| !f.is_opened && !f.is_flag));
    }
}

#[test]
fn new_fills_every_free_square_at_the_maximum() {
    let b = Board::new(10, 10, 0, 0, 96).unwrap();
    assert_eq!(count_bombs(&b), 96);
    for x in 0..10 {
        for y in 0..10 {
            assert_eq!(b.board[x][y].is_bomb, !(x <= 1 && y <= 1));
        }
    }
    let b = Board::new(10, 10, 5, 5, 91).unwrap();
    assert_eq!(count_bombs(&b), 91);
    assert_eq!(b.get_bomb_neighbor(5, 5), 0);
}

#[test]
fn max_bombs_counts_squares_outside_the_zone() {
    assert_eq!(Board::max_bombs(10, 10, 5, 5), 91);
    assert_eq!(Board::max_bombs(10, 10, 0, 0), 96);
    assert_eq!(Board::max_bombs(10, 10, 9, 9), 96);
    assert_eq!(Board::max_bombs(10, 10, 0, 4), 94);
    assert_eq!(Board::max_bombs(20, 15, 19, 3), 294);
}

#[test]
fn is_edge_and_is_neighbor() {
    assert!(Board::is_edge(10, 0));
    assert!(Board::is_edge(10, 9));
    assert!(!Board::is_edge(10, 5));
    assert!(Board::is_neighbor(5, 5, 4, 6));
    assert!(Board::is_neighbor(5, 5, 5, 5));
    assert!(!Board::is_neighbor(5, 5, 7, 5));
    assert!(!Board::is_neighbor(0, 0, 0, 2));
}

#[test]
fn get_bomb_neighbor_counts_the_nine_squares() {
    let mut cells = grid(4, 4);
    cells[0][0].is_bomb = true;
    cells[1][1].is_bomb = true;
    cells[2][3].is_bomb = true;
    cells[3][3].is_bomb = true;
    let b = board_of(cells);
    assert_eq!(b.get_bomb_neighbor(1, 1), 2);
    assert_eq!(b.get_bomb_neighbor(2, 2), 3);
    assert_eq!(b.get_bomb_neighbor(1, 2), 2);
}

#[test]
fn get_field_reports_flags_closed_bombs_and_counts() {
    let mut cells = grid(4, 4);
    cells[0][0].is_bomb = true;
    cells[1][1].is_opened = true;
    cells[2][2].is_opened = true;
    cells[2][2].is_flag = true;
    cells[0][3].is_bomb = true;
    cells[0][3].is_opened = true;
    let b = board_of(cells);
    assert_eq!(b.get_field(3, 3), -1);
    assert_eq!(b.get_field(2, 2), -3);
    assert_eq!(b.get_field(0, 3), -2);
    assert_eq!(b.get_field(1, 1), 1);
}

#[test]
fn is_victory_tells_whether_a_safe_square_is_closed() {
    let mut cells = grid(2, 2);
    cells[0][0].is_bomb = true;
    cells[0][1].is_opened = true;
    cells[1][0].is_opened = true;
    let b = board_of(cells.clone());
    assert!(b.is_victory());
    cells[1][1].is_opened = true;
    let b = board_of(cells);
    assert!(!b.is_victory());
}

#[test]
fn display_string_shows_each_square() {
    let mut cells = grid(2, 3);
    cells[0][0].is_flag = true;
    cells[0][1].is_bomb = true;
    cells[0][1].is_opened = true;
    cells[1][0].is_opened = true;
    cells[1][2].is_bomb = true;
    let b = board_of(cells);
    assert_eq!(b.to_display_string(), "\u{1F6A9} \u{1F4A3} \u{25A0} \n\u{00B7} \u{25A0} \u{25A0} \n");
}

#[test]
fn free_squares_in_order_lists_row_by_row() {
    let mut cells = grid(4, 3);
    cells[3][0].is_bomb = true;
    let b = board_of(cells);
    let list = Board::free_squares_in_order(&b.board, 0, 0);
    assert_eq!(list, vec![(0, 2), (1, 2), (2, 0), (2, 1), (2, 2), (3, 1), (3, 2)]);
}

#[test]
fn bomb_drawn_square_bombs_only_that_square() {
    let mut cells = grid(3, 3);
    cells[1][2].is_opened = true;
    let mut candidates = vec![(0, 0), (1, 2), (2, 1)];
    let square = Board::bomb_drawn_square(&mut cells, &mut candidates, 1);
    assert_eq!(square, (1, 2));
    assert_eq!(candidates, vec![(0, 0), (2, 1)]);
    assert_eq!(cells[1][2], Field { is_bomb: true, is_opened: true, is_flag: false });
    assert_eq!(cells.iter().flatten().filter(|f| f.is_bomb).count(), 1);
}
