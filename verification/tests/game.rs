use goool::game::{board_size, copy_board, grid_dimensions, random_board, same_board, Game};
use goool::CellType;

fn board(rows: &[&str]) -> Vec<Vec<bool>> {
    rows.iter().map(|row| row.chars().map(|c| c == '#').collect()).collect()
}

fn big_game(rows: &[&str]) -> Game {
    let height = rows.len();
    let width = rows[0].len();
    Game::from_cells(CellType::Big, None, None, (width * 2, height), board(rows)).unwrap()
}

#[test]
fn dimension_mapping() {
    assert_eq!(Game::new(CellType::Big, None, None, (80, 24)).calculate_board_dimensions(), (40, 24));
    assert_eq!(Game::new(CellType::Small, None, None, (80, 24)).calculate_board_dimensions(), (80, 48));
    assert_eq!(Game::new(CellType::Braille, None, None, (80, 24)).calculate_board_dimensions(), (160, 96));
    assert_eq!(board_size(CellType::Big, (81, 24)), (40, 24));
    assert_eq!(grid_dimensions(CellType::Braille, (3, 5)), Some((6, 20)));
}

#[test]
fn dimensions_that_do_not_fit() {
    assert_eq!(grid_dimensions(CellType::Big, (usize::MAX, usize::MAX)), Some((usize::MAX / 2, usize::MAX)));
    assert_eq!(grid_dimensions(CellType::Small, (1, usize::MAX / 2 + 1)), None);
    assert_eq!(grid_dimensions(CellType::Small, (usize::MAX, usize::MAX / 2)), Some((usize::MAX, usize::MAX - 1)));
    assert_eq!(grid_dimensions(CellType::Braille, (usize::MAX / 2 + 1, 1)), None);
    assert_eq!(grid_dimensions(CellType::Braille, (1, usize::MAX / 4 + 1)), None);
}

#[test]
fn new_game_has_board_of_terminal_size() {
    let game = Game::new(CellType::Braille, Some((1, 2, 3)), None, (5, 3));
    assert_eq!(game.cells().len(), 12);
    assert!(game.cells().iter().all(|row| row.len() == 10));
    assert_eq!(game.cell_type(), CellType::Braille);
    assert_eq!(game.alive_color(), Some((1, 2, 3)));
    assert_eq!(game.dead_color(), None);
    assert_eq!(game.resolution(), (5, 3));
    assert!(game.last_board().is_empty());
    assert!(game.board_before_last().is_empty());
}

#[test]
fn random_board_has_shape() {
    let cells = random_board(7, 3);
    assert_eq!(cells.len(), 3);
    assert!(cells.iter().all(|row| row.len() == 7));
    assert!(random_board(4, 0).is_empty());
}

#[test]
fn random_board_is_not_constant() {
    let cells = random_board(64, 64);
    assert!(cells.iter().flatten().any(|&c| c));
    assert!(cells.iter().flatten().any(|&c| !c));
}

#[test]
fn from_cells_checks_shape() {
    assert!(Game::from_cells(CellType::Big, None, None, (4, 2), board(&["..", ".."])).is_some());
    assert!(Game::from_cells(CellType::Big, None, None, (4, 2), board(&["..", "..."])).is_none());
    assert!(Game::from_cells(CellType::Big, None, None, (4, 2), board(&[".."])).is_none());
    assert!(Game::from_cells(CellType::Small, None, None, (2, 1), board(&["..", ".."])).is_some());
    assert!(Game::from_cells(CellType::Small, None, None, (1, usize::MAX), vec![]).is_none());
}

#[test]
fn dead_board_stays_dead() {
    let mut game = big_game(&["....", "....", "....", "...."]);
    assert_eq!(game.next_generation(), board(&["....", "....", "....", "...."]));
    game.update((8, 4));
    assert_eq!(game.cells(), &board(&["....", "....", "....", "...."]));
}

#[test]
fn block_is_still_life() {
    let game = big_game(&["....", ".##.", ".##.", "...."]);
    assert_eq!(game.next_generation(), board(&["....", ".##.", ".##.", "...."]));
    let corner = big_game(&["##.", "##.", "..."]);
    assert_eq!(corner.next_generation(), board(&["##.", "##.", "..."]));
}

#[test]
fn blinker_turns() {
    let game = big_game(&["...", "###", "..."]);
    assert_eq!(game.next_generation(), board(&[".#.", ".#.", ".#."]));
}

#[test]
fn rule_on_each_neighbor_count() {
    // a dead cell with three neighbours is born, a live cell with four dies,
    // a live cell with two or three stays
    let game = big_game(&["##.", "##.", "#.."]);
    assert_eq!(game.next_generation(), board(&["##.", "...", "##."]));
    // a live cell with one neighbour dies
    let pair = big_game(&["##.", "...", "..."]);
    assert_eq!(pair.next_generation(), board(&["...", "...", "..."]));
}

#[test]
fn neighbors_are_counted_without_wraparound() {
    let game = big_game(&["#.#", "...", "#.#"]);
    assert_eq!(game.count_neighbors(1, 1), 4);
    assert_eq!(game.count_neighbors(0, 0), 0);
    assert_eq!(game.count_neighbors(0, 1), 2);
    assert_eq!(game.count_neighbors(1, 0), 2);
    let full = big_game(&["###", "###", "###"]);
    assert_eq!(full.count_neighbors(1, 1), 8);
    assert_eq!(full.count_neighbors(0, 0), 3);
    assert_eq!(full.count_neighbors(0, 1), 5);
    assert_eq!(full.count_neighbors(2, 2), 3);
    assert_eq!(full.count_neighbors(3, 3), 1);
    assert_eq!(full.count_neighbors(usize::MAX, usize::MAX), 0);
    assert_eq!(full.count_neighbors(5, 1), 0);
}

#[test]
fn is_alive_is_false_outside() {
    let game = big_game(&["#.", ".#"]);
    assert!(game.is_alive(0, 0));
    assert!(!game.is_alive(0, 1));
    assert!(game.is_alive(1, 1));
    assert!(!game.is_alive(2, 0));
    assert!(!game.is_alive(0, 2));
}

#[test]
fn update_moves_board_into_history() {
    let mut game = big_game(&["...", "###", "..."]);
    assert!(!game.needs_reseed((6, 3)));
    game.update((6, 3));
    assert_eq!(game.cells(), &board(&[".#.", ".#.", ".#."]));
    assert_eq!(game.last_board(), &board(&["...", "###", "..."]));
    assert!(game.board_before_last().is_empty());
    game.update((6, 3));
    assert_eq!(game.cells(), &board(&["...", "###", "..."]));
    assert_eq!(game.last_board(), &board(&[".#.", ".#.", ".#."]));
    assert_eq!(game.board_before_last(), &board(&["...", "###", "..."]));
}

#[test]
fn two_cycle_is_reseeded() {
    let mut game = big_game(&["...", "###", "..."]);
    game.update((6, 3));
    game.update((6, 3));
    assert!(game.needs_reseed((6, 3)));
    game.update((6, 3));
    assert_eq!(game.cells().len(), 3);
    assert!(game.cells().iter().all(|row| row.len() == 3));
    assert_eq!(game.resolution(), (6, 3));
    assert_eq!(game.last_board(), &board(&["...", "###", "..."]));
    assert_eq!(game.board_before_last(), &board(&[".#.", ".#.", ".#."]));
}

#[test]
fn two_cycle_reseed_is_random() {
    // a block on a large board is stable, so the third tick reseeds: the
    // chance that 4096 coin tosses give the block again is nil
    let mut rows = vec![vec![false; 64]; 64];
    rows[1][1] = true;
    rows[1][2] = true;
    rows[2][1] = true;
    rows[2][2] = true;
    let mut game = Game::from_cells(CellType::Big, None, None, (128, 64), rows.clone()).unwrap();
    game.update((128, 64));
    assert_eq!(game.cells(), &rows);
    game.update((128, 64));
    assert_eq!(game.cells(), &rows);
    game.update((128, 64));
    assert!(game.cells() != &rows);
    assert_eq!(game.last_board(), &rows);
}

#[test]
fn resize_is_reseeded() {
    let mut game = big_game(&["...", "###", "..."]);
    assert!(game.needs_reseed((10, 5)));
    game.update((10, 5));
    assert_eq!(game.resolution(), (10, 5));
    assert_eq!(game.calculate_board_dimensions(), (5, 5));
    assert_eq!(game.cells().len(), 5);
    assert!(game.cells().iter().all(|row| row.len() == 5));
    assert_eq!(game.last_board(), &board(&["...", "###", "..."]));
}

#[test]
fn setup_lays_board_out_anew() {
    let mut game = big_game(&["...", "###", "..."]);
    game.setup();
    assert_eq!(game.cells().len(), 3);
    assert!(game.cells().iter().all(|row| row.len() == 3));
    assert_eq!(game.resolution(), (6, 3));
}

#[test]
fn replace_board_shifts_history() {
    let mut game = big_game(&["#."]);
    game.replace_board((2, 2), board(&["#", "."]));
    assert_eq!(game.cells(), &board(&["#", "."]));
    assert_eq!(game.resolution(), (2, 2));
    assert_eq!(game.last_board(), &board(&["#."]));
}

#[test]
fn boards_are_compared_cell_by_cell() {
    assert!(same_board(&board(&["#.", ".#"]), &board(&["#.", ".#"])));
    assert!(!same_board(&board(&["#.", ".#"]), &board(&["#.", ".."])));
    assert!(!same_board(&board(&["#.", ".#"]), &board(&["#."])));
    assert!(!same_board(&board(&["#."]), &board(&["#"])));
    assert!(same_board(&vec![], &vec![]));
    assert_eq!(copy_board(&board(&["#.", ".#"])), board(&["#.", ".#"]));
}
