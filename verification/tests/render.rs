use goool::game::Game;
use goool::CellType;

fn board(rows: &[&str]) -> Vec<Vec<bool>> {
    rows.iter().map(|row| row.chars().map(|c| c == '#').collect()).collect()
}

#[test]
fn big_cells_take_two_characters() {
    let game = Game::from_cells(CellType::Big, None, None, (4, 2), board(&["#.", ".#"])).unwrap();
    assert_eq!(game.print_big_cells(), "██  \n  ██");
}

#[test]
fn big_cells_of_empty_board() {
    let game = Game::from_cells(CellType::Big, None, None, (4, 0), vec![]).unwrap();
    assert_eq!(game.print_big_cells(), "");
    let flat = Game::from_cells(CellType::Big, None, None, (1, 3), vec![vec![], vec![], vec![]]).unwrap();
    assert_eq!(flat.print_big_cells(), "\n\n");
}

#[test]
fn small_cells_pair_rows() {
    let game = Game::from_cells(CellType::Small, None, None, (4, 1), board(&["##..", "#.#."])).unwrap();
    assert_eq!(game.print_small_cells(), "█▀▄ ");
}

#[test]
fn small_cells_lines() {
    let game = Game::from_cells(CellType::Small, None, None, (1, 2), board(&["#", ".", ".", "#"])).unwrap();
    assert_eq!(game.print_small_cells(), "▀\n▄");
}

#[test]
fn braille_cells_pack_eight() {
    let game = Game::from_cells(CellType::Braille, None, None, (2, 1), board(&["#..#", "....", "....", "...#"])).unwrap();
    assert_eq!(game.print_braille_cells(), "\u{2801}\u{2888}");
    let full = Game::from_cells(CellType::Braille, None, None, (1, 2), vec![vec![true; 2]; 8]).unwrap();
    assert_eq!(full.print_braille_cells(), "⣿\n⣿");
}

#[test]
fn frame_without_colors_ends_in_reset() {
    let game = Game::from_cells(CellType::Big, None, None, (2, 1), board(&["#"])).unwrap();
    assert_eq!(game.print(), "██\x1B[0m");
}

#[test]
fn frame_with_colors() {
    let game =
        Game::from_cells(CellType::Small, Some((231, 194, 125)), Some((0, 7, 100)), (1, 1), board(&["#", "#"])).unwrap();
    assert_eq!(game.print(), "\x1B[38;2;231;194;125m\x1B[48;2;0;7;100m█\x1B[0m");
}

#[test]
fn frame_with_one_color() {
    let alive = Game::from_cells(CellType::Braille, Some((255, 10, 9)), None, (1, 1), vec![vec![false; 2]; 4]).unwrap();
    assert_eq!(alive.print(), "\x1B[38;2;255;10;9m\u{2800}\x1B[0m");
    let dead = Game::from_cells(CellType::Big, None, Some((24, 32, 32)), (2, 1), board(&["."])).unwrap();
    assert_eq!(dead.print(), "\x1B[48;2;24;32;32m  \x1B[0m");
}

#[test]
fn braille_edge_tiles_show_missing_cells_dead() {
    let game = Game::from_cells(CellType::Big, None, None, (6, 3), board(&["#.#", "...", "#.#"])).unwrap();
    assert_eq!(game.print_braille_cells(), "\u{2805}\u{2805}");
    let column = Game::from_cells(CellType::Big, None, None, (2, 5), board(&["#", "#", "#", "#", "#"])).unwrap();
    assert_eq!(column.print_braille_cells(), "\u{2847}\n\u{2801}");
}

#[test]
fn braille_of_board_without_cells() {
    let empty = Game::from_cells(CellType::Braille, None, None, (3, 0), vec![]).unwrap();
    assert_eq!(empty.print_braille_cells(), "");
    let flat = Game::from_cells(CellType::Braille, None, None, (0, 2), vec![vec![]; 8]).unwrap();
    assert_eq!(flat.print_braille_cells(), "\n");
}

#[test]
fn small_cells_of_board_without_cells() {
    let empty = Game::from_cells(CellType::Small, None, None, (3, 0), vec![]).unwrap();
    assert_eq!(empty.print_small_cells(), "");
    assert_eq!(empty.print(), "\x1B[0m");
}
