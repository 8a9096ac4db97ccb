//! End-to-end tests of the level parser: the reference fixture, each error
//! kind, warp handling, board encoding, and determinism.

use paku::errors::PacError;
use paku::game::Game;

fn level(rows: &[&str]) -> String {
    rows.join("\n")
}

fn fixture_rows() -> Vec<String> {
    vec![
        "############".to_string(),
        "#          #".to_string(),
        "#@@@@@@@@  #".to_string(),
        "#@@@@@@@@  #".to_string(),
        "#@@@@@@@@  #".to_string(),
        "#@@@@@@@@  #".to_string(),
        "#@@@@@@@@  #".to_string(),
        "#      $$  #".to_string(),
        "############".to_string(),
    ]
}

fn fixture() -> String {
    fixture_rows().join("\n")
}

fn err_of(r: Result<Game, PacError>) -> PacError {
    match r {
        Err(e) => e,
        Ok(_) => panic!("expected the parse to fail"),
    }
}

fn set_char(rows: &mut [String], x: usize, y: usize, c: char) {
    let mut chars: Vec<char> = rows[y].chars().collect();
    chars[x] = c;
    rows[y] = chars.into_iter().collect();
}

#[test]
fn fixture_success() {
    let game = Game::try_from_text(&fixture()).unwrap_or_else(|_| panic!("fixture must parse"));
    assert_eq!(game.ghost_spawn, (1, 2));
    assert_eq!(game.pacman_spawn, (7, 7));
    assert_eq!(game.lives, 3);
    assert_eq!(game.points, 0);
    assert_eq!(game.warps.len(), 0);
    assert_eq!(game.board.nrows(), 9);
    assert_eq!(game.board.ncols(), 12);
    // positions are in half-tile units
    assert_eq!(game.pacman_loc, (15, 14));
    assert_eq!(game.blinky_loc, (9, 2));
    assert_eq!(game.pinky_loc, (9, 8));
    assert_eq!(game.inky_loc, (5, 8));
    assert_eq!(game.clyde_loc, (13, 8));
}

#[test]
fn fixture_board_codes() {
    let game = Game::try_from_text(&fixture()).unwrap_or_else(|_| panic!("fixture must parse"));
    // walls
    assert_eq!(game.board.get(0, 0), 1);
    assert_eq!(game.board.get(8, 11), 1);
    // open floor
    assert_eq!(game.board.get(1, 1), 0);
    // ghost markers become walls
    assert_eq!(game.board.get(2, 1), 1);
    assert_eq!(game.board.get(6, 8), 1);
    // pac markers become open floor
    assert_eq!(game.board.get(7, 7), 0);
    assert_eq!(game.board.get(7, 8), 0);
}

#[test]
fn dots_pellets_and_warps_encode() {
    let mut rows = fixture_rows();
    set_char(&mut rows, 1, 1, '-');
    set_char(&mut rows, 2, 1, '!');
    set_char(&mut rows, 9, 1, '1');
    set_char(&mut rows, 10, 1, '1');
    let game = Game::try_from_text(&level(
        &rows.iter().map(|s| s.as_str()).collect::<Vec<_>>(),
    ))
    .unwrap_or_else(|_| panic!("level must parse"));
    assert_eq!(game.board.get(1, 1), 2);
    assert_eq!(game.board.get(1, 2), 3);
    assert_eq!(game.board.get(1, 9), -1);
    assert_eq!(game.board.get(1, 10), -1);
}

#[test]
fn empty_text_is_level_empty() {
    assert_eq!(err_of(Game::try_from_text("")), PacError::LevelEmpty);
}

#[test]
fn empty_first_line_is_level_empty() {
    assert_eq!(err_of(Game::try_from_text("\n####")), PacError::LevelEmpty);
}

#[test]
fn ragged_rows_are_not_rectangular() {
    let text = level(&["####", "###", "####"]);
    assert_eq!(err_of(Game::try_from_text(&text)), PacError::LevelNotRectangular);
}

#[test]
fn no_pac_spawn() {
    let mut rows = fixture_rows();
    set_char(&mut rows, 7, 7, ' ');
    set_char(&mut rows, 8, 7, ' ');
    let text = rows.join("\n");
    assert_eq!(err_of(Game::try_from_text(&text)), PacError::NoPacSpawn);
}

#[test]
fn stray_pac_marker() {
    let mut rows = fixture_rows();
    set_char(&mut rows, 1, 1, '$');
    let text = rows.join("\n");
    assert_eq!(err_of(Game::try_from_text(&text)), PacError::InvalidPacSpawn);
}

#[test]
fn two_pac_pairs() {
    let mut rows = fixture_rows();
    set_char(&mut rows, 1, 1, '$');
    set_char(&mut rows, 2, 1, '$');
    let text = rows.join("\n");
    assert_eq!(err_of(Game::try_from_text(&text)), PacError::MultiplePacSpawns);
}

#[test]
fn broken_ghost_block() {
    let mut rows = fixture_rows();
    set_char(&mut rows, 3, 4, ' ');
    let text = rows.join("\n");
    assert_eq!(err_of(Game::try_from_text(&text)), PacError::InvalidGhostSpawn);
}

#[test]
fn nine_wide_block_is_invalid() {
    let mut rows = fixture_rows();
    for y in 2..7 {
        set_char(&mut rows, 9, y, '@');
    }
    let text = rows.join("\n");
    assert_eq!(err_of(Game::try_from_text(&text)), PacError::InvalidGhostSpawn);
}

#[test]
fn no_ghost_block() {
    let text = level(&["############", "#          #", "#      $$  #", "############"]);
    assert_eq!(err_of(Game::try_from_text(&text)), PacError::NoGhostSpawn);
}

#[test]
fn two_ghost_blocks() {
    let text = level(&[
        "############",
        "#          #",
        "#@@@@@@@@  #",
        "#@@@@@@@@  #",
        "#@@@@@@@@  #",
        "#@@@@@@@@  #",
        "#@@@@@@@@  #",
        "#          #",
        "#@@@@@@@@  #",
        "#@@@@@@@@  #",
        "#@@@@@@@@  #",
        "#@@@@@@@@  #",
        "#@@@@@@@@  #",
        "#      $$  #",
        "############",
    ]);
    assert_eq!(err_of(Game::try_from_text(&text)), PacError::MultipleGhostSpawns);
}

#[test]
fn block_at_top_edge_has_no_clearance() {
    let text = level(&[
        "#@@@@@@@@  #",
        "#@@@@@@@@  #",
        "#@@@@@@@@  #",
        "#@@@@@@@@  #",
        "#@@@@@@@@  #",
        "#      $$  #",
        "############",
    ]);
    assert_eq!(err_of(Game::try_from_text(&text)), PacError::InvalidGhostSpawnPeripheral);
}

#[test]
fn blocked_clearance_cell() {
    let mut rows = fixture_rows();
    set_char(&mut rows, 4, 1, '#');
    let text = rows.join("\n");
    assert_eq!(err_of(Game::try_from_text(&text)), PacError::InvalidGhostSpawnPeripheral);
}

#[test]
fn warp_pairs_are_recorded() {
    let mut rows = fixture_rows();
    set_char(&mut rows, 1, 1, '1');
    set_char(&mut rows, 10, 1, '1');
    set_char(&mut rows, 1, 7, '2');
    set_char(&mut rows, 2, 7, '2');
    let text = rows.join("\n");
    let game = Game::try_from_text(&text).unwrap_or_else(|_| panic!("level must parse"));
    assert_eq!(game.warps.len(), 2);
    assert_eq!(game.warps.get(&1), Some(&((1, 1), (10, 1))));
    assert_eq!(game.warps.get(&2), Some(&((1, 7), (2, 7))));
}

#[test]
fn skipped_digit_is_invalid() {
    let mut rows = fixture_rows();
    set_char(&mut rows, 1, 1, '1');
    set_char(&mut rows, 2, 1, '1');
    set_char(&mut rows, 3, 1, '3');
    set_char(&mut rows, 6, 1, '3');
    let text = rows.join("\n");
    assert_eq!(err_of(Game::try_from_text(&text)), PacError::InvalidWarp);
}

#[test]
fn lone_digit_is_invalid() {
    let mut rows = fixture_rows();
    set_char(&mut rows, 1, 1, '5');
    let text = rows.join("\n");
    assert_eq!(err_of(Game::try_from_text(&text)), PacError::InvalidWarp);
}

#[test]
fn digit_used_three_times_is_invalid() {
    let mut rows = fixture_rows();
    set_char(&mut rows, 1, 1, '1');
    set_char(&mut rows, 2, 1, '1');
    set_char(&mut rows, 3, 1, '1');
    let text = rows.join("\n");
    assert_eq!(err_of(Game::try_from_text(&text)), PacError::InvalidWarp);
}

#[test]
fn digits_not_starting_at_one_are_invalid() {
    let mut rows = fixture_rows();
    set_char(&mut rows, 1, 1, '2');
    set_char(&mut rows, 2, 1, '2');
    let text = rows.join("\n");
    assert_eq!(err_of(Game::try_from_text(&text)), PacError::InvalidWarp);
}

#[test]
fn zero_is_not_a_warp_id() {
    let mut rows = fixture_rows();
    set_char(&mut rows, 1, 1, '0');
    set_char(&mut rows, 2, 1, '0');
    let text = rows.join("\n");
    assert_eq!(err_of(Game::try_from_text(&text)), PacError::InvalidWarp);
}

#[test]
fn unknown_character_is_rejected() {
    let mut rows = fixture_rows();
    set_char(&mut rows, 1, 1, 'x');
    let text = rows.join("\n");
    assert_eq!(err_of(Game::try_from_text(&text)), PacError::InvalidCharacters);
}

#[test]
fn crlf_line_endings_parse_alike() {
    let crlf = fixture_rows().join("\r\n");
    let game = Game::try_from_text(&crlf).unwrap_or_else(|_| panic!("CRLF level must parse"));
    assert_eq!(game.ghost_spawn, (1, 2));
    assert_eq!(game.pacman_spawn, (7, 7));
    assert_eq!(game.board.ncols(), 12);
}

#[test]
fn trailing_newline_is_ignored() {
    let mut text = fixture();
    text.push('\n');
    let game = Game::try_from_text(&text).unwrap_or_else(|_| panic!("level must parse"));
    assert_eq!(game.board.nrows(), 9);
}

#[test]
fn parsing_twice_gives_identical_levels() {
    let mut rows = fixture_rows();
    set_char(&mut rows, 1, 1, '1');
    set_char(&mut rows, 10, 1, '1');
    let text = rows.join("\n");
    let a = Game::try_from_text(&text).unwrap_or_else(|_| panic!("level must parse"));
    let b = Game::try_from_text(&text).unwrap_or_else(|_| panic!("level must parse"));
    assert_eq!(a.pacman_loc, b.pacman_loc);
    assert_eq!(a.blinky_loc, b.blinky_loc);
    assert_eq!(a.pinky_loc, b.pinky_loc);
    assert_eq!(a.inky_loc, b.inky_loc);
    assert_eq!(a.clyde_loc, b.clyde_loc);
    assert_eq!(a.pacman_spawn, b.pacman_spawn);
    assert_eq!(a.ghost_spawn, b.ghost_spawn);
    assert_eq!(a.lives, b.lives);
    assert_eq!(a.points, b.points);
    assert_eq!(a.warps, b.warps);
    assert_eq!(a.board.nrows(), b.board.nrows());
    assert_eq!(a.board.ncols(), b.board.ncols());
    for y in 0..a.board.nrows() {
        for x in 0..a.board.ncols() {
            assert_eq!(a.board.get(y, x), b.board.get(y, x));
        }
    }
}

#[test]
fn placement_offsets() {
    let p = paku::game::derive_positions((1, 2), (7, 7));
    assert_eq!(p.pacman, (15, 14));
    assert_eq!(p.blinky, (9, 2));
    assert_eq!(p.pinky, (9, 8));
    assert_eq!(p.inky, (5, 8));
    assert_eq!(p.clyde, (13, 8));
}
