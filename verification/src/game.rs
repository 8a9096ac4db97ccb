//! The parse pipeline and its result: the validated level.
//!
//! `Game::try_from_text` runs the six stages in order — grid ingestion,
//! ghost-spawn detection, Pac-Man-spawn detection, warp validation, cell
//! encoding, entity placement — and its whole behaviour, success and every
//! error, is pinned by the `parse_post` predicate.

use vstd::prelude::*;

use crate::board::{board_dim, board_elems, Board};
use crate::encode::{all_encodable, board_flat, encode_board};
use crate::errors::PacError;
use crate::ghost::{
    find_ghost_spawn, has_block, has_ghost_char, has_second_block, in_window, is_first_block,
    lemma_first_block_unique, peripheral_clear, stray_ghost,
};
use crate::grid::{grid_rect, lines_of, CharGrid, ClaimOverlay};
use crate::pac::{
    find_pac_spawn, has_pac_char_unclaimed, has_pair, has_second_pair, is_first_pair,
    lemma_first_pair_unique, stray_pac,
};
use crate::warp::{collect_warps, warp_map_spec, warps_ok};
use std::collections::HashMap;

verus! {

/// A validated level: the numeric board, the spawn anchors, the warp map,
/// the derived initial entity positions, and the starting counters.
///
/// The five `_loc` fields are sub-tile coordinates in half-tile units: a
/// value `v` stands for `v / 2` tiles, so Pac-Man's start half a tile right
/// of its spawn cell is representable without fractions.
pub struct Game {
    /// Pac-Man's initial position, in half-tile units.
    pub pacman_loc: (usize, usize),
    /// Blinky starts directly above the spawn box center.
    pub blinky_loc: (usize, usize),
    /// Pinky starts at the spawn box center.
    pub pinky_loc: (usize, usize),
    /// Inky starts left of the spawn box center.
    pub inky_loc: (usize, usize),
    /// Clyde starts right of the spawn box center.
    pub clyde_loc: (usize, usize),
    /// Left cell of the 2-by-1 Pac-Man spawn pair.
    pub pacman_spawn: (usize, usize),
    /// Top-left cell of the 8-by-5 ghost spawn block.
    pub ghost_spawn: (usize, usize),
    /// Starting lives.
    pub lives: usize,
    /// Warp id (1 to 9; the board cells store its negation) to its two
    /// endpoints.
    pub warps: HashMap<i32, ((usize, usize), (usize, usize))>,
    /// Starting points.
    pub points: usize,
    /// The live board of cell codes.
    pub board: Board,
}

/// The overlay after the ghost stage: exactly the accepted block claimed.
pub open spec fn overlay_after_ghost(g: Seq<Seq<char>>, fx: int, fy: int) -> Seq<Seq<bool>> {
    Seq::new(g.len(), |j: int| Seq::new(g[j].len(), |i: int| in_window(fx, fy, i, j)))
}

/// The overlay after the Pac-Man stage: the block and the pair claimed.
pub open spec fn overlay_after_pac(
    g: Seq<Seq<char>>,
    fx: int,
    fy: int,
    px: int,
    py: int,
) -> Seq<Seq<bool>> {
    Seq::new(
        g.len(),
        |j: int|
            Seq::new(
                g[j].len(),
                |i: int| in_window(fx, fy, i, j) || (j == py && (i == px || i == px + 1)),
            ),
    )
}

/// The fields of a successfully parsed level, given the grid `g`, the
/// ghost block top-left `gb`, the pac pair left cell `pb`, and the overlay
/// `o3` after the three claiming stages.
pub open spec fn game_matches(
    g: Seq<Seq<char>>,
    gb: (int, int),
    pb: (int, int),
    o3: Seq<Seq<bool>>,
    game: Game,
) -> bool {
    &&& game.ghost_spawn.0 == gb.0 && game.ghost_spawn.1 == gb.1
    &&& game.pacman_spawn.0 == pb.0 && game.pacman_spawn.1 == pb.1
    &&& game.lives == 3usize
    &&& game.points == 0usize
    &&& game.warps@ == warp_map_spec(g, o3)
    &&& board_dim(&game.board).0 == g.len() && board_dim(&game.board).1 == g[0].len()
    &&& board_elems(&game.board) == board_flat(g)
    &&& game.pacman_loc.0 == 2 * pb.0 + 1 && game.pacman_loc.1 == 2 * pb.1
    &&& game.blinky_loc.0 == 2 * gb.0 + 7 && game.blinky_loc.1 == 2 * gb.1 - 2
    &&& game.pinky_loc.0 == 2 * gb.0 + 7 && game.pinky_loc.1 == 2 * gb.1 + 4
    &&& game.inky_loc.0 == 2 * gb.0 + 3 && game.inky_loc.1 == 2 * gb.1 + 4
    &&& game.clyde_loc.0 == 2 * gb.0 + 11 && game.clyde_loc.1 == 2 * gb.1 + 4
}

/// The full behaviour of a parse: for every input text, which error is
/// reported, or — when every stage accepts — every field of the level.
/// The stages run in a fixed order, so the earliest violation decides.
pub open spec fn parse_post(s: Seq<char>, r: Result<Game, PacError>) -> bool {
    let g = lines_of(s);
    if g.len() == 0 || g[0].len() == 0 {
        r == Err::<Game, PacError>(PacError::LevelEmpty)
    } else if !grid_rect(g) {
        r == Err::<Game, PacError>(PacError::LevelNotRectangular)
    } else if exists|fx: int, fy: int|
        #[trigger] is_first_block(g, fx, fy) && has_second_block(g, fx, fy) {
        r == Err::<Game, PacError>(PacError::MultipleGhostSpawns)
    } else if (exists|fx: int, fy: int|
        #[trigger] is_first_block(g, fx, fy) && stray_ghost(g, fx, fy)) || (!has_block(g)
        && has_ghost_char(g)) {
        r == Err::<Game, PacError>(PacError::InvalidGhostSpawn)
    } else if !has_block(g) {
        r == Err::<Game, PacError>(PacError::NoGhostSpawn)
    } else {
        let gb = choose|fx: int, fy: int| is_first_block(g, fx, fy);
        if !peripheral_clear(g, gb.0, gb.1) {
            r == Err::<Game, PacError>(PacError::InvalidGhostSpawnPeripheral)
        } else {
            let o2 = overlay_after_ghost(g, gb.0, gb.1);
            if exists|px: int, py: int|
                #[trigger] is_first_pair(g, o2, px, py) && has_second_pair(g, o2, px, py) {
                r == Err::<Game, PacError>(PacError::MultiplePacSpawns)
            } else if (exists|px: int, py: int|
                #[trigger] is_first_pair(g, o2, px, py) && stray_pac(g, o2, px, py)) || (!has_pair(
                g,
                o2,
            ) && has_pac_char_unclaimed(g, o2)) {
                r == Err::<Game, PacError>(PacError::InvalidPacSpawn)
            } else if !has_pair(g, o2) {
                r == Err::<Game, PacError>(PacError::NoPacSpawn)
            } else {
                let pb = choose|px: int, py: int| is_first_pair(g, o2, px, py);
                let o3 = overlay_after_pac(g, gb.0, gb.1, pb.0, pb.1);
                if !warps_ok(g, o3) {
                    r == Err::<Game, PacError>(PacError::InvalidWarp)
                } else if !all_encodable(g) {
                    r == Err::<Game, PacError>(PacError::InvalidCharacters)
                } else if g.len() * g[0].len() > isize::MAX as int {
                    r == Err::<Game, PacError>(PacError::ConversionToArray)
                } else {
                    match r {
                        Ok(game) => game_matches(g, gb, pb, o3, game),
                        Err(_) => false,
                    }
                }
            }
        }
    }
}

/// The initial sub-tile positions of the five entities, in half-tile
/// units.
pub struct EntityPositions {
    /// Centered on the two-cell spawn pair.
    pub pacman: (usize, usize),
    /// Directly above the spawn box center.
    pub blinky: (usize, usize),
    /// At the spawn box center.
    pub pinky: (usize, usize),
    /// Left of the spawn box center.
    pub inky: (usize, usize),
    /// Right of the spawn box center.
    pub clyde: (usize, usize),
}

/// Entity placement: a pure function of the ghost block's top-left cell
/// and the Pac-Man pair's left cell, with the fixed arcade offsets.  The
/// bounds keep every half-tile coordinate representable; the parse
/// pipeline discharges them from the accepted board's size.
pub fn derive_positions(ghost_spawn: (usize, usize), pacman_spawn: (usize, usize)) -> (r:
    EntityPositions)
    requires
        ghost_spawn.1 >= 1,
        2 * ghost_spawn.0 + 11 <= usize::MAX,
        2 * ghost_spawn.1 + 4 <= usize::MAX,
        2 * pacman_spawn.0 + 1 <= usize::MAX,
        2 * pacman_spawn.1 <= usize::MAX,
    ensures
        r.pacman.0 == 2 * pacman_spawn.0 + 1 && r.pacman.1 == 2 * pacman_spawn.1,
        r.blinky.0 == 2 * ghost_spawn.0 + 7 && r.blinky.1 == 2 * ghost_spawn.1 - 2,
        r.pinky.0 == 2 * ghost_spawn.0 + 7 && r.pinky.1 == 2 * ghost_spawn.1 + 4,
        r.inky.0 == 2 * ghost_spawn.0 + 3 && r.inky.1 == 2 * ghost_spawn.1 + 4,
        r.clyde.0 == 2 * ghost_spawn.0 + 11 && r.clyde.1 == 2 * ghost_spawn.1 + 4,
{
    let (gx, gy) = ghost_spawn;
    let (px, py) = pacman_spawn;
    EntityPositions {
        pacman: (2 * px + 1, 2 * py),
        blinky: (2 * gx + 7, 2 * gy - 2),
        pinky: (2 * gx + 7, 2 * gy + 4),
        inky: (2 * gx + 3, 2 * gy + 4),
        clyde: (2 * gx + 11, 2 * gy + 4),
    }
}

/// Every first block equals `(fx, fy)` once `(fx, fy)` is one.
proof fn lemma_ghost_first(g: Seq<Seq<char>>, fx: int, fy: int)
    requires
        is_first_block(g, fx, fy),
    ensures
        has_block(g),
        forall|a: int, b: int| #[trigger] is_first_block(g, a, b) ==> a == fx && b == fy,
{
    assert(crate::ghost::block_at(g, fx, fy));
    assert forall|a: int, b: int| #[trigger] is_first_block(g, a, b) implies a == fx && b
        == fy by {
        lemma_first_block_unique(g, a, b, fx, fy);
    }
}

/// Every first pair equals `(px, py)` once `(px, py)` is one.
proof fn lemma_pac_first(g: Seq<Seq<char>>, o: Seq<Seq<bool>>, px: int, py: int)
    requires
        is_first_pair(g, o, px, py),
    ensures
        has_pair(g, o),
        forall|a: int, b: int| #[trigger] is_first_pair(g, o, a, b) ==> a == px && b == py,
{
    assert(crate::pac::pair_at(g, o, px, py));
    assert forall|a: int, b: int| #[trigger] is_first_pair(g, o, a, b) implies a == px && b
        == py by {
        lemma_first_pair_unique(g, o, a, b, px, py);
    }
}

impl Game {
    /// Parses and validates a whole level text.  Each stage either accepts
    /// or reports its error kind; `parse_post` states the outcome for
    /// every input.
    pub fn try_from_text(text: &str) -> (r: Result<Game, PacError>)
        ensures
            parse_post(text@, r),
    {
        let ghost s = text@;
        let g = match CharGrid::from_text(text) {
            Ok(g) => g,
            Err(e) => {
                return Err(e);
            },
        };
        let mut o = ClaimOverlay::new(&g);
        let ghost o1 = o@;
        let gs = match find_ghost_spawn(&g, &mut o) {
            Ok(p) => p,
            Err(e) => {
                proof {
                    if e == PacError::InvalidGhostSpawn {
                        if exists|fx: int, fy: int|
                            #[trigger] is_first_block(g@, fx, fy) && !has_second_block(g@, fx, fy)
                                && stray_ghost(g@, fx, fy) {
                            let (a, b) = choose|a: int, b: int|
                                is_first_block(g@, a, b) && !has_second_block(g@, a, b)
                                    && stray_ghost(g@, a, b);
                            lemma_ghost_first(g@, a, b);
                        }
                    }
                    if e == PacError::InvalidGhostSpawnPeripheral {
                        let (a, b) = choose|a: int, b: int|
                            is_first_block(g@, a, b) && !has_second_block(g@, a, b) && !stray_ghost(
                                g@,
                                a,
                                b,
                            ) && !peripheral_clear(g@, a, b);
                        lemma_ghost_first(g@, a, b);
                    }
                }
                return Err(e);
            },
        };
        proof {
            lemma_ghost_first(g@, gs.0 as int, gs.1 as int);
            let oag = overlay_after_ghost(g@, gs.0 as int, gs.1 as int);
            assert forall|j: int| 0 <= j < o@.len() implies o@[j] =~= oag[j] by {
                assert(o@[j].len() == g@[j].len());
            }
            assert(o@ =~~= oag);
        }
        let ghost gb = (gs.0 as int, gs.1 as int);
        let ghost o2 = o@;
        let ps = match find_pac_spawn(&g, &mut o) {
            Ok(p) => p,
            Err(e) => {
                proof {
                    if e == PacError::InvalidPacSpawn {
                        if exists|px: int, py: int|
                            #[trigger] is_first_pair(g@, o2, px, py) && !has_second_pair(
                                g@,
                                o2,
                                px,
                                py,
                            ) && stray_pac(g@, o2, px, py) {
                            let (a, b) = choose|a: int, b: int|
                                is_first_pair(g@, o2, a, b) && !has_second_pair(g@, o2, a, b)
                                    && stray_pac(g@, o2, a, b);
                            lemma_pac_first(g@, o2, a, b);
                        }
                    }
                }
                return Err(e);
            },
        };
        proof {
            lemma_pac_first(g@, o2, ps.0 as int, ps.1 as int);
            let oap = overlay_after_pac(g@, gb.0, gb.1, ps.0 as int, ps.1 as int);
            assert forall|j: int| 0 <= j < o@.len() implies o@[j] =~= oap[j] by {
                assert(o@[j].len() == g@[j].len());
                assert(o2[j].len() == g@[j].len());
            }
            assert(o@ =~~= oap);
        }
        let ghost pb = (ps.0 as int, ps.1 as int);
        let ghost o3 = o@;
        let warps = match collect_warps(&g, &mut o) {
            Ok(m) => m,
            Err(e) => {
                return Err(e);
            },
        };
        let flat = match encode_board(&g) {
            Ok(v) => v,
            Err(e) => {
                return Err(e);
            },
        };
        let h = g.height();
        let w = g.width();
        let flat_len = flat.len();
        let board = match Board::from_flat(h, w, flat) {
            Ok(b) => b,
            Err(_) => {
                proof {
                    assert(g@.len() * g@[0].len() > isize::MAX as int);
                }
                return Err(PacError::ConversionToArray);
            },
        };
        // the reshape accepted the shape, so the grid area is small enough
        // that every half-tile coordinate fits
        proof {
            assert(h * w <= isize::MAX as int);
            assert(w >= 8 && h >= 7);
            assert(7 * w <= h * w && 8 * h <= h * w) by (nonlinear_arith)
                requires
                    h >= 7,
                    w >= 8,
                    h >= 0 && w >= 0,
            ;
        }
        let pos = derive_positions(gs, ps);
        Ok(
            Game {
                pacman_spawn: ps,
                ghost_spawn: gs,
                pacman_loc: pos.pacman,
                blinky_loc: pos.blinky,
                pinky_loc: pos.pinky,
                inky_loc: pos.inky,
                clyde_loc: pos.clyde,
                board,
                lives: 3,
                points: 0,
                warps,
            },
        )
    }
}

} // verus!
