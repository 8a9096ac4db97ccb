//! The library's laws: properties of `parse_post` that hold of every parse,
//! each stated and proved as a public proof function.

use vstd::prelude::*;

use crate::board::{board_dim, board_elems};
use crate::encode::{all_encodable, board_flat};
use crate::errors::PacError;
use crate::game::{
    game_matches, overlay_after_ghost, overlay_after_pac, parse_post, Game,
};
use crate::ghost::{
    has_block, has_ghost_char, has_second_block, is_first_block, lemma_first_block_unique,
    peripheral_clear, stray_ghost,
};
use crate::grid::{grid_rect, lines_of};
use crate::pac::{
    has_pac_char_unclaimed, has_pair, has_second_pair, is_first_pair, lemma_first_pair_unique,
    stray_pac,
};
use crate::warp::{warp_map_spec, warps_ok};

verus! {

/// The grid is non-empty and rectangular, so ingestion accepts it.
pub open spec fn grid_accepted(g: Seq<Seq<char>>) -> bool {
    g.len() > 0 && g[0].len() > 0 && grid_rect(g)
}

/// The ghost stage accepts `(gx, gy)`: it is the first block, no disjoint
/// second block exists, no stray marker remains, and the clearance cells
/// around the block center are blank.
pub open spec fn ghost_stage_accepts(g: Seq<Seq<char>>, gx: int, gy: int) -> bool {
    &&& is_first_block(g, gx, gy)
    &&& !has_second_block(g, gx, gy)
    &&& !stray_ghost(g, gx, gy)
    &&& peripheral_clear(g, gx, gy)
}

/// The Pac-Man stage, run after the ghost block at `(gx, gy)` was claimed,
/// accepts `(px, py)`.
pub open spec fn pac_stage_accepts(
    g: Seq<Seq<char>>,
    gx: int,
    gy: int,
    px: int,
    py: int,
) -> bool {
    let o2 = overlay_after_ghost(g, gx, gy);
    &&& is_first_pair(g, o2, px, py)
    &&& !has_second_pair(g, o2, px, py)
    &&& !stray_pac(g, o2, px, py)
}

/// Rectangularity: an input without lines, or whose first line is empty,
/// is rejected as `LevelEmpty`; a non-empty input with differing row
/// lengths is rejected as `LevelNotRectangular`.
pub proof fn lemma_rectangularity(s: Seq<char>, r: Result<Game, PacError>)
    requires
        parse_post(s, r),
    ensures
        (lines_of(s).len() == 0 || lines_of(s)[0].len() == 0) ==> r == Err::<Game, PacError>(
            PacError::LevelEmpty,
        ),
        (lines_of(s).len() > 0 && lines_of(s)[0].len() > 0 && !grid_rect(lines_of(s))) ==> r
            == Err::<Game, PacError>(PacError::LevelNotRectangular),
{
}

/// Ghost uniqueness: on an accepted grid, a successful parse places the
/// ghost spawn at the first (and, when the stage accepts, only) block; a
/// grid without any marker gives `NoGhostSpawn`; a first block beside a
/// disjoint second one gives `MultipleGhostSpawns`; a stray marker — which
/// also covers a mis-shaped block — gives `InvalidGhostSpawn`.
pub proof fn lemma_ghost_uniqueness(s: Seq<char>, r: Result<Game, PacError>)
    requires
        parse_post(s, r),
        grid_accepted(lines_of(s)),
    ensures
        forall|x: int, y: int|
            #[trigger] is_first_block(lines_of(s), x, y) && r is Ok ==> r.unwrap().ghost_spawn.0
                == x && r.unwrap().ghost_spawn.1 == y,
        (!has_block(lines_of(s)) && !has_ghost_char(lines_of(s))) ==> r == Err::<Game, PacError>(
            PacError::NoGhostSpawn,
        ),
        (exists|x: int, y: int|
            #[trigger] is_first_block(lines_of(s), x, y) && has_second_block(lines_of(s), x, y))
            ==> r == Err::<Game, PacError>(PacError::MultipleGhostSpawns),
        (exists|x: int, y: int|
            #[trigger] is_first_block(lines_of(s), x, y) && !has_second_block(lines_of(s), x, y)
                && stray_ghost(lines_of(s), x, y)) ==> r == Err::<Game, PacError>(
            PacError::InvalidGhostSpawn,
        ),
        (!has_block(lines_of(s)) && has_ghost_char(lines_of(s))) ==> r == Err::<Game, PacError>(
            PacError::InvalidGhostSpawn,
        ),
{
    let g = lines_of(s);
    if r is Ok {
        let gb = choose|fx: int, fy: int| is_first_block(g, fx, fy);
        assert forall|x: int, y: int|
            #[trigger] is_first_block(g, x, y) && r is Ok implies r.unwrap().ghost_spawn.0 == x
            && r.unwrap().ghost_spawn.1 == y by {
            lemma_first_block_unique(g, gb.0, gb.1, x, y);
        }
    }
    if exists|x: int, y: int|
        #[trigger] is_first_block(g, x, y) && !has_second_block(g, x, y) && stray_ghost(g, x, y) {
        let (a, b) = choose|a: int, b: int|
            is_first_block(g, a, b) && !has_second_block(g, a, b) && stray_ghost(g, a, b);
        if exists|x: int, y: int|
            #[trigger] is_first_block(g, x, y) && has_second_block(g, x, y) {
            let (c, d) = choose|c: int, d: int|
                is_first_block(g, c, d) && has_second_block(g, c, d);
            lemma_first_block_unique(g, a, b, c, d);
        }
    }
}

/// Pac uniqueness: once the ghost stage has accepted the block at
/// `(gx, gy)`, a successful parse places the Pac-Man spawn at the first
/// pair; no pair and no stray marker gives `NoPacSpawn`; a disjoint second
/// pair gives `MultiplePacSpawns`; a stray `$` gives `InvalidPacSpawn`.
pub proof fn lemma_pac_uniqueness(s: Seq<char>, r: Result<Game, PacError>, gx: int, gy: int)
    requires
        parse_post(s, r),
        grid_accepted(lines_of(s)),
        ghost_stage_accepts(lines_of(s), gx, gy),
    ensures
        forall|x: int, y: int|
            #[trigger] is_first_pair(lines_of(s), overlay_after_ghost(lines_of(s), gx, gy), x, y)
                && r is Ok ==> r.unwrap().pacman_spawn.0 == x && r.unwrap().pacman_spawn.1 == y,
        (!has_pair(lines_of(s), overlay_after_ghost(lines_of(s), gx, gy))
            && !has_pac_char_unclaimed(lines_of(s), overlay_after_ghost(lines_of(s), gx, gy)))
            ==> r == Err::<Game, PacError>(PacError::NoPacSpawn),
        (exists|x: int, y: int|
            #[trigger] is_first_pair(lines_of(s), overlay_after_ghost(lines_of(s), gx, gy), x, y)
                && has_second_pair(
                lines_of(s),
                overlay_after_ghost(lines_of(s), gx, gy),
                x,
                y,
            )) ==> r == Err::<Game, PacError>(PacError::MultiplePacSpawns),
        (exists|x: int, y: int|
            #[trigger] is_first_pair(lines_of(s), overlay_after_ghost(lines_of(s), gx, gy), x, y)
                && !has_second_pair(lines_of(s), overlay_after_ghost(lines_of(s), gx, gy), x, y)
                && stray_pac(lines_of(s), overlay_after_ghost(lines_of(s), gx, gy), x, y)) ==> r
            == Err::<Game, PacError>(PacError::InvalidPacSpawn),
        (!has_pair(lines_of(s), overlay_after_ghost(lines_of(s), gx, gy))
            && has_pac_char_unclaimed(lines_of(s), overlay_after_ghost(lines_of(s), gx, gy))) ==> r
            == Err::<Game, PacError>(PacError::InvalidPacSpawn),
{
    let g = lines_of(s);
    let gb = choose|fx: int, fy: int| is_first_block(g, fx, fy);
    lemma_first_block_unique(g, gb.0, gb.1, gx, gy);
    let o2 = overlay_after_ghost(g, gx, gy);
    if r is Ok {
        let pb = choose|px: int, py: int| is_first_pair(g, o2, px, py);
        assert forall|x: int, y: int|
            #[trigger] is_first_pair(g, o2, x, y) && r is Ok implies r.unwrap().pacman_spawn.0
            == x && r.unwrap().pacman_spawn.1 == y by {
            lemma_first_pair_unique(g, o2, pb.0, pb.1, x, y);
        }
    }
    if exists|x: int, y: int|
        #[trigger] is_first_pair(g, o2, x, y) && !has_second_pair(g, o2, x, y) && stray_pac(
            g,
            o2,
            x,
            y,
        ) {
        let (a, b) = choose|a: int, b: int|
            is_first_pair(g, o2, a, b) && !has_second_pair(g, o2, a, b) && stray_pac(g, o2, a, b);
        if exists|x: int, y: int|
            #[trigger] is_first_pair(g, o2, x, y) && has_second_pair(g, o2, x, y) {
            let (c, d) = choose|c: int, d: int|
                is_first_pair(g, o2, c, d) && has_second_pair(g, o2, c, d);
            lemma_first_pair_unique(g, o2, a, b, c, d);
        }
    }
}

/// Warp pairing: once the ghost and Pac-Man stages have accepted, an
/// acceptable digit assignment (each used digit exactly twice, contiguous
/// from 1) together with clean encoding and an in-range board size yields
/// success, and the level's warp map is exactly the assignment's map; an
/// unacceptable assignment yields `InvalidWarp`.
pub proof fn lemma_warp_pairing(
    s: Seq<char>,
    r: Result<Game, PacError>,
    gx: int,
    gy: int,
    px: int,
    py: int,
)
    requires
        parse_post(s, r),
        grid_accepted(lines_of(s)),
        ghost_stage_accepts(lines_of(s), gx, gy),
        pac_stage_accepts(lines_of(s), gx, gy, px, py),
    ensures
        !warps_ok(lines_of(s), overlay_after_pac(lines_of(s), gx, gy, px, py)) ==> r == Err::<
            Game,
            PacError,
        >(PacError::InvalidWarp),
        (warps_ok(lines_of(s), overlay_after_pac(lines_of(s), gx, gy, px, py)) && all_encodable(
            lines_of(s),
        ) && lines_of(s).len() * lines_of(s)[0].len() <= isize::MAX as int) ==> r is Ok
            && r.unwrap().warps@ == warp_map_spec(
            lines_of(s),
            overlay_after_pac(lines_of(s), gx, gy, px, py),
        ),
{
    let g = lines_of(s);
    let gb = choose|fx: int, fy: int| is_first_block(g, fx, fy);
    lemma_first_block_unique(g, gb.0, gb.1, gx, gy);
    let o2 = overlay_after_ghost(g, gx, gy);
    let pb = choose|qx: int, qy: int| is_first_pair(g, o2, qx, qy);
    lemma_first_pair_unique(g, o2, pb.0, pb.1, px, py);
}

/// Encoding totality: whenever a parse succeeds, the board's dimensions
/// equal the grid's and its flat contents are exactly the grid's cell
/// codes; and once every earlier stage has accepted, a character outside
/// the accepted set is rejected as `InvalidCharacters`.
pub proof fn lemma_encoding_totality(
    s: Seq<char>,
    r: Result<Game, PacError>,
    gx: int,
    gy: int,
    px: int,
    py: int,
)
    requires
        parse_post(s, r),
        grid_accepted(lines_of(s)),
        ghost_stage_accepts(lines_of(s), gx, gy),
        pac_stage_accepts(lines_of(s), gx, gy, px, py),
    ensures
        r is Ok ==> {
            &&& board_dim(&r.unwrap().board).0 == lines_of(s).len()
            &&& board_dim(&r.unwrap().board).1 == lines_of(s)[0].len()
            &&& board_elems(&r.unwrap().board) == board_flat(lines_of(s))
            &&& all_encodable(lines_of(s))
        },
        (warps_ok(lines_of(s), overlay_after_pac(lines_of(s), gx, gy, px, py)) && !all_encodable(
            lines_of(s),
        )) ==> r == Err::<Game, PacError>(PacError::InvalidCharacters),
{
    let g = lines_of(s);
    let gb = choose|fx: int, fy: int| is_first_block(g, fx, fy);
    lemma_first_block_unique(g, gb.0, gb.1, gx, gy);
    let o2 = overlay_after_ghost(g, gx, gy);
    let pb = choose|qx: int, qy: int| is_first_pair(g, o2, qx, qy);
    lemma_first_pair_unique(g, o2, pb.0, pb.1, px, py);
}

/// Determinism: two parses of the same text agree — the same error, or
/// two levels whose every field carries the same values (the board and
/// warp map compared through their contents).
pub proof fn lemma_parse_deterministic(
    s: Seq<char>,
    r1: Result<Game, PacError>,
    r2: Result<Game, PacError>,
)
    requires
        parse_post(s, r1),
        parse_post(s, r2),
    ensures
        r1 is Ok <==> r2 is Ok,
        r1 is Err ==> r1->Err_0 == r2->Err_0,
        r1 is Ok ==> {
            let g1 = r1.unwrap();
            let g2 = r2.unwrap();
            &&& g1.pacman_loc == g2.pacman_loc
            &&& g1.blinky_loc == g2.blinky_loc
            &&& g1.pinky_loc == g2.pinky_loc
            &&& g1.inky_loc == g2.inky_loc
            &&& g1.clyde_loc == g2.clyde_loc
            &&& g1.pacman_spawn == g2.pacman_spawn
            &&& g1.ghost_spawn == g2.ghost_spawn
            &&& g1.lives == g2.lives
            &&& g1.points == g2.points
            &&& g1.warps@ == g2.warps@
            &&& board_dim(&g1.board) == board_dim(&g2.board)
            &&& board_elems(&g1.board) == board_elems(&g2.board)
        },
{
    if r1 is Ok {
        let g = lines_of(s);
        let gb = choose|fx: int, fy: int| is_first_block(g, fx, fy);
        let o2 = overlay_after_ghost(g, gb.0, gb.1);
        let pb = choose|px: int, py: int| is_first_pair(g, o2, px, py);
        let o3 = overlay_after_pac(g, gb.0, gb.1, pb.0, pb.1);
        assert(game_matches(g, gb, pb, o3, r1.unwrap()));
        assert(game_matches(g, gb, pb, o3, r2.unwrap()));
        let b1 = r1.unwrap();
        let b2 = r2.unwrap();
        assert(b1.pacman_loc.0 == 2 * pb.0 + 1 && b2.pacman_loc.0 == 2 * pb.0 + 1);
    }
}

} // verus!

