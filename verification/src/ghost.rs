//! Ghost-spawn detection: the single 8-wide by 5-tall block of `'@'`
//! marker characters, scanned for in row-major order.

use vstd::prelude::*;

use crate::errors::PacError;
use crate::grid::{overlay_matches, rect_claimed, CharGrid, ClaimOverlay};

verus! {

/// An 8-wide by 5-tall window of `'@'` characters has its top-left corner
/// at `(x, y)`.
pub open spec fn block_at(g: Seq<Seq<char>>, x: int, y: int) -> bool {
    &&& 0 <= x && x + 8 <= g[0].len()
    &&& 0 <= y && y + 5 <= g.len()
    &&& forall|yy: int, xx: int|
        y <= yy < y + 5 && x <= xx < x + 8 ==> #[trigger] g[yy][xx] == '@'
}

/// `(x1, y1)` is scanned before `(x2, y2)` when rows are walked top to
/// bottom and each row left to right.
pub open spec fn row_major_before(x1: int, y1: int, x2: int, y2: int) -> bool {
    y1 < y2 || (y1 == y2 && x1 < x2)
}

/// `(x, y)` is the first block top-left in row-major scan order.
pub open spec fn is_first_block(g: Seq<Seq<char>>, x: int, y: int) -> bool {
    &&& block_at(g, x, y)
    &&& forall|x2: int, y2: int|
        row_major_before(x2, y2, x, y) ==> !#[trigger] block_at(g, x2, y2)
}

/// The cell `(x, y)` lies inside the 8-by-5 window whose top-left corner is
/// `(fx, fy)`.
pub open spec fn in_window(fx: int, fy: int, x: int, y: int) -> bool {
    fx <= x < fx + 8 && fy <= y < fy + 5
}

/// The 8-by-5 windows at `(x1, y1)` and `(x2, y2)` share no cell.
pub open spec fn windows_disjoint(x1: int, y1: int, x2: int, y2: int) -> bool {
    x1 + 8 <= x2 || x2 + 8 <= x1 || y1 + 5 <= y2 || y2 + 5 <= y1
}

/// Some block lies entirely outside the window at `(fx, fy)`.
pub open spec fn has_second_block(g: Seq<Seq<char>>, fx: int, fy: int) -> bool {
    exists|x: int, y: int| #[trigger] block_at(g, x, y) && windows_disjoint(fx, fy, x, y)
}

/// Some block exists somewhere in the grid.
pub open spec fn has_block(g: Seq<Seq<char>>) -> bool {
    exists|x: int, y: int| #[trigger] block_at(g, x, y)
}

/// Some `'@'` character exists somewhere in the grid.
pub open spec fn has_ghost_char(g: Seq<Seq<char>>) -> bool {
    exists|x: int, y: int|
        0 <= y < g.len() && 0 <= x < g[y].len() && (#[trigger] g[y][x]) == '@'
}

/// Some `'@'` character lies outside the window at `(fx, fy)`.
pub open spec fn stray_ghost(g: Seq<Seq<char>>, fx: int, fy: int) -> bool {
    exists|x: int, y: int|
        0 <= y < g.len() && 0 <= x < g[y].len() && (#[trigger] g[y][x]) == '@'
            && !in_window(fx, fy, x, y)
}

/// The two cells directly above and the two directly below the horizontal
/// center of the window at `(fx, fy)` exist and are blank, reserved for
/// ghost and fruit release.
pub open spec fn peripheral_clear(g: Seq<Seq<char>>, fx: int, fy: int) -> bool {
    &&& fy >= 1
    &&& fy + 6 <= g.len()
    &&& g[fy - 1][fx + 3] == ' '
    &&& g[fy - 1][fx + 4] == ' '
    &&& g[fy + 5][fx + 3] == ' '
    &&& g[fy + 5][fx + 4] == ' '
}

/// At most one position can be the first block of a grid.
pub proof fn lemma_first_block_unique(g: Seq<Seq<char>>, x1: int, y1: int, x2: int, y2: int)
    requires
        is_first_block(g, x1, y1),
        is_first_block(g, x2, y2),
    ensures
        x1 == x2 && y1 == y2,
{
    if row_major_before(x1, y1, x2, y2) {
        assert(!block_at(g, x1, y1));
    } else if row_major_before(x2, y2, x1, y1) {
        assert(!block_at(g, x2, y2));
    }
}

/// Whether the 8-by-5 window at `(x, y)` holds only `'@'` characters.
fn is_block(g: &CharGrid, x: usize, y: usize) -> (b: bool)
    requires
        g.wf(),
        x + 8 <= usize::MAX,
        y + 5 <= usize::MAX,
        x + 8 <= g@[0].len(),
        y + 5 <= g@.len(),
    ensures
        b == block_at(g@, x as int, y as int),
{
    let mut yy: usize = 0;
    while yy < 5
        invariant
            0 <= yy <= 5,
            g.wf(),
            x + 8 <= usize::MAX,
            y + 5 <= usize::MAX,
            x + 8 <= g@[0].len(),
            y + 5 <= g@.len(),
            forall|j: int, i: int|
                y <= j < y + yy && x <= i < x + 8 ==> #[trigger] g@[j][i] == '@',
        decreases 5 - yy,
    {
        let mut xx: usize = 0;
        while xx < 8
            invariant
                0 <= xx <= 8,
                0 <= yy < 5,
                g.wf(),
                x + 8 <= usize::MAX,
                y + 5 <= usize::MAX,
                x + 8 <= g@[0].len(),
                y + 5 <= g@.len(),
                forall|j: int, i: int|
                    y <= j < y + yy && x <= i < x + 8 ==> #[trigger] g@[j][i] == '@',
            forall|i: int| x <= i < x + xx ==> #[trigger] g@[y + yy][i] == '@',
            decreases 8 - xx,
        {
            if g.at(x + xx, y + yy) != '@' {
                proof {
                    assert(g@[y + yy][x + xx] != '@');
                }
                return false;
            }
            xx += 1;
        }
        yy += 1;
    }
    true
}

/// Scans for the ghost-spawn block, claims its 40 cells on success, and
/// reports each structural violation as its own error kind.  Scan order and
/// error precedence: a second disjoint block (`MultipleGhostSpawns`) is
/// detected during the scan; a stray `'@'` outside the accepted block, or
/// any `'@'` when no full block exists (`InvalidGhostSpawn`) comes next;
/// then a grid without any `'@'` (`NoGhostSpawn`); last the clearance of
/// the cells above and below the block center
/// (`InvalidGhostSpawnPeripheral`).
pub fn find_ghost_spawn(g: &CharGrid, o: &mut ClaimOverlay) -> (r: Result<
    (usize, usize),
    PacError,
>)
    requires
        g.wf(),
        overlay_matches(old(o)@, g@),
    ensures
        match r {
            Ok(p) => {
                &&& is_first_block(g@, p.0 as int, p.1 as int)
                &&& !has_second_block(g@, p.0 as int, p.1 as int)
                &&& !stray_ghost(g@, p.0 as int, p.1 as int)
                &&& peripheral_clear(g@, p.0 as int, p.1 as int)
                &&& rect_claimed(old(o)@, final(o)@, p.0 as int, p.1 as int, 8, 5)
                &&& overlay_matches(final(o)@, g@)
            },
            Err(e) => match e {
                PacError::MultipleGhostSpawns => exists|fx: int, fy: int|
                    #[trigger] is_first_block(g@, fx, fy) && has_second_block(g@, fx, fy),
                PacError::InvalidGhostSpawn => (exists|fx: int, fy: int|
                    #[trigger] is_first_block(g@, fx, fy) && !has_second_block(g@, fx, fy)
                        && stray_ghost(g@, fx, fy)) || (!has_block(g@) && has_ghost_char(g@)),
                PacError::NoGhostSpawn => !has_block(g@) && !has_ghost_char(g@),
                PacError::InvalidGhostSpawnPeripheral => exists|fx: int, fy: int|
                    #[trigger] is_first_block(g@, fx, fy) && !has_second_block(g@, fx, fy)
                        && !stray_ghost(g@, fx, fy) && !peripheral_clear(g@, fx, fy),
                _ => false,
            },
        },
{
    let h = g.height();
    let w = g.width();
    let mut found = false;
    let mut fx: usize = 0;
    let mut fy: usize = 0;
    if h >= 5 && w >= 8 {
        let ylim = h - 4;
        let xlim = w - 7;
        let mut y: usize = 0;
        while y < ylim
            invariant
                0 <= y <= ylim,
                g.wf(),
                h == g@.len(),
                w == g@[0].len(),
                h >= 5 && w >= 8,
                ylim == h - 4,
                xlim == w - 7,
                overlay_matches(old(o)@, g@),
                !found ==> forall|x2: int, y2: int|
                    y2 < y ==> !#[trigger] block_at(g@, x2, y2),
                !found ==> o@ == old(o)@,
                found ==> {
                    &&& is_first_block(g@, fx as int, fy as int)
                    &&& fx + 8 <= w && fy + 5 <= h
                    &&& rect_claimed(old(o)@, o@, fx as int, fy as int, 8, 5)
                    &&& forall|x2: int, y2: int|
                        y2 < y && #[trigger] block_at(g@, x2, y2) ==> !windows_disjoint(
                            fx as int,
                            fy as int,
                            x2,
                            y2,
                        )
                },
            decreases ylim - y,
        {
            let mut x: usize = 0;
            while x < xlim
                invariant
                    0 <= x <= xlim,
                    0 <= y < ylim,
                    g.wf(),
                    h == g@.len(),
                    w == g@[0].len(),
                    h >= 5 && w >= 8,
                    ylim == h - 4,
                    xlim == w - 7,
                    overlay_matches(old(o)@, g@),
                    !found ==> forall|x2: int, y2: int|
                        row_major_before(x2, y2, x as int, y as int) ==> !#[trigger] block_at(
                            g@,
                            x2,
                            y2,
                        ),
                    !found ==> o@ == old(o)@,
                    found ==> {
                        &&& is_first_block(g@, fx as int, fy as int)
                        &&& fx + 8 <= w && fy + 5 <= h
                        &&& rect_claimed(old(o)@, o@, fx as int, fy as int, 8, 5)
                        &&& forall|x2: int, y2: int|
                            row_major_before(x2, y2, x as int, y as int) && #[trigger] block_at(
                                g@,
                                x2,
                                y2,
                            ) ==> !windows_disjoint(fx as int, fy as int, x2, y2)
                    },
                decreases xlim - x,
            {
                if is_block(g, x, y) {
                    if !found {
                        found = true;
                        fx = x;
                        fy = y;
                        o.claim_rect(x, y, 8, 5);
                    } else {
                        if x + 8 <= fx || fx + 8 <= x || y + 5 <= fy || fy + 5 <= y {
                            proof {
                                assert(block_at(g@, x as int, y as int));
                                assert(windows_disjoint(fx as int, fy as int, x as int, y as int));
                                assert(is_first_block(g@, fx as int, fy as int));
                            }
                            return Err(PacError::MultipleGhostSpawns);
                        }
                    }
                }
                x += 1;
            }
            proof {
                assert forall|x2: int, y2: int|
                    row_major_before(x2, y2, 0, y + 1) implies (row_major_before(
                    x2,
                    y2,
                    xlim as int,
                    y as int,
                ) || !block_at(g@, x2, y2)) by {
                    if y2 == y && x2 >= xlim {
                        assert(!block_at(g@, x2, y2));
                    }
                }
            }
            y += 1;
        }
    }
    proof {
        // every block top-left lies within the scanned candidate range
        if h >= 5 && w >= 8 {
            assert forall|x2: int, y2: int| #[trigger] block_at(g@, x2, y2) implies y2 < h - 4 by {}
        } else {
            assert forall|x2: int, y2: int| !#[trigger] block_at(g@, x2, y2) by {}
        }
    }
    // stray check: any '@' outside the accepted block (or any '@' at all when
    // no block was found) is a structural violation
    let mut sy: usize = 0;
    while sy < h
        invariant
            0 <= sy <= h,
            g.wf(),
            h == g@.len(),
            w == g@[0].len(),
            overlay_matches(old(o)@, g@),
            found ==> {
                &&& is_first_block(g@, fx as int, fy as int)
                &&& fx + 8 <= w && fy + 5 <= h
                &&& rect_claimed(old(o)@, o@, fx as int, fy as int, 8, 5)
                &&& !has_second_block(g@, fx as int, fy as int)
            },
            !found ==> !has_block(g@) && o@ == old(o)@,
            forall|x2: int, y2: int|
                0 <= y2 < sy && 0 <= x2 < w && (#[trigger] g@[y2][x2]) == '@' ==> (found
                    && in_window(fx as int, fy as int, x2, y2)),
        decreases h - sy,
    {
        let mut sx: usize = 0;
        while sx < w
            invariant
                0 <= sx <= w,
                0 <= sy < h,
                g.wf(),
                h == g@.len(),
                w == g@[0].len(),
                overlay_matches(old(o)@, g@),
                found ==> {
                    &&& is_first_block(g@, fx as int, fy as int)
                    &&& fx + 8 <= w && fy + 5 <= h
                    &&& rect_claimed(old(o)@, o@, fx as int, fy as int, 8, 5)
                    &&& !has_second_block(g@, fx as int, fy as int)
                },
                !found ==> !has_block(g@) && o@ == old(o)@,
                forall|x2: int, y2: int|
                    0 <= y2 < sy && 0 <= x2 < w && (#[trigger] g@[y2][x2]) == '@' ==> (found
                        && in_window(fx as int, fy as int, x2, y2)),
                forall|x2: int|
                    0 <= x2 < sx && (#[trigger] g@[sy as int][x2]) == '@' ==> (found && in_window(
                        fx as int,
                        fy as int,
                        x2,
                        sy as int,
                    )),
            decreases w - sx,
        {
            if g.at(sx, sy) == '@' {
                let in_win = found && fx <= sx && sx < fx + 8 && fy <= sy && sy < fy + 5;
                if !in_win {
                    proof {
                        assert(g@[sy as int][sx as int] == '@');
                        if found {
                            assert(stray_ghost(g@, fx as int, fy as int));
                        } else {
                            assert(has_ghost_char(g@));
                        }
                    }
                    return Err(PacError::InvalidGhostSpawn);
                }
            }
            sx += 1;
        }
        sy += 1;
    }
    if !found {
        proof {
            assert forall|x2: int, y2: int|
                !(0 <= y2 < g@.len() && 0 <= x2 < g@[y2].len() && (#[trigger] g@[y2][x2])
                    == '@') by {
                if 0 <= y2 < g@.len() {
                    assert(g@[y2].len() == g@[0].len());
                }
            }
        }
        return Err(PacError::NoGhostSpawn);
    }
    proof {
        assert forall|x2: int, y2: int|
            !(0 <= y2 < g@.len() && 0 <= x2 < g@[y2].len() && (#[trigger] g@[y2][x2]) == '@'
                && !in_window(fx as int, fy as int, x2, y2)) by {
            if 0 <= y2 < g@.len() {
                assert(g@[y2].len() == g@[0].len());
            }
        }
        assert(!stray_ghost(g@, fx as int, fy as int));
    }
    if fy == 0 || fy + 5 >= h {
        return Err(PacError::InvalidGhostSpawnPeripheral);
    }
    let clear = g.at(fx + 3, fy - 1) == ' ' && g.at(fx + 4, fy - 1) == ' ' && g.at(fx + 3, fy + 5)
        == ' ' && g.at(fx + 4, fy + 5) == ' ';
    if clear {
        Ok((fx, fy))
    } else {
        Err(PacError::InvalidGhostSpawnPeripheral)
    }
}

} // verus!
