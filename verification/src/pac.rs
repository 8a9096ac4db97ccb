//! Pac-Man-spawn detection: the single horizontal pair of `'$'` marker
//! characters on unclaimed cells, scanned for in row-major order.

use vstd::prelude::*;

use crate::errors::PacError;
use crate::ghost::row_major_before;
use crate::grid::{overlay_matches, rect_claimed, CharGrid, ClaimOverlay};

verus! {

/// Two horizontally adjacent unclaimed cells at `(x, y)` and `(x + 1, y)`
/// both hold `'$'`.
pub open spec fn pair_at(g: Seq<Seq<char>>, o: Seq<Seq<bool>>, x: int, y: int) -> bool {
    &&& 0 <= x && x + 2 <= g[0].len()
    &&& 0 <= y < g.len()
    &&& g[y][x] == '$' && g[y][x + 1] == '$'
    &&& !o[y][x] && !o[y][x + 1]
}

/// `(x, y)` is the first matching pair in row-major scan order.
pub open spec fn is_first_pair(g: Seq<Seq<char>>, o: Seq<Seq<bool>>, x: int, y: int) -> bool {
    &&& pair_at(g, o, x, y)
    &&& forall|x2: int, y2: int|
        row_major_before(x2, y2, x, y) ==> !#[trigger] pair_at(g, o, x2, y2)
}

/// Some matching pair exists.
pub open spec fn has_pair(g: Seq<Seq<char>>, o: Seq<Seq<bool>>) -> bool {
    exists|x: int, y: int| #[trigger] pair_at(g, o, x, y)
}

/// The pairs at `(x1, y1)` and `(x2, y2)` share no cell.
pub open spec fn pairs_disjoint(x1: int, y1: int, x2: int, y2: int) -> bool {
    y1 != y2 || x1 + 2 <= x2 || x2 + 2 <= x1
}

/// Some matching pair shares no cell with the pair at `(fx, fy)`.
pub open spec fn has_second_pair(g: Seq<Seq<char>>, o: Seq<Seq<bool>>, fx: int, fy: int) -> bool {
    exists|x: int, y: int| #[trigger] pair_at(g, o, x, y) && pairs_disjoint(fx, fy, x, y)
}

/// Some `'$'` sits on an unclaimed cell outside the accepted pair at
/// `(fx, fy)`.
pub open spec fn stray_pac(g: Seq<Seq<char>>, o: Seq<Seq<bool>>, fx: int, fy: int) -> bool {
    exists|x: int, y: int|
        0 <= y < g.len() && 0 <= x < g[y].len() && (#[trigger] g[y][x]) == '$' && !o[y][x] && !(y
            == fy && (x == fx || x == fx + 1))
}

/// Some `'$'` sits on an unclaimed cell.
pub open spec fn has_pac_char_unclaimed(g: Seq<Seq<char>>, o: Seq<Seq<bool>>) -> bool {
    exists|x: int, y: int|
        0 <= y < g.len() && 0 <= x < g[y].len() && (#[trigger] g[y][x]) == '$' && !o[y][x]
}

/// At most one position can be the first pair of a grid and overlay.
pub proof fn lemma_first_pair_unique(
    g: Seq<Seq<char>>,
    o: Seq<Seq<bool>>,
    x1: int,
    y1: int,
    x2: int,
    y2: int,
)
    requires
        is_first_pair(g, o, x1, y1),
        is_first_pair(g, o, x2, y2),
    ensures
        x1 == x2 && y1 == y2,
{
    if row_major_before(x1, y1, x2, y2) {
        assert(!pair_at(g, o, x1, y1));
    } else if row_major_before(x2, y2, x1, y1) {
        assert(!pair_at(g, o, x2, y2));
    }
}

/// Scans for the Pac-Man spawn pair, claims its two cells on success, and
/// reports each structural violation as its own error kind.  Error
/// precedence: a second disjoint pair (`MultiplePacSpawns`) is detected
/// during the scan; a stray `'$'` on an unclaimed cell outside the accepted
/// pair (`InvalidPacSpawn`) comes next; then a grid without any matching
/// pair and without stray `'$'` (`NoPacSpawn`).
pub fn find_pac_spawn(g: &CharGrid, o: &mut ClaimOverlay) -> (r: Result<(usize, usize), PacError>)
    requires
        g.wf(),
        overlay_matches(old(o)@, g@),
    ensures
        match r {
            Ok(p) => {
                &&& is_first_pair(g@, old(o)@, p.0 as int, p.1 as int)
                &&& !has_second_pair(g@, old(o)@, p.0 as int, p.1 as int)
                &&& !stray_pac(g@, old(o)@, p.0 as int, p.1 as int)
                &&& rect_claimed(old(o)@, final(o)@, p.0 as int, p.1 as int, 2, 1)
                &&& overlay_matches(final(o)@, g@)
            },
            Err(e) => match e {
                PacError::MultiplePacSpawns => exists|fx: int, fy: int|
                    #[trigger] is_first_pair(g@, old(o)@, fx, fy) && has_second_pair(
                        g@,
                        old(o)@,
                        fx,
                        fy,
                    ),
                PacError::InvalidPacSpawn => (exists|fx: int, fy: int|
                    #[trigger] is_first_pair(g@, old(o)@, fx, fy) && !has_second_pair(
                        g@,
                        old(o)@,
                        fx,
                        fy,
                    ) && stray_pac(g@, old(o)@, fx, fy)) || (!has_pair(g@, old(o)@)
                    && has_pac_char_unclaimed(g@, old(o)@)),
                PacError::NoPacSpawn => !has_pair(g@, old(o)@) && !has_pac_char_unclaimed(
                    g@,
                    old(o)@,
                ),
                _ => false,
            },
        },
{
    let h = g.height();
    let w = g.width();
    let mut found = false;
    let mut fx: usize = 0;
    let mut fy: usize = 0;
    let xlim = w - 1;
    let mut y: usize = 0;
    while y < h
        invariant
            0 <= y <= h,
            g.wf(),
            h == g@.len(),
            w == g@[0].len(),
            w >= 1,
            xlim == w - 1,
            overlay_matches(old(o)@, g@),
            !found ==> forall|x2: int, y2: int|
                y2 < y ==> !#[trigger] pair_at(g@, old(o)@, x2, y2),
            !found ==> o@ == old(o)@,
            found ==> {
                &&& is_first_pair(g@, old(o)@, fx as int, fy as int)
                &&& fx + 2 <= w && fy < h
                &&& rect_claimed(old(o)@, o@, fx as int, fy as int, 2, 1)
                &&& forall|x2: int, y2: int|
                    y2 < y && #[trigger] pair_at(g@, old(o)@, x2, y2) ==> !pairs_disjoint(
                        fx as int,
                        fy as int,
                        x2,
                        y2,
                    )
            },
        decreases h - y,
    {
        let mut x: usize = 0;
        while x < xlim
            invariant
                0 <= x <= xlim,
                0 <= y < h,
                g.wf(),
                h == g@.len(),
                w == g@[0].len(),
                w >= 1,
                xlim == w - 1,
                overlay_matches(old(o)@, g@),
                !found ==> forall|x2: int, y2: int|
                    row_major_before(x2, y2, x as int, y as int) ==> !#[trigger] pair_at(
                        g@,
                        old(o)@,
                        x2,
                        y2,
                    ),
                !found ==> o@ == old(o)@,
                found ==> {
                    &&& is_first_pair(g@, old(o)@, fx as int, fy as int)
                    &&& fx + 2 <= w && fy < h
                    &&& rect_claimed(old(o)@, o@, fx as int, fy as int, 2, 1)
                    &&& forall|x2: int, y2: int|
                        row_major_before(x2, y2, x as int, y as int) && #[trigger] pair_at(
                            g@,
                            old(o)@,
                            x2,
                            y2,
                        ) ==> !pairs_disjoint(fx as int, fy as int, x2, y2)
                },
            decreases xlim - x,
        {
            let free = !o.claimed(x, y) && !o.claimed(x + 1, y);
            if free && g.at(x, y) == '$' && g.at(x + 1, y) == '$' {
                if !found {
                    found = true;
                    fx = x;
                    fy = y;
                    o.claim_rect(x, y, 2, 1);
                } else {
                    proof {
                        assert(pair_at(g@, old(o)@, x as int, y as int));
                        assert(pairs_disjoint(fx as int, fy as int, x as int, y as int));
                        assert(is_first_pair(g@, old(o)@, fx as int, fy as int));
                    }
                    return Err(PacError::MultiplePacSpawns);
                }
            }
            x += 1;
        }
        proof {
            assert forall|x2: int, y2: int|
                row_major_before(x2, y2, 0, y + 1) implies (row_major_before(
                x2,
                y2,
                xlim as int,
                y as int,
            ) || !pair_at(g@, old(o)@, x2, y2)) by {
                if y2 == y && x2 >= xlim {
                    assert(!pair_at(g@, old(o)@, x2, y2));
                }
            }
        }
        y += 1;
    }
    proof {
        assert forall|x2: int, y2: int| #[trigger] pair_at(g@, old(o)@, x2, y2) implies (y2 < h
            && x2 < xlim) by {}
    }
    // stray check: any '$' on a cell still unclaimed is a violation
    let mut sy: usize = 0;
    while sy < h
        invariant
            0 <= sy <= h,
            g.wf(),
            h == g@.len(),
            w == g@[0].len(),
            overlay_matches(old(o)@, g@),
            found ==> {
                &&& is_first_pair(g@, old(o)@, fx as int, fy as int)
                &&& fx + 2 <= w && fy < h
                &&& rect_claimed(old(o)@, o@, fx as int, fy as int, 2, 1)
                &&& !has_second_pair(g@, old(o)@, fx as int, fy as int)
            },
            !found ==> !has_pair(g@, old(o)@) && o@ == old(o)@,
            forall|x2: int, y2: int|
                0 <= y2 < sy && 0 <= x2 < w && (#[trigger] g@[y2][x2]) == '$' && !old(o)@[y2][x2]
                    ==> (found && y2 == fy && (x2 == fx || x2 == fx + 1)),
        decreases h - sy,
    {
        let mut sx: usize = 0;
        while sx < w
            invariant
                0 <= sx <= w,
                0 <= sy < h,
                g.wf(),
                h == g@.len(),
                w == g@[0].len(),
                overlay_matches(old(o)@, g@),
                found ==> {
                    &&& is_first_pair(g@, old(o)@, fx as int, fy as int)
                    &&& fx + 2 <= w && fy < h
                    &&& rect_claimed(old(o)@, o@, fx as int, fy as int, 2, 1)
                    &&& !has_second_pair(g@, old(o)@, fx as int, fy as int)
                },
                !found ==> !has_pair(g@, old(o)@) && o@ == old(o)@,
                forall|x2: int, y2: int|
                    0 <= y2 < sy && 0 <= x2 < w && (#[trigger] g@[y2][x2]) == '$' && !old(
                        o,
                    )@[y2][x2] ==> (found && y2 == fy && (x2 == fx || x2 == fx + 1)),
                forall|x2: int|
                    0 <= x2 < sx && (#[trigger] g@[sy as int][x2]) == '$' && !old(
                        o,
                    )@[sy as int][x2] ==> (found && sy == fy && (x2 == fx || x2 == fx + 1)),
            decreases w - sx,
        {
            if g.at(sx, sy) == '$' && !o.claimed(sx, sy) {
                let in_pair = found && sy == fy && (sx == fx || sx == fx + 1);
                if !in_pair {
                    proof {
                        assert(g@[sy as int][sx as int] == '$');
                        assert(!old(o)@[sy as int][sx as int]);
                        if found {
                            assert(stray_pac(g@, old(o)@, fx as int, fy as int));
                        } else {
                            assert(has_pac_char_unclaimed(g@, old(o)@));
                        }
                    }
                    return Err(PacError::InvalidPacSpawn);
                }
            }
            sx += 1;
        }
        sy += 1;
    }
    if !found {
        proof {
            assert forall|x2: int, y2: int|
                !(0 <= y2 < g@.len() && 0 <= x2 < g@[y2].len() && (#[trigger] g@[y2][x2]) == '$'
                    && !old(o)@[y2][x2]) by {
                if 0 <= y2 < g@.len() {
                    assert(g@[y2].len() == g@[0].len());
                }
            }
        }
        return Err(PacError::NoPacSpawn);
    }
    proof {
        assert forall|x2: int, y2: int|
            !(0 <= y2 < g@.len() && 0 <= x2 < g@[y2].len() && (#[trigger] g@[y2][x2]) == '$'
                && !old(o)@[y2][x2] && !(y2 == fy && (x2 == fx || x2 == fx + 1))) by {
            if 0 <= y2 < g@.len() {
                assert(g@[y2].len() == g@[0].len());
            }
        }
        assert(!stray_pac(g@, old(o)@, fx as int, fy as int));
    }
    Ok((fx, fy))
}

} // verus!
