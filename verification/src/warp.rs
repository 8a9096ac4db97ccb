//! Warp-tunnel validation: digits on unclaimed cells are grouped by value;
//! every used digit must appear exactly twice and the used digits must be
//! contiguous starting at 1.

use vstd::prelude::*;
use vstd::arithmetic::div_mod::lemma_fundamental_div_mod_converse;
use vstd::map::*;
use vstd::std_specs::hash::group_hash_axioms;

use crate::errors::PacError;
use crate::ghost::row_major_before;
use crate::grid::{overlay_matches, CharGrid, ClaimOverlay};
use std::collections::HashMap;

verus! {

/// Whether `c` is an ASCII digit.
pub open spec fn is_digit_char(c: char) -> bool {
    48 <= c as int <= 57
}

/// The numeric value of an ASCII digit character.
pub open spec fn digit_val(c: char) -> int {
    c as int - 48
}

/// The unclaimed cells holding digit `d` among the first `n` cells in
/// row-major order, as `(x, y)` coordinates in the order they are visited.
pub open spec fn digit_positions_upto(
    g: Seq<Seq<char>>,
    o: Seq<Seq<bool>>,
    d: int,
    n: int,
) -> Seq<(usize, usize)>
    decreases n,
{
    if n <= 0 {
        Seq::empty()
    } else {
        let w = g[0].len() as int;
        let i = n - 1;
        let y = i / w;
        let x = i % w;
        let rest = digit_positions_upto(g, o, d, i);
        if is_digit_char(g[y][x]) && digit_val(g[y][x]) == d && !o[y][x] {
            rest.push((x as usize, y as usize))
        } else {
            rest
        }
    }
}

/// All unclaimed cells holding digit `d`, in row-major order.
pub open spec fn digit_positions(g: Seq<Seq<char>>, o: Seq<Seq<bool>>, d: int) -> Seq<
    (usize, usize),
> {
    digit_positions_upto(g, o, d, g.len() * g[0].len() as int)
}

/// How often digit `d` occurs on unclaimed cells.
pub open spec fn digit_count(g: Seq<Seq<char>>, o: Seq<Seq<bool>>, d: int) -> int {
    digit_positions(g, o, d).len() as int
}

/// The digit assignment is acceptable: no `0` digit, every used digit
/// occurs exactly twice, and the used digits are contiguous from 1 upward
/// (which also bounds them by 9).  A grid without digits is acceptable.
pub open spec fn warps_ok(g: Seq<Seq<char>>, o: Seq<Seq<bool>>) -> bool {
    &&& digit_count(g, o, 0) == 0
    &&& forall|d: int|
        1 <= d <= 9 ==> (#[trigger] digit_count(g, o, d) == 0 || digit_count(g, o, d) == 2)
    &&& forall|d: int|
        2 <= d <= 9 && #[trigger] digit_count(g, o, d) > 0 ==> digit_count(g, o, d - 1) > 0
}

/// The warp map delivered on success: each used digit `d` (it occurs
/// exactly twice) is keyed as `d`, mapped to its first and second
/// coordinate in scan order.
pub open spec fn warp_map_spec(g: Seq<Seq<char>>, o: Seq<Seq<bool>>) -> Map<
    i32,
    ((usize, usize), (usize, usize)),
> {
    Map::new(
        |k: i32| 1 <= k <= 9 && digit_count(g, o, k as int) == 2,
        |k: i32| (digit_positions(g, o, k as int)[0], digit_positions(g, o, k as int)[1]),
    )
}

/// The scan claims exactly the digit cells: afterwards a cell is claimed
/// when it was claimed before or holds a digit.
pub open spec fn digit_cells_claimed(
    g: Seq<Seq<char>>,
    o_old: Seq<Seq<bool>>,
    o_new: Seq<Seq<bool>>,
) -> bool {
    &&& o_new.len() == o_old.len()
    &&& forall|j: int| 0 <= j < o_old.len() ==> (#[trigger] o_new[j]).len() == o_old[j].len()
    &&& forall|j: int, i: int|
        0 <= j < o_old.len() && 0 <= i < o_old[j].len() ==> #[trigger] o_new[j][i] == (
        o_old[j][i] || (j < g.len() && i < g[j].len() && is_digit_char(g[j][i])))
}

/// Under an acceptable assignment, a used digit forces every smaller digit
/// down to 1 to be used as well.
pub proof fn lemma_warps_ok_downward(g: Seq<Seq<char>>, o: Seq<Seq<bool>>, a: int, b: int)
    requires
        warps_ok(g, o),
        1 <= a <= b <= 9,
        digit_count(g, o, b) > 0,
    ensures
        digit_count(g, o, a) > 0,
    decreases b - a,
{
    if a < b {
        assert(digit_count(g, o, b - 1) > 0);
        lemma_warps_ok_downward(g, o, a, b - 1);
    }
}

/// Collects the digits on unclaimed cells in row-major order, claims them,
/// and validates the assignment: every used digit exactly twice, used
/// digits contiguous from 1.  On success the warp map carries, for every
/// used digit `d`, the key `d` with the digit's two coordinates in scan
/// order; a grid without digits yields the empty map.  Every violation is
/// `InvalidWarp`.
pub fn collect_warps(g: &CharGrid, o: &mut ClaimOverlay) -> (r: Result<
    HashMap<i32, ((usize, usize), (usize, usize))>,
    PacError,
>)
    requires
        g.wf(),
        overlay_matches(old(o)@, g@),
    ensures
        match r {
            Ok(m) => {
                &&& warps_ok(g@, old(o)@)
                &&& m@ == warp_map_spec(g@, old(o)@)
                &&& digit_cells_claimed(g@, old(o)@, final(o)@)
                &&& overlay_matches(final(o)@, g@)
            },
            Err(e) => e == PacError::InvalidWarp && !warps_ok(g@, old(o)@),
        },
{
    broadcast use group_hash_axioms;

    let h = g.height();
    let w = g.width();
    let mut groups: Vec<Vec<(usize, usize)>> = Vec::new();
    let mut d0: usize = 0;
    while d0 < 10
        invariant
            0 <= d0 <= 10,
            groups@.len() == d0,
            forall|d: int| 0 <= d < d0 ==> (#[trigger] groups@[d])@ == Seq::<(usize, usize)>::empty(),
        decreases 10 - d0,
    {
        groups.push(Vec::new());
        d0 += 1;
    }
    let ghost g0 = g@;
    let ghost o0 = old(o)@;
    let mut y: usize = 0;
    let ghost mut n: int = 0;
    while y < h
        invariant
            0 <= y <= h,
            g.wf(),
            h == g0.len(),
            w == g0[0].len(),
            g@ == g0,
            overlay_matches(o0, g0),
            overlay_matches(o@, g0),
            n == y * w,
            groups@.len() == 10,
            forall|d: int|
                0 <= d < 10 ==> (#[trigger] groups@[d])@ == digit_positions_upto(g0, o0, d, n),
            forall|j: int, i: int|
                0 <= j < o0.len() && 0 <= i < o0[j].len() ==> #[trigger] o@[j][i] == (if
                row_major_before(i, j, 0, y as int) {
                    o0[j][i] || is_digit_char(g0[j][i])
                } else {
                    o0[j][i]
                }),
        decreases h - y,
    {
        let mut x: usize = 0;
        while x < w
            invariant
                0 <= x <= w,
                0 <= y < h,
                g.wf(),
                h == g0.len(),
                w == g0[0].len(),
                g@ == g0,
                overlay_matches(o0, g0),
                overlay_matches(o@, g0),
                n == y * w + x,
                groups@.len() == 10,
                forall|d: int|
                    0 <= d < 10 ==> (#[trigger] groups@[d])@ == digit_positions_upto(g0, o0, d, n),
                forall|j: int, i: int|
                    0 <= j < o0.len() && 0 <= i < o0[j].len() ==> #[trigger] o@[j][i] == (if
                    row_major_before(i, j, x as int, y as int) {
                        o0[j][i] || is_digit_char(g0[j][i])
                    } else {
                        o0[j][i]
                    }),
            decreases w - x,
        {
            proof {
                lemma_fundamental_div_mod_converse(n, w as int, y as int, x as int);
            }
            let c = g.at(x, y);
            let u = c as u32;
            let claimed = o.claimed(x, y);
            if !claimed && u >= 48 && u <= 57 {
                let dv = (u - 48) as usize;
                proof {
                    assert(is_digit_char(g0[y as int][x as int]));
                    assert(digit_val(g0[y as int][x as int]) == dv as int);
                }
                let coord = (x, y);
                groups[dv].push(coord);
                o.claim_rect(x, y, 1, 1);
            }
            proof {
                assert forall|d: int|
                    0 <= d < 10 implies (#[trigger] groups@[d])@ == digit_positions_upto(
                    g0,
                    o0,
                    d,
                    n + 1,
                ) by {}
                n = n + 1;
            }
            x += 1;
        }
        proof {
            assert((y + 1) * w == y * w + w) by (nonlinear_arith);
        }
        y += 1;
    }
    proof {
        assert(n == h * w) by (nonlinear_arith)
            requires
                n == h as int * w as int,
        ;
        assert(g0.len() * g0[0].len() == n);
        assert forall|d: int|
            0 <= d < 10 implies (#[trigger] groups@[d])@ == digit_positions(g0, o0, d) by {}
    }
    proof {
        assert(digit_cells_claimed(g0, o0, o@));
        assert forall|d: int|
            0 <= d <= 9 implies #[trigger] digit_count(g0, o0, d) == groups@[d]@.len() by {}
    }
    // validation: the highest used digit
    let mut maxd: usize = 0;
    let mut d1: usize = 1;
    while d1 <= 9
        invariant
            1 <= d1 <= 10,
            0 <= maxd < d1,
            groups@.len() == 10,
            forall|d: int| 0 <= d < 10 ==> (#[trigger] groups@[d])@ == digit_positions(g0, o0, d),
            forall|d: int| maxd < d < d1 ==> (#[trigger] groups@[d])@.len() == 0,
            maxd >= 1 ==> groups@[maxd as int]@.len() > 0,
            forall|d: int|
                0 <= d <= 9 ==> #[trigger] digit_count(g0, o0, d) == groups@[d]@.len(),
            digit_cells_claimed(g0, o0, o@),
            overlay_matches(o@, g0),
            g0 == g@,
            o0 == old(o)@,
        decreases 10 - d1,
    {
        if groups[d1].len() > 0 {
            maxd = d1;
        }
        d1 += 1;
    }
    if groups[0].len() > 0 {
        proof {
            assert(digit_count(g0, o0, 0) == groups@[0]@.len());
        }
        return Err(PacError::InvalidWarp);
    }
    if maxd == 0 {
        let m: HashMap<i32, ((usize, usize), (usize, usize))> = HashMap::new();
        proof {
            assert forall|k: i32| !(#[trigger] warp_map_spec(g0, o0).dom().contains(k)) by {
                if 1 <= k <= 9 {
                    assert(digit_count(g0, o0, k as int) == groups@[k as int]@.len());
                }
            }
            assert(m@ =~= warp_map_spec(g0, o0));
        }
        return Ok(m);
    }
    let mut d2: usize = 1;
    while d2 <= maxd
        invariant
            1 <= d2 <= maxd + 1,
            1 <= maxd <= 9,
            groups@.len() == 10,
            forall|d: int| 0 <= d < 10 ==> (#[trigger] groups@[d])@ == digit_positions(g0, o0, d),
            forall|d: int| maxd < d <= 9 ==> (#[trigger] groups@[d])@.len() == 0,
            groups@[0]@.len() == 0,
            groups@[maxd as int]@.len() > 0,
            forall|d: int| 1 <= d < d2 ==> (#[trigger] groups@[d])@.len() == 2,
            forall|d: int|
                0 <= d <= 9 ==> #[trigger] digit_count(g0, o0, d) == groups@[d]@.len(),
            digit_cells_claimed(g0, o0, o@),
            overlay_matches(o@, g0),
            g0 == g@,
            o0 == old(o)@,
        decreases maxd + 1 - d2,
    {
        if groups[d2].len() != 2 {
            proof {
                assert(digit_count(g0, o0, d2 as int) == groups@[d2 as int]@.len());
                assert(digit_count(g0, o0, maxd as int) == groups@[maxd as int]@.len());
                if warps_ok(g0, o0) {
                    if groups@[d2 as int]@.len() == 0 {
                        lemma_warps_ok_downward(g0, o0, d2 as int, maxd as int);
                    }
                    assert(false);
                }
            }
            return Err(PacError::InvalidWarp);
        }
        d2 += 1;
    }
    proof {
        assert(warps_ok(g0, o0));
    }
    let mut m: HashMap<i32, ((usize, usize), (usize, usize))> = HashMap::new();
    let mut d3: usize = 1;
    while d3 <= maxd
        invariant
            1 <= d3 <= maxd + 1,
            1 <= maxd <= 9,
            groups@.len() == 10,
            forall|d: int| 0 <= d < 10 ==> (#[trigger] groups@[d])@ == digit_positions(g0, o0, d),
            forall|d: int| maxd < d <= 9 ==> (#[trigger] groups@[d])@.len() == 0,
            groups@[0]@.len() == 0,
            forall|d: int| 1 <= d <= maxd ==> (#[trigger] groups@[d])@.len() == 2,
            forall|d: int|
                0 <= d <= 9 ==> #[trigger] digit_count(g0, o0, d) == groups@[d]@.len(),
            digit_cells_claimed(g0, o0, o@),
            overlay_matches(o@, g0),
            g0 == g@,
            o0 == old(o)@,
            warps_ok(g0, o0),
            forall|k: i32|
                #[trigger] m@.contains_key(k) <==> (1 <= k as int && (k as int) < (d3 as int)),
            forall|k: i32|
                m@.contains_key(k) ==> #[trigger] m@[k] == (
                digit_positions(g0, o0, k as int)[0],
                digit_positions(g0, o0, k as int)[1],
                ),
        decreases maxd + 1 - d3,
    {
        let c0 = groups[d3][0];
        let c1 = groups[d3][1];
        let key: i32 = d3 as i32;
        m.insert(key, (c0, c1));
        d3 += 1;
    }
    proof {
        assert forall|k: i32|
            m@.contains_key(k) <==> #[trigger] warp_map_spec(g0, o0).dom().contains(k) by {
            if 1 <= k <= 9 {
                assert(digit_count(g0, o0, k as int) == groups@[k as int]@.len());
            }
        }
        assert forall|k: i32| #[trigger] m@.contains_key(k) implies m@[k] == warp_map_spec(
            g0,
            o0,
        )[k] by {}
        assert(m@ =~= warp_map_spec(g0, o0));
    }
    Ok(m)
}

} // verus!
