//! Cell encoding: every character of the grid becomes a numeric cell code,
//! row by row, producing the flat board sequence.

use vstd::prelude::*;
use vstd::arithmetic::div_mod::lemma_fundamental_div_mod_converse;

use crate::errors::PacError;
use crate::grid::CharGrid;

verus! {

/// The characters the encoder accepts.
pub open spec fn valid_cell(c: char) -> bool {
    c == ' ' || c == '#' || c == '-' || c == '!' || c == '$' || c == '@' || (49 <= c as int
        <= 57)
}

/// The cell code of an accepted character: blank, Pac-Man marker cells are
/// open floor (0); walls and ghost-marker cells are impassable (1); dots
/// are 2 and power pellets 3; warp digit `d` is `-d`.  Characters the
/// encoder rejects are given an arbitrary code here; `valid_cell` rules
/// them out.
pub open spec fn cell_code(c: char) -> i32 {
    if c == ' ' {
        0
    } else if c == '#' {
        1
    } else if c == '-' {
        2
    } else if c == '!' {
        3
    } else if c == '$' {
        0
    } else if c == '@' {
        1
    } else if 49 <= c as int <= 57 {
        (48 - c as int) as i32
    } else {
        0
    }
}

/// Every cell of the grid holds an accepted character.
pub open spec fn all_encodable(g: Seq<Seq<char>>) -> bool {
    forall|y: int, x: int|
        0 <= y < g.len() && 0 <= x < g[y].len() ==> valid_cell(#[trigger] g[y][x])
}

/// The flat row-major sequence of cell codes of the grid.
pub open spec fn board_flat(g: Seq<Seq<char>>) -> Seq<i32> {
    Seq::new(
        (g.len() * g[0].len()) as nat,
        |k: int| cell_code(g[k / (g[0].len() as int)][k % (g[0].len() as int)]),
    )
}

/// Encodes every grid cell into its numeric code, in row-major order.
/// Fails with `InvalidCharacters` exactly when some cell holds a character
/// outside the accepted set.
pub fn encode_board(g: &CharGrid) -> (r: Result<Vec<i32>, PacError>)
    requires
        g.wf(),
    ensures
        match r {
            Ok(v) => {
                &&& all_encodable(g@)
                &&& v@ == board_flat(g@)
                &&& v@.len() == g@.len() * g@[0].len()
            },
            Err(e) => e == PacError::InvalidCharacters && !all_encodable(g@),
        },
{
    let h = g.height();
    let w = g.width();
    let mut flat: Vec<i32> = Vec::new();
    let mut y: usize = 0;
    let ghost mut n: int = 0;
    while y < h
        invariant
            0 <= y <= h,
            g.wf(),
            h == g@.len(),
            w == g@[0].len(),
            n == y * w,
            flat@.len() == n,
            forall|k: int| 0 <= k < n ==> flat@[k] == board_flat(g@)[k],
            forall|j: int, i: int|
                0 <= j < y && 0 <= i < w ==> valid_cell(#[trigger] g@[j][i]),
        decreases h - y,
    {
        let mut x: usize = 0;
        while x < w
            invariant
                0 <= x <= w,
                0 <= y < h,
                g.wf(),
                h == g@.len(),
                w == g@[0].len(),
                n == y * w + x,
                flat@.len() == n,
                forall|k: int| 0 <= k < n ==> flat@[k] == board_flat(g@)[k],
                forall|j: int, i: int|
                    0 <= j < y && 0 <= i < w ==> valid_cell(#[trigger] g@[j][i]),
                forall|i: int| 0 <= i < x ==> valid_cell(#[trigger] g@[y as int][i]),
            decreases w - x,
        {
            proof {
                lemma_fundamental_div_mod_converse(n, w as int, y as int, x as int);
                assert(n < g@.len() * g@[0].len()) by (nonlinear_arith)
                    requires
                        n == y * w + x,
                        0 <= x < w,
                        0 <= y < h,
                        h == g@.len(),
                        w == g@[0].len(),
                ;
            }
            let c = g.at(x, y);
            let code: i32 = if c == ' ' {
                0
            } else if c == '#' {
                1
            } else if c == '-' {
                2
            } else if c == '!' {
                3
            } else if c == '$' {
                0
            } else if c == '@' {
                1
            } else {
                let u = c as u32;
                if 49 <= u && u <= 57 {
                    -((u - 48) as i32)
                } else {
                    proof {
                        assert(!valid_cell(g@[y as int][x as int]));
                    }
                    return Err(PacError::InvalidCharacters);
                }
            };
            proof {
                assert(valid_cell(g@[y as int][x as int]));
                assert(code == cell_code(g@[y as int][x as int]));
                assert(board_flat(g@)[n] == cell_code(g@[y as int][x as int]));
                n = n + 1;
            }
            flat.push(code);
            x += 1;
        }
        proof {
            assert((y + 1) * w == y * w + w) by (nonlinear_arith);
        }
        y += 1;
    }
    proof {
        assert(n == h * w) by (nonlinear_arith)
            requires
                n == h as int * w as int,
        ;
        assert(flat@ =~= board_flat(g@));
        assert forall|y2: int, x2: int|
            0 <= y2 < g@.len() && 0 <= x2 < g@[y2].len() implies valid_cell(
            #[trigger] g@[y2][x2],
        ) by {
            assert(g@[y2].len() == g@[0].len());
        }
    }
    Ok(flat)
}

} // verus!
