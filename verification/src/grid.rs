//! Grid ingestion: raw level text to a rectangular character grid, plus the
//! claim overlay that later stages use to mark cells already interpreted.

use vstd::prelude::*;
use vstd::string::StrSliceExecFns;

use crate::errors::PacError;

verus! {

/// The segments of `s` between newline characters: one segment more than
/// there are `'\n'` characters, in order.
pub open spec fn split_newlines(s: Seq<char>) -> Seq<Seq<char>>
    decreases s.len(),
{
    if s.len() == 0 {
        seq![Seq::<char>::empty()]
    } else if s.last() == '\n' {
        split_newlines(s.drop_last()).push(Seq::<char>::empty())
    } else {
        let r = split_newlines(s.drop_last());
        r.update(r.len() - 1, r.last().push(s.last()))
    }
}

/// `t` with one trailing carriage return removed, if present.
pub open spec fn strip_tail_cr(t: Seq<char>) -> Seq<char> {
    if t.len() > 0 && t.last() == '\r' {
        t.drop_last()
    } else {
        t
    }
}

/// The lines of `s`: segments are split at `'\n'`, a carriage return
/// directly before a `'\n'` is dropped, and a final empty segment (from a
/// trailing newline, or from empty input) yields no line.
pub open spec fn lines_of(s: Seq<char>) -> Seq<Seq<char>> {
    let raw = split_newlines(s);
    let init = Seq::new((raw.len() - 1) as nat, |j: int| strip_tail_cr(raw[j]));
    if raw.last().len() == 0 {
        init
    } else {
        init.push(raw.last())
    }
}

/// Every row is as long as the first.
pub open spec fn grid_rect(g: Seq<Seq<char>>) -> bool {
    forall|j: int| 0 <= j < g.len() ==> (#[trigger] g[j]).len() == g[0].len()
}

/// A grid is well formed when it has at least one row, at least one column,
/// and every row is as long as the first.
pub open spec fn grid_wf(g: Seq<Seq<char>>) -> bool {
    &&& g.len() > 0
    &&& g[0].len() > 0
    &&& grid_rect(g)
}

/// A rectangular grid of characters; rows first, then columns.
pub struct CharGrid {
    rows: Vec<Vec<char>>,
}

impl View for CharGrid {
    type V = Seq<Seq<char>>;

    closed spec fn view(&self) -> Seq<Seq<char>> {
        self.rows@.map_values(|r: Vec<char>| r@)
    }
}

impl CharGrid {
    /// The grid is rectangular and has at least one row and one column.
    pub open spec fn wf(&self) -> bool {
        grid_wf(self@)
    }

    /// Row count.
    pub fn height(&self) -> (h: usize)
        requires
            self.wf(),
        ensures
            h == self@.len(),
    {
        self.rows.len()
    }

    /// Column count, identical for every row.
    pub fn width(&self) -> (w: usize)
        requires
            self.wf(),
        ensures
            w == self@[0].len(),
    {
        self.rows[0].len()
    }

    /// The character at column `x` of row `y`.
    pub fn at(&self, x: usize, y: usize) -> (c: char)
        requires
            self.wf(),
            y < self@.len(),
            x < self@[0].len(),
        ensures
            c == self@[y as int][x as int],
    {
        proof {
            assert(self@[y as int] == self.rows@[y as int]@);
        }
        self.rows[y][x]
    }

    /// Splits the text into lines and checks the shape: fails with
    /// `LevelEmpty` when there is no line or the first line has no column,
    /// and with `LevelNotRectangular` when some row's length differs from
    /// the first row's.
    pub fn from_text(text: &str) -> (r: Result<CharGrid, PacError>)
        ensures
            match r {
                Ok(g) => {
                    &&& g@ == lines_of(text@)
                    &&& g.wf()
                },
                Err(e) => {
                    let ls = lines_of(text@);
                    if ls.len() == 0 || ls[0].len() == 0 {
                        e == PacError::LevelEmpty
                    } else {
                        &&& e == PacError::LevelNotRectangular
                        &&& exists|j: int|
                            0 <= j < ls.len() && (#[trigger] ls[j]).len() != ls[0].len()
                    }
                },
            },
    {
        let rows = split_lines(text);
        if rows.len() == 0 {
            return Err(PacError::LevelEmpty);
        }
        let width = rows[0].len();
        if width == 0 {
            return Err(PacError::LevelEmpty);
        }
        let mut j: usize = 1;
        while j < rows.len()
            invariant
                1 <= j <= rows@.len(),
                width == rows@[0]@.len(),
                width > 0,
                rows@.len() == lines_of(text@).len(),
                forall|k: int|
                    0 <= k < rows@.len() ==> (#[trigger] rows@[k])@ == lines_of(text@)[k],
                forall|k: int| 0 <= k < j ==> (#[trigger] rows@[k])@.len() == width,
            decreases rows@.len() - j,
        {
            if rows[j].len() != width {
                proof {
                    let ls = lines_of(text@);
                    assert(rows@[0]@ == ls[0]);
                    assert(rows@[j as int]@ == ls[j as int]);
                    assert(ls[j as int].len() != ls[0].len());
                }
                return Err(PacError::LevelNotRectangular);
            }
            j += 1;
        }
        let g = CharGrid { rows };
        proof {
            assert forall|k: int| 0 <= k < g@.len() implies (#[trigger] g@[k]).len()
                == g@[0].len() by {
                assert(g@[k] == g.rows@[k]@);
            }
        }
        Ok(g)
    }
}

/// The overlay has one boolean per grid cell.
pub open spec fn overlay_matches(o: Seq<Seq<bool>>, g: Seq<Seq<char>>) -> bool {
    &&& o.len() == g.len()
    &&& forall|j: int| 0 <= j < o.len() ==> (#[trigger] o[j]).len() == g[j].len()
}

/// `n` is `old` with every cell of the `rw`-wide, `rh`-tall rectangle whose
/// top-left corner is `(x, y)` set to claimed, and no other cell changed.
pub open spec fn rect_claimed(
    old: Seq<Seq<bool>>,
    n: Seq<Seq<bool>>,
    x: int,
    y: int,
    rw: int,
    rh: int,
) -> bool {
    &&& n.len() == old.len()
    &&& forall|j: int| 0 <= j < old.len() ==> (#[trigger] n[j]).len() == old[j].len()
    &&& forall|j: int, i: int|
        0 <= j < old.len() && 0 <= i < old[j].len() ==> #[trigger] n[j][i] == (if x <= i < x + rw
            && y <= j < y + rh {
            true
        } else {
            old[j][i]
        })
}

/// The per-cell record of which cells an earlier stage has already
/// interpreted, so that a later scan does not reuse them.
pub struct ClaimOverlay {
    cells: Vec<Vec<bool>>,
}

impl View for ClaimOverlay {
    type V = Seq<Seq<bool>>;

    closed spec fn view(&self) -> Seq<Seq<bool>> {
        self.cells@.map_values(|r: Vec<bool>| r@)
    }
}

impl ClaimOverlay {
    /// A fresh overlay of the grid's dimensions with every cell unclaimed.
    pub fn new(g: &CharGrid) -> (o: ClaimOverlay)
        requires
            g.wf(),
        ensures
            overlay_matches(o@, g@),
            forall|j: int, i: int|
                0 <= j < o@.len() && 0 <= i < o@[j].len() ==> !(#[trigger] o@[j][i]),
    {
        let height = g.height();
        let width = g.width();
        let mut cells: Vec<Vec<bool>> = Vec::new();
        let mut j: usize = 0;
        while j < height
            invariant
                0 <= j <= height,
                height == g@.len(),
                width == g@[0].len(),
                g.wf(),
                cells@.len() == j,
                forall|k: int| 0 <= k < j ==> (#[trigger] cells@[k])@.len() == width,
                forall|k: int, i: int|
                    0 <= k < j && 0 <= i < width ==> !(#[trigger] cells@[k]@[i]),
            decreases height - j,
        {
            let mut row: Vec<bool> = Vec::new();
            let mut i: usize = 0;
            while i < width
                invariant
                    0 <= i <= width,
                    row@.len() == i,
                    forall|k: int| 0 <= k < i ==> !(#[trigger] row@[k]),
                decreases width - i,
            {
                row.push(false);
                i += 1;
            }
            cells.push(row);
            j += 1;
        }
        let o = ClaimOverlay { cells };
        proof {
            assert forall|k: int| 0 <= k < o@.len() implies (#[trigger] o@[k]).len()
                == g@[k].len() by {
                assert(o@[k] == cells@[k]@);
            }
            assert forall|k: int, i: int|
                0 <= k < o@.len() && 0 <= i < o@[k].len() implies !(#[trigger] o@[k][i]) by {
                assert(o@[k] == cells@[k]@);
            }
        }
        o
    }

    /// Whether the cell at column `x` of row `y` is already claimed.
    pub fn claimed(&self, x: usize, y: usize) -> (b: bool)
        requires
            y < self@.len(),
            x < self@[y as int].len(),
        ensures
            b == self@[y as int][x as int],
    {
        proof {
            assert(self@[y as int] == self.cells@[y as int]@);
        }
        self.cells[y][x]
    }

    /// Claims every cell of the rectangle of width `rw` and height `rh`
    /// whose top-left corner is `(x, y)`.
    pub fn claim_rect(&mut self, x: usize, y: usize, rw: usize, rh: usize)
        requires
            x + rw <= usize::MAX,
            y + rh <= usize::MAX,
            y + rh <= old(self)@.len(),
            forall|j: int|
                y <= j < y + rh ==> x + rw <= (#[trigger] old(self)@[j]).len(),
        ensures
            rect_claimed(old(self)@, final(self)@, x as int, y as int, rw as int, rh as int),
    {
        let mut dj: usize = 0;
        while dj < rh
            invariant
                0 <= dj <= rh,
                x + rw <= usize::MAX,
                y + rh <= usize::MAX,
                y + rh <= old(self)@.len(),
                forall|j: int|
                    y <= j < y + rh ==> x + rw <= (#[trigger] old(self)@[j]).len(),
                self@.len() == old(self)@.len(),
                forall|j: int|
                    0 <= j < old(self)@.len() ==> (#[trigger] self@[j]).len()
                        == old(self)@[j].len(),
                forall|j: int, i: int|
                    0 <= j < old(self)@.len() && 0 <= i < old(self)@[j].len()
                        ==> #[trigger] self@[j][i] == (if x <= i < x + rw && y <= j < y + dj {
                        true
                    } else {
                        old(self)@[j][i]
                    }),
            decreases rh - dj,
        {
            let mut di: usize = 0;
            while di < rw
                invariant
                    0 <= di <= rw,
                    0 <= dj < rh,
                    x + rw <= usize::MAX,
                    y + rh <= usize::MAX,
                    y + rh <= old(self)@.len(),
                    forall|j: int|
                        y <= j < y + rh ==> x + rw <= (#[trigger] old(self)@[j]).len(),
                    self@.len() == old(self)@.len(),
                    forall|j: int|
                        0 <= j < old(self)@.len() ==> (#[trigger] self@[j]).len()
                            == old(self)@[j].len(),
                    forall|j: int, i: int|
                        0 <= j < old(self)@.len() && 0 <= i < old(self)@[j].len()
                            ==> #[trigger] self@[j][i] == (if (x <= i < x + rw && y <= j < y + dj)
                            || (j == y + dj && x <= i < x + di) {
                            true
                        } else {
                            old(self)@[j][i]
                        }),
                decreases rw - di,
            {
                self.set_claimed(x + di, y + dj);
                di += 1;
            }
            dj += 1;
        }
    }

    /// Claims the single cell at column `x` of row `y`.
    fn set_claimed(&mut self, x: usize, y: usize)
        requires
            y < old(self)@.len(),
            x < old(self)@[y as int].len(),
        ensures
            final(self)@.len() == old(self)@.len(),
            forall|j: int|
                0 <= j < old(self)@.len() ==> (#[trigger] final(self)@[j]).len()
                    == old(self)@[j].len(),
            forall|j: int, i: int|
                0 <= j < old(self)@.len() && 0 <= i < old(self)@[j].len()
                    ==> #[trigger] final(self)@[j][i] == (if j == y && i == x {
                    true
                } else {
                    old(self)@[j][i]
                }),
    {
        proof {
            assert(self@[y as int] == self.cells@[y as int]@);
        }
        self.cells[y][x] = true;
        proof {
            assert forall|j: int|
                0 <= j < old(self)@.len() implies (#[trigger] self@[j]).len()
                == old(self)@[j].len() by {
                assert(self@[j] == self.cells@[j]@);
                assert(old(self)@[j] == old(self).cells@[j]@);
            }
            assert forall|j: int, i: int|
                0 <= j < old(self)@.len() && 0 <= i < old(self)@[j].len()
                    implies #[trigger] self@[j][i] == (if j == y && i == x {
                    true
                } else {
                    old(self)@[j][i]
                }) by {
                assert(self@[j] == self.cells@[j]@);
                assert(old(self)@[j] == old(self).cells@[j]@);
            }
        }
    }
}

/// Splits `text` at newline characters, as `lines_of` describes.
fn split_lines(text: &str) -> (rows: Vec<Vec<char>>)
    ensures
        rows@.len() == lines_of(text@).len(),
        forall|j: int|
            0 <= j < rows@.len() ==> (#[trigger] rows@[j])@ == lines_of(text@)[j],
        rows@.map_values(|r: Vec<char>| r@) == lines_of(text@),
{
    let s = text;
    let n = s.unicode_len();
    let mut done: Vec<Vec<char>> = Vec::new();
    let mut cur: Vec<char> = Vec::new();
    let mut i: usize = 0;
    while i < n
        invariant
            0 <= i <= n,
            n == s@.len(),
            split_newlines(s@.take(i as int)).len() == done@.len() + 1,
            cur@ == split_newlines(s@.take(i as int)).last(),
            forall|j: int|
                0 <= j < done@.len() ==> (#[trigger] done@[j])@ == strip_tail_cr(
                    split_newlines(s@.take(i as int))[j],
                ),
        decreases n - i,
    {
        proof {
            assert(s@.take(i + 1).drop_last() =~= s@.take(i as int));
            assert(s@.take(i + 1).last() == s@[i as int]);
        }
        let c = s.get_char(i);
        if c == '\n' {
            let mut line = cur;
            if line.len() > 0 && line[line.len() - 1] == '\r' {
                line.pop();
            }
            proof {
                assert(line@ == strip_tail_cr(split_newlines(s@.take(i as int)).last()));
            }
            done.push(line);
            cur = Vec::new();
        } else {
            cur.push(c);
            proof {
                let raw = split_newlines(s@.take(i as int));
                let raw2 = split_newlines(s@.take(i + 1));
                assert(raw2 == raw.update(raw.len() - 1, raw.last().push(s@[i as int])));
                assert(raw2.last() == raw.last().push(s@[i as int]));
            }
        }
        i += 1;
    }
    proof {
        assert(s@.take(n as int) =~= s@);
    }
    if cur.len() > 0 {
        done.push(cur);
    }
    proof {
        let ls = lines_of(s@);
        assert(done@.len() == ls.len());
        assert forall|j: int| 0 <= j < done@.len() implies (#[trigger] done@[j])@
            == ls[j] by {}
        assert(done@.map_values(|r: Vec<char>| r@) =~= ls);
    }
    done
}

} // verus!
