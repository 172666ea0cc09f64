use vstd::prelude::*;
use crate::board::{cell, Board, BoardState, Player, CELLS, COLS, ROWS};

verus! {

/// Room for the preview tile and one tile per cell.
pub const INSTANCE_CAPACITY: usize = CELLS + 1;

/// What a drawn tile shows.
#[derive(Clone, Copy, Debug, PartialEq, Eq, Structural)]
pub enum TileKind {
    /// The translucent tile that marks the hovered column.
    Preview,
    /// A tile that lies in the grid.
    Placed(Player),
}

/// One tile to draw: the centre of the tile on the board plane, measured from
/// the centre of the board in halves of a cell (x to the right, y upward), and
/// what it shows.
#[derive(Clone, Copy, Debug, PartialEq, Eq, Structural)]
pub struct TileInstance {
    pub x_halves: i32,
    pub y_halves: i32,
    pub kind: TileKind,
}

/// Twice the x coordinate of the centre of column `c`: `c - COLS / 2 + 1 / 2`.
pub open spec fn column_x_halves(c: int) -> int {
    2 * c - COLS as int + 1
}

/// Twice the y coordinate of the centre of row `r`: `ROWS / 2 - 1 / 2 - r`.
pub open spec fn row_y_halves(r: int) -> int {
    ROWS as int - 1 - 2 * r
}

/// Twice the y coordinate of the preview tile: one cell above the top edge.
pub open spec fn preview_y_halves() -> int {
    ROWS as int + 2
}

pub open spec fn preview_instance(c: int) -> TileInstance {
    TileInstance { x_halves: column_x_halves(c) as i32, y_halves: preview_y_halves() as i32, kind: TileKind::Preview }
}

pub open spec fn placed_instance(r: int, c: int, p: Player) -> TileInstance {
    TileInstance { x_halves: column_x_halves(c) as i32, y_halves: row_y_halves(r) as i32, kind: TileKind::Placed(p) }
}

/// The tiles of the occupied cells from row `r`, column `c` on, row by row
/// from the top and left to right within a row.
pub open spec fn placed_from(g: Seq<Option<Player>>, r: int, c: int) -> Seq<TileInstance>
    decreases ROWS as int - r, COLS as int - c,
{
    if r < 0 || c < 0 || r >= ROWS as int {
        Seq::empty()
    } else if c >= COLS as int {
        placed_from(g, r + 1, 0)
    } else {
        match cell(g, r, c) {
            Some(p) => seq![placed_instance(r, c, p)] + placed_from(g, r, c + 1),
            None => placed_from(g, r, c + 1),
        }
    }
}

/// The tiles to draw for a board: the preview tile over the hovered column, if
/// any, then one tile per occupied cell in row-major order.
pub open spec fn instances_of(s: BoardState) -> Seq<TileInstance> {
    let hover = match s.preview {
        Some(c) => seq![preview_instance(c as int)],
        None => Seq::empty(),
    };
    hover + placed_from(s.grid, 0, 0)
}

impl Board {
    /// The tiles to draw this frame, in drawing order; at most
    /// `INSTANCE_CAPACITY` of them.
    pub fn prepare(&self) -> (v: Vec<TileInstance>)
        requires
            self.wf(),
        ensures
            v@ == instances_of(self@),
            v.len() <= INSTANCE_CAPACITY,
    {
        let ghost s = self@;
        let mut v: Vec<TileInstance> = Vec::new();
        match self.preview() {
            Some(c) => {
                v.push(TileInstance { x_halves: 2 * c as i32 - COLS as i32 + 1, y_halves: ROWS as i32 + 2, kind: TileKind::Preview });
            },
            None => {},
        }
        let mut r: usize = 0;
        while r < ROWS
            invariant
                self@ == s,
                s.wf(),
                r <= ROWS,
                v.len() <= 1 + (r as int) * COLS as int,
                v@ + placed_from(s.grid, r as int, 0) == instances_of(s),
            decreases ROWS - r,
        {
            let mut c: usize = 0;
            while c < COLS
                invariant
                    self@ == s,
                    s.wf(),
                    r < ROWS,
                    c <= COLS,
                    v.len() <= 1 + (r as int) * COLS as int + c as int,
                    v@ + placed_from(s.grid, r as int, c as int) == instances_of(s),
                decreases COLS - c,
            {
                match self.tile(r, c) {
                    Some(p) => {
                        let t = TileInstance {
                            x_halves: 2 * c as i32 - COLS as i32 + 1,
                            y_halves: ROWS as i32 - 1 - 2 * r as i32,
                            kind: TileKind::Placed(p),
                        };
                        assert(t == placed_instance(r as int, c as int, p));
                        assert(v@.push(t) + placed_from(s.grid, r as int, c as int + 1)
                            =~= v@ + placed_from(s.grid, r as int, c as int));
                        v.push(t);
                    },
                    None => {},
                }
                c += 1;
            }
            r += 1;
        }
        assert(v@ + placed_from(s.grid, ROWS as int, 0) =~= v@);
        v
    }
}

} // verus!
