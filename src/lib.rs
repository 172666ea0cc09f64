//! Game logic of a three-dimensional Connect Four: the board state machine,
//! the per-frame list of tiles to draw, the pointer-to-column resolution and
//! the memo that holds the camera's matrices.

pub mod board;
pub mod hit;
pub mod instances;
pub mod memo;

pub use board::{scan_for_win, Board, BoardState, Player, CELLS, COLS, ROWS};
pub use hit::{column_from_ray, WorldPoint, SUBUNITS};
pub use instances::{TileInstance, TileKind, INSTANCE_CAPACITY};
pub use memo::{Memo, MemoState};
