use vstd::prelude::*;

verus! {

/// Number of rows of the grid; row 0 is the top row.
pub const ROWS: usize = 6;

/// Number of columns of the grid.
pub const COLS: usize = 7;

/// Number of cells of the grid.
pub const CELLS: usize = ROWS * COLS;

/// One of the two players, named by the colour of their tiles. Red moves first.
#[derive(Clone, Copy, Debug, PartialEq, Eq, Structural)]
pub enum Player {
    Red,
    Yellow,
}

impl Player {
    /// The other player.
    pub open spec fn opponent_spec(self) -> Player {
        match self {
            Player::Red => Player::Yellow,
            Player::Yellow => Player::Red,
        }
    }

    /// The other player.
    pub fn opponent(self) -> (r: Player)
        ensures
            r == self.opponent_spec(),
    {
        match self {
            Player::Red => Player::Yellow,
            Player::Yellow => Player::Red,
        }
    }
}

/// The content of the cell at row `r` and column `c` of a row-major grid.
pub open spec fn cell(g: Seq<Option<Player>>, r: int, c: int) -> Option<Player> {
    g[r * COLS as int + c]
}

/// Row `r` and column `c` name a cell of the grid.
pub open spec fn in_grid(r: int, c: int) -> bool {
    0 <= r < ROWS as int && 0 <= c < COLS as int
}

/// Every occupied cell rests on occupied cells down to the bottom row: the
/// tiles of each column form one block anchored at the bottom.
pub open spec fn gravity(g: Seq<Option<Player>>) -> bool {
    forall|r1: int, r2: int, c: int|
        #![trigger cell(g, r1, c), cell(g, r2, c)]
        0 <= r1 < r2 < ROWS as int && 0 <= c < COLS as int && cell(g, r1, c).is_some()
            ==> cell(g, r2, c).is_some()
}

/// The owner of the run of four cells that starts at row `r`, column `c` and
/// steps by `dr` rows and `dc` columns, if one player holds all four.
pub open spec fn run_owner(g: Seq<Option<Player>>, r: int, c: int, dr: int, dc: int) -> Option<Player> {
    match cell(g, r, c) {
        Some(p) => if cell(g, r + dr, c + dc) == Some(p) && cell(g, r + 2 * dr, c + 2 * dc) == Some(p)
            && cell(g, r + 3 * dr, c + 3 * dc) == Some(p) {
            Some(p)
        } else {
            None
        },
        None => None,
    }
}

/// Horizontal runs, row by row from the top, each row left to right,
/// resuming at row `r`, column `c`; then the vertical runs.
pub open spec fn scan_rows(g: Seq<Option<Player>>, r: int, c: int) -> Option<Player>
    decreases ROWS as int - r, COLS as int - c,
{
    if r < 0 || c < 0 || r >= ROWS as int {
        scan_columns(g, 0, 0)
    } else if c > COLS as int - 4 {
        scan_rows(g, r + 1, 0)
    } else if run_owner(g, r, c, 0, 1).is_some() {
        run_owner(g, r, c, 0, 1)
    } else {
        scan_rows(g, r, c + 1)
    }
}

/// Vertical runs, column by column from the left, each column top to
/// bottom, resuming at column `c`, row `r`; then the falling diagonals.
pub open spec fn scan_columns(g: Seq<Option<Player>>, c: int, r: int) -> Option<Player>
    decreases COLS as int - c, ROWS as int - r,
{
    if r < 0 || c < 0 || c >= COLS as int {
        scan_falling(g, 0, 0)
    } else if r > ROWS as int - 4 {
        scan_columns(g, c + 1, 0)
    } else if run_owner(g, r, c, 1, 0).is_some() {
        run_owner(g, r, c, 1, 0)
    } else {
        scan_columns(g, c, r + 1)
    }
}

/// Diagonal runs going down and right, by starting column from the left,
/// then starting row from the top; then the rising diagonals.
pub open spec fn scan_falling(g: Seq<Option<Player>>, c: int, r: int) -> Option<Player>
    decreases COLS as int - c, ROWS as int - r,
{
    if r < 0 || c < 0 || c > COLS as int - 4 {
        scan_rising(g, 0, 3)
    } else if r > ROWS as int - 4 {
        scan_falling(g, c + 1, 0)
    } else if run_owner(g, r, c, 1, 1).is_some() {
        run_owner(g, r, c, 1, 1)
    } else {
        scan_falling(g, c, r + 1)
    }
}

/// Diagonal runs going up and right, by starting column from the left, then
/// starting row from row 3 down to the bottom; nothing after them.
pub open spec fn scan_rising(g: Seq<Option<Player>>, c: int, r: int) -> Option<Player>
    decreases COLS as int - c, ROWS as int - r,
{
    if r < 3 || c < 0 || c > COLS as int - 4 {
        None
    } else if r >= ROWS as int {
        scan_rising(g, c + 1, 3)
    } else if run_owner(g, r, c, -1, 1).is_some() {
        run_owner(g, r, c, -1, 1)
    } else {
        scan_rising(g, c, r + 1)
    }
}

/// The owner of the first run of four met in the fixed scan order:
/// horizontal, vertical, falling diagonal, rising diagonal.
pub open spec fn first_win(g: Seq<Option<Player>>) -> Option<Player> {
    scan_rows(g, 0, 0)
}

/// The lowest empty cell of column `c` at or above row `r`, found by
/// scanning upward from row `r`; -1 where there is none.
pub open spec fn lowest_empty(g: Seq<Option<Player>>, c: int, r: int) -> int
    decreases r + 1,
{
    if r < 0 {
        -1
    } else if cell(g, r, c).is_none() {
        r
    } else {
        lowest_empty(g, c, r - 1)
    }
}

/// What the game consists of at one moment.
pub struct BoardState {
    /// The cells, row by row from the top, left to right within a row.
    pub grid: Seq<Option<Player>>,
    /// The player whose tile the next accepted drop places.
    pub current: Player,
    /// The column over which the pointer hovers, if any.
    pub preview: Option<u8>,
    /// The winner, once there is one.
    pub win: Option<Player>,
}

/// A board of six rows and seven columns, with the player to move, the
/// hovered column and the winner once the game is decided.
pub struct Board {
    tiles: Vec<Option<Player>>,
    current_player: Player,
    preview: Option<u8>,
    win: Option<Player>,
}

impl View for Board {
    type V = BoardState;

    closed spec fn view(&self) -> BoardState {
        BoardState {
            grid: self.tiles@,
            current: self.current_player,
            preview: self.preview,
            win: self.win,
        }
    }
}

impl BoardState {
    /// The state a game starts in: an empty grid, red to move, no preview.
    pub open spec fn initial() -> BoardState {
        BoardState {
            grid: Seq::new(CELLS as nat, |i: int| None),
            current: Player::Red,
            preview: None,
            win: None,
        }
    }

    /// A drop into `col` is accepted: the game is undecided, the column
    /// exists and its top cell is free.
    pub open spec fn accepts(self, col: int) -> bool {
        &&& self.win.is_none()
        &&& 0 <= col < COLS as int
        &&& cell(self.grid, 0, col).is_none()
    }

    /// The row where a tile dropped into `col` comes to rest.
    pub open spec fn landing_row(self, col: int) -> int {
        lowest_empty(self.grid, col, ROWS as int - 1)
    }

    /// The state after a drop into `col`: when accepted, the current player's
    /// tile fills the lowest empty cell of the column, then either that
    /// player has won or the turn passes; otherwise nothing changes.
    pub open spec fn after_drop(self, col: int) -> BoardState {
        if self.accepts(col) {
            let grid = self.grid.update(self.landing_row(col) * COLS as int + col, Some(self.current));
            let win = first_win(grid);
            BoardState {
                grid,
                current: if win.is_some() {
                    self.current
                } else {
                    self.current.opponent_spec()
                },
                preview: self.preview,
                win,
            }
        } else {
            self
        }
    }

    /// The grid has one entry per cell, its tiles obey gravity, and the
    /// recorded winner is the one a scan of the grid finds: none before a
    /// run of four exists, and from then on that run's owner for good.
    pub open spec fn wf(self) -> bool {
        &&& self.grid.len() == CELLS
        &&& gravity(self.grid)
        &&& self.win == first_win(self.grid)
    }
}

proof fn lemma_empty_has_no_win(g: Seq<Option<Player>>)
    requires
        g.len() == CELLS,
        forall|i: int| 0 <= i < g.len() ==> g[i].is_none(),
    ensures
        first_win(g).is_none(),
{
    reveal_with_fuel(scan_rows, 60);
    reveal_with_fuel(scan_columns, 60);
    reveal_with_fuel(scan_falling, 60);
    reveal_with_fuel(scan_rising, 60);
}

proof fn lemma_cell_index(r1: int, c1: int, r2: int, c2: int)
    requires
        in_grid(r1, c1),
        in_grid(r2, c2),
    ensures
        (r1 * COLS as int + c1 == r2 * COLS as int + c2) <==> (r1 == r2 && c1 == c2),
        0 <= r1 * COLS as int + c1 < CELLS,
{
}

proof fn lemma_lowest_empty(g: Seq<Option<Player>>, c: int, r: int)
    requires
        g.len() == CELLS,
        0 <= c < COLS as int,
        0 <= r < ROWS as int,
        cell(g, 0, c).is_none(),
    ensures
        0 <= lowest_empty(g, c, r) <= r,
        cell(g, lowest_empty(g, c, r), c).is_none(),
        forall|r2: int| lowest_empty(g, c, r) < r2 <= r ==> #[trigger] cell(g, r2, c).is_some(),
    decreases r,
{
    if r > 0 && cell(g, r, c).is_some() {
        lemma_lowest_empty(g, c, r - 1);
    }
}

proof fn lemma_drop_keeps_gravity(s: BoardState, col: int)
    requires
        s.wf(),
        s.accepts(col),
    ensures
        s.after_drop(col).grid.len() == CELLS,
        gravity(s.after_drop(col).grid),
{
    let l = s.landing_row(col);
    lemma_lowest_empty(s.grid, col, ROWS as int - 1);
    let g2 = s.after_drop(col).grid;
    assert forall|r1: int, r2: int, c: int|
        0 <= r1 < r2 < ROWS as int && 0 <= c < COLS as int && cell(g2, r1, c).is_some()
            implies cell(g2, r2, c).is_some() by {
        lemma_cell_index(r1, c, l, col);
        lemma_cell_index(r2, c, l, col);
        if c == col && r1 == l {
            assert(cell(s.grid, r2, c).is_some());
        } else {
            assert(cell(s.grid, r1, c).is_some());
            assert(cell(s.grid, r2, c).is_some());
        }
    }
}

/// The state after dropping into each column of `cols` in turn.
pub open spec fn after_drops(s: BoardState, cols: Seq<u8>) -> BoardState
    decreases cols.len(),
{
    if cols.len() == 0 {
        s
    } else {
        after_drops(s.after_drop(cols[0] as int), cols.drop_first())
    }
}

/// A drop, accepted or not, keeps a well-formed board well-formed: in
/// particular each column's tiles stay one block resting on the bottom row.
pub proof fn lemma_drop_keeps_wf(s: BoardState, col: int)
    requires
        s.wf(),
    ensures
        s.after_drop(col).wf(),
{
    if s.accepts(col) {
        lemma_drop_keeps_gravity(s, col);
    }
}

/// The initial board is well-formed.
pub proof fn lemma_initial_wf()
    ensures
        BoardState::initial().wf(),
{
    lemma_empty_has_no_win(BoardState::initial().grid);
}

/// Gravity: after any sequence of drops from a well-formed board, in every
/// column the occupied cells form one block anchored at the bottom row.
pub proof fn lemma_gravity_after_drops(s: BoardState, cols: Seq<u8>)
    requires
        s.wf(),
    ensures
        after_drops(s, cols).wf(),
        gravity(after_drops(s, cols).grid),
    decreases cols.len(),
{
    if cols.len() > 0 {
        lemma_drop_keeps_wf(s, cols[0] as int);
        lemma_gravity_after_drops(s.after_drop(cols[0] as int), cols.drop_first());
    }
}

/// Gravity holds after every sequence of drops from the start of a game.
pub proof fn lemma_gravity_from_start(cols: Seq<u8>)
    ensures
        gravity(after_drops(BoardState::initial(), cols).grid),
{
    lemma_initial_wf();
    lemma_gravity_after_drops(BoardState::initial(), cols);
}

/// Turn alternation: the current player changes exactly when the drop is
/// accepted and does not win the game.
pub proof fn lemma_turn_alternation(s: BoardState, col: int)
    requires
        s.wf(),
    ensures
        (s.after_drop(col).current != s.current) <==> (s.accepts(col) && s.after_drop(col).win.is_none()),
{
}

/// A drop into a column whose every cell is taken leaves the grid and the
/// current player as they were.
pub proof fn lemma_full_column_rejected(s: BoardState, col: int)
    requires
        s.wf(),
        0 <= col < COLS as int,
        forall|r: int| 0 <= r < ROWS as int ==> #[trigger] cell(s.grid, r, col).is_some(),
    ensures
        !s.accepts(col),
        s.after_drop(col).grid == s.grid,
        s.after_drop(col).current == s.current,
{
    assert(cell(s.grid, 0, col).is_some());
}

/// Once a player has won, no sequence of drops changes anything.
pub proof fn lemma_won_game_frozen(s: BoardState, cols: Seq<u8>)
    requires
        s.win.is_some(),
    ensures
        after_drops(s, cols) == s,
    decreases cols.len(),
{
    if cols.len() > 0 {
        lemma_won_game_frozen(s.after_drop(cols[0] as int), cols.drop_first());
    }
}

fn cell_at(tiles: &Vec<Option<Player>>, r: isize, c: isize) -> (o: Option<Player>)
    requires
        tiles@.len() == CELLS,
        in_grid(r as int, c as int),
    ensures
        o == cell(tiles@, r as int, c as int),
{
    proof {
        lemma_cell_index(r as int, c as int, r as int, c as int);
    }
    tiles[(r * COLS as isize + c) as usize]
}

fn run_owner_at(tiles: &Vec<Option<Player>>, r: isize, c: isize, dr: isize, dc: isize) -> (o: Option<Player>)
    requires
        tiles@.len() == CELLS,
        -1 <= dr <= 1,
        -1 <= dc <= 1,
        in_grid(r as int, c as int),
        in_grid(r + 3 * dr, c + 3 * dc),
    ensures
        o == run_owner(tiles@, r as int, c as int, dr as int, dc as int),
{
    match cell_at(tiles, r, c) {
        Some(p) => {
            if cell_at(tiles, r + dr, c + dc) == Some(p) && cell_at(tiles, r + 2 * dr, c + 2 * dc) == Some(p)
                && cell_at(tiles, r + 3 * dr, c + 3 * dc) == Some(p) {
                Some(p)
            } else {
                None
            }
        },
        None => None,
    }
}

/// The owner of the first run of four in `tiles`, a grid in row-major
/// order, met in the scan order of `first_win`.
pub fn scan_for_win(tiles: &Vec<Option<Player>>) -> (o: Option<Player>)
    requires
        tiles@.len() == CELLS,
    ensures
        o == first_win(tiles@),
{
    let g = Ghost(tiles@);
    let mut r: isize = 0;
    while r < ROWS as isize
        invariant
            tiles@.len() == CELLS,
            g@ == tiles@,
            0 <= r <= ROWS,
            scan_rows(g@, r as int, 0) == first_win(g@),
        decreases ROWS - r,
    {
        let mut c: isize = 0;
        while c <= COLS as isize - 4
            invariant
                tiles@.len() == CELLS,
                g@ == tiles@,
                0 <= r < ROWS,
                0 <= c <= COLS - 3,
                scan_rows(g@, r as int, c as int) == first_win(g@),
            decreases COLS - c,
        {
            let o = run_owner_at(tiles, r, c, 0, 1);
            if o.is_some() {
                return o;
            }
            c += 1;
        }
        r += 1;
    }
    let mut c: isize = 0;
    while c < COLS as isize
        invariant
            tiles@.len() == CELLS,
            g@ == tiles@,
            0 <= c <= COLS,
            scan_columns(g@, c as int, 0) == first_win(g@),
        decreases COLS - c,
    {
        let mut r: isize = 0;
        while r <= ROWS as isize - 4
            invariant
                tiles@.len() == CELLS,
                g@ == tiles@,
                0 <= c < COLS,
                0 <= r <= ROWS - 3,
                scan_columns(g@, c as int, r as int) == first_win(g@),
            decreases ROWS - r,
        {
            let o = run_owner_at(tiles, r, c, 1, 0);
            if o.is_some() {
                return o;
            }
            r += 1;
        }
        c += 1;
    }
    let mut c: isize = 0;
    while c <= COLS as isize - 4
        invariant
            tiles@.len() == CELLS,
            g@ == tiles@,
            0 <= c <= COLS - 3,
            scan_falling(g@, c as int, 0) == first_win(g@),
        decreases COLS - c,
    {
        let mut r: isize = 0;
        while r <= ROWS as isize - 4
            invariant
                tiles@.len() == CELLS,
                g@ == tiles@,
                0 <= c <= COLS - 4,
                0 <= r <= ROWS - 3,
                scan_falling(g@, c as int, r as int) == first_win(g@),
            decreases ROWS - r,
        {
            let o = run_owner_at(tiles, r, c, 1, 1);
            if o.is_some() {
                return o;
            }
            r += 1;
        }
        c += 1;
    }
    let mut c: isize = 0;
    while c <= COLS as isize - 4
        invariant
            tiles@.len() == CELLS,
            g@ == tiles@,
            0 <= c <= COLS - 3,
            scan_rising(g@, c as int, 3) == first_win(g@),
        decreases COLS - c,
    {
        let mut r: isize = 3;
        while r < ROWS as isize
            invariant
                tiles@.len() == CELLS,
                g@ == tiles@,
                0 <= c <= COLS - 4,
                3 <= r <= ROWS,
                scan_rising(g@, c as int, r as int) == first_win(g@),
            decreases ROWS - r,
        {
            let o = run_owner_at(tiles, r, c, -1, 1);
            if o.is_some() {
                return o;
            }
            r += 1;
        }
        c += 1;
    }
    None
}

impl Board {
    /// The board's state is well-formed.
    pub open spec fn wf(&self) -> bool {
        self@.wf()
    }

    /// An empty board with red to move.
    pub fn new() -> (b: Board)
        ensures
            b@ == BoardState::initial(),
            b.wf(),
    {
        let mut tiles: Vec<Option<Player>> = Vec::new();
        while tiles.len() < CELLS
            invariant
                tiles.len() <= CELLS,
                forall|i: int| 0 <= i < tiles.len() ==> tiles@[i].is_none(),
            decreases CELLS - tiles.len(),
        {
            tiles.push(None);
        }
        let b = Board { tiles, current_player: Player::Red, preview: None, win: None };
        assert(b@.grid =~= BoardState::initial().grid);
        proof {
            lemma_empty_has_no_win(b@.grid);
        }
        b
    }

    /// Drops the current player's tile into `column`. The drop is ignored,
    /// and `false` returned, once the game is won, for a column outside the
    /// board or for a full column. Otherwise the tile fills the lowest empty
    /// cell of the column; if that makes a run of four, its owner wins and
    /// stays the current player, else the turn passes.
    pub fn drop_tile(&mut self, column: u8) -> (accepted: bool)
        requires
            old(self).wf(),
        ensures
            final(self).wf(),
            accepted == old(self)@.accepts(column as int),
            final(self)@ == old(self)@.after_drop(column as int),
    {
        let c = column as usize;
        if self.win.is_some() || c >= COLS || self.tiles[c].is_some() {
            return false;
        }
        let ghost s = self@;
        proof {
            lemma_lowest_empty(s.grid, c as int, ROWS as int - 1);
        }
        let mut r: usize = ROWS - 1;
        while self.tiles[r * COLS + c].is_some()
            invariant
                self@ == s,
                s.wf(),
                s.accepts(c as int),
                0 <= r < ROWS,
                lowest_empty(s.grid, c as int, r as int) == s.landing_row(c as int),
            decreases r,
        {
            r -= 1;
        }
        proof {
            lemma_drop_keeps_gravity(s, c as int);
        }
        self.tiles.set(r * COLS + c, Some(self.current_player));
        let w = scan_for_win(&self.tiles);
        if w.is_some() {
            self.win = w;
        } else {
            self.current_player = self.current_player.opponent();
        }
        assert(self@.grid =~= s.after_drop(c as int).grid);
        true
    }

    /// Records the hovered column; `None` clears it. The preview is kept
    /// after the game is won, so the ghost tile still follows the pointer.
    pub fn set_preview(&mut self, column: Option<u8>)
        requires
            old(self).wf(),
        ensures
            final(self).wf(),
            final(self)@ == (BoardState { preview: column, ..old(self)@ }),
    {
        self.preview = column;
    }

    /// The player whose tile the next accepted drop places.
    pub fn current_player(&self) -> (p: Player)
        ensures
            p == self@.current,
    {
        self.current_player
    }

    /// The winner, once the game is decided.
    pub fn winner(&self) -> (w: Option<Player>)
        ensures
            w == self@.win,
    {
        self.win
    }

    /// The hovered column, if any.
    pub fn preview(&self) -> (c: Option<u8>)
        ensures
            c == self@.preview,
    {
        self.preview
    }

    /// The content of the cell at `row` (0 is the top) and `col`.
    pub fn tile(&self, row: usize, col: usize) -> (o: Option<Player>)
        requires
            self.wf(),
            row < ROWS,
            col < COLS,
        ensures
            o == cell(self@.grid, row as int, col as int),
    {
        self.tiles[row * COLS + col]
    }

    /// The owner of the first run of four in the scan order of `first_win`.
    pub fn find_win(&self) -> (o: Option<Player>)
        requires
            self.wf(),
        ensures
            o == first_win(self@.grid),
    {
        scan_for_win(&self.tiles)
    }
}

} // verus!
