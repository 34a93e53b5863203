use crate::piece::{
    covers, filled, matrix_view, states_view, ControlledTetromino, GRID_HEIGHT, GRID_WIDTH,
};
use vstd::prelude::*;

verus! {

/// A row with no occupied cell.
pub open spec fn empty_row() -> Seq<bool> {
    Seq::new(GRID_WIDTH as nat, |x: int| false)
}

/// A board with no occupied cell.
pub open spec fn empty_board() -> Seq<Seq<bool>> {
    Seq::new(GRID_HEIGHT as nat, |y: int| empty_row())
}

/// A board has `GRID_HEIGHT` rows of `GRID_WIDTH` cells.
pub open spec fn board_ok(b: Seq<Seq<bool>>) -> bool {
    b.len() == GRID_HEIGHT && forall|y: int| 0 <= y < b.len() ==> #[trigger] b[y].len() == GRID_WIDTH
}

/// `(x, y)` lies on the board.
pub open spec fn on_board(x: int, y: int) -> bool {
    0 <= x < GRID_WIDTH && 0 <= y < GRID_HEIGHT
}

/// `(x, y)` lies on the board and is occupied. Cells off the board are never occupied.
pub open spec fn occupied(b: Seq<Seq<bool>>, x: int, y: int) -> bool {
    on_board(x, y) && b[y][x]
}

/// `(x, y)` lies on the board and is not occupied.
pub open spec fn cell_free(b: Seq<Seq<bool>>, x: int, y: int) -> bool {
    on_board(x, y) && !b[y][x]
}

/// The board with every cell covered by matrix `m` at anchor `(ax, ay)` set
/// to `val`; covered cells off the board are dropped.
pub open spec fn stamped(b: Seq<Seq<bool>>, m: Seq<Seq<bool>>, ax: int, ay: int, val: bool) -> Seq<
    Seq<bool>,
> {
    Seq::new(
        GRID_HEIGHT as nat,
        |y: int| Seq::new(GRID_WIDTH as nat, |x: int| if covers(m, ax, ay, x, y) { val } else { b[y][x] }),
    )
}

/// Every filled cell of `m` at anchor `(ax, ay)` lands on a free board cell.
pub open spec fn space_open(b: Seq<Seq<bool>>, m: Seq<Seq<bool>>, ax: int, ay: int) -> bool {
    forall|r: int, c: int| #[trigger] filled(m, r, c) ==> cell_free(b, ax + c, ay + r)
}

/// Every filled cell of `m` at anchor `(ax, ay)` lies on the board.
pub open spec fn fits(m: Seq<Seq<bool>>, ax: int, ay: int) -> bool {
    forall|r: int, c: int| #[trigger] filled(m, r, c) ==> on_board(ax + c, ay + r)
}

/// Cell `(r, c)` comes before cell `(r0, c0)` in row-major order.
pub open spec fn before(r: int, c: int, r0: int, c0: int) -> bool {
    r < r0 || (r == r0 && c < c0)
}

/// `i` is the leftmost filled column of `row`.
pub open spec fn first_filled(row: Seq<bool>, i: int) -> bool {
    0 <= i < row.len() && row[i] && forall|j: int| 0 <= j < i ==> !row[j]
}

/// `i` is the rightmost filled column of `row`.
pub open spec fn last_filled(row: Seq<bool>, i: int) -> bool {
    0 <= i < row.len() && row[i] && forall|j: int| i < j < row.len() ==> !row[j]
}

/// Local column of the leftmost filled cell of `row`; `0` when none is filled.
pub open spec fn left_offset(row: Seq<bool>) -> int {
    if exists|i: int| first_filled(row, i) {
        choose|i: int| first_filled(row, i)
    } else {
        0
    }
}

/// Local column of the rightmost filled cell of `row`; its last column when
/// none is filled.
pub open spec fn right_offset(row: Seq<bool>) -> int {
    if exists|i: int| last_filled(row, i) {
        choose|i: int| last_filled(row, i)
    } else {
        row.len() - 1
    }
}

/// Row `row` of a piece, at anchor column `ax` and board row `y`, cannot move
/// left: its leftmost cell is on column 0, or the cell to its left is occupied.
pub open spec fn row_blocked_left(b: Seq<Seq<bool>>, row: Seq<bool>, ax: int, y: int) -> bool {
    ax + left_offset(row) == 0 || occupied(b, ax + left_offset(row) - 1, y)
}

/// Row `row` of a piece cannot move right: its rightmost cell is on the last
/// column, or the cell to its right is occupied.
pub open spec fn row_blocked_right(b: Seq<Seq<bool>>, row: Seq<bool>, ax: int, y: int) -> bool {
    ax + right_offset(row) == GRID_WIDTH - 1 || occupied(b, ax + right_offset(row) + 1, y)
}

/// Some row of matrix `m` at anchor `(ax, ay)` is blocked on the left.
pub open spec fn blocked_left(b: Seq<Seq<bool>>, m: Seq<Seq<bool>>, ax: int, ay: int) -> bool {
    exists|r: int| 0 <= r < m.len() && #[trigger] row_blocked_left(b, m[r], ax, ay + r)
}

/// Some row of matrix `m` at anchor `(ax, ay)` is blocked on the right.
pub open spec fn blocked_right(b: Seq<Seq<bool>>, m: Seq<Seq<bool>>, ax: int, ay: int) -> bool {
    exists|r: int| 0 <= r < m.len() && #[trigger] row_blocked_right(b, m[r], ax, ay + r)
}

/// `(r, c)` is the lowest filled cell of column `c` of `m`.
pub open spec fn lowest_in_column(m: Seq<Seq<bool>>, r: int, c: int) -> bool {
    filled(m, r, c) && forall|r2: int| r < r2 < m.len() ==> !#[trigger] filled(m, r2, c)
}

/// Matrix `m` at anchor `(ax, ay)` rests: the lowest filled cell of some
/// column is on the last row, or the cell below it is occupied.
pub open spec fn at_bottom(b: Seq<Seq<bool>>, m: Seq<Seq<bool>>, ax: int, ay: int) -> bool {
    exists|r: int, c: int|
        #[trigger] lowest_in_column(m, r, c) && (ay + r == GRID_HEIGHT - 1 || occupied(
            b,
            ax + c,
            ay + r + 1,
        ))
}

/// The anchor row where matrix `m`, dropped from anchor `(ax, ay)`, comes to
/// rest: the first row `d >= ay` at which it rests.
pub open spec fn is_drop_row(b: Seq<Seq<bool>>, m: Seq<Seq<bool>>, ax: int, ay: int, d: int) -> bool {
    &&& ay <= d
    &&& at_bottom(b, m, ax, d)
    &&& forall|k: int| ay <= k < d ==> !#[trigger] at_bottom(b, m, ax, k)
}

/// Matrix `m` has a filled cell.
pub open spec fn has_filled(m: Seq<Seq<bool>>) -> bool {
    exists|r: int, c: int| #[trigger] filled(m, r, c)
}

/// Row-major rank of a board cell.
pub open spec fn rank(p: (usize, usize)) -> int {
    p.1 * GRID_WIDTH + p.0
}

/// Leftmost filled column of `row`, or `0` when none is filled.
fn find_left_offset(row: &Vec<bool>) -> (r: usize)
    ensures
        r == left_offset(row@),
{
    let mut i: usize = 0;
    while i < row.len()
        invariant
            0 <= i <= row@.len(),
            forall|j: int| 0 <= j < i ==> !row@[j],
        decreases row@.len() - i,
    {
        if row[i] {
            assert(first_filled(row@, i as int));
            proof {
                let k = choose|k: int| first_filled(row@, k);
                assert(k == i) by {
                    if k < i {
                    } else if k > i {
                    }
                }
            }
            return i;
        }
        i = i + 1;
    }
    assert(!exists|k: int| first_filled(row@, k));
    0
}

/// Rightmost filled column of `row`, or its last column when none is filled.
fn find_right_offset(row: &Vec<bool>) -> (r: usize)
    requires
        row@.len() > 0,
    ensures
        r == right_offset(row@),
        r < row@.len(),
{
    let mut i: usize = row.len();
    while i > 0
        invariant
            0 <= i <= row@.len(),
            forall|j: int| i <= j < row@.len() ==> !row@[j],
        decreases i,
    {
        if row[i - 1] {
            assert(last_filled(row@, i - 1));
            proof {
                let k = choose|k: int| last_filled(row@, k);
                assert(k == i - 1) by {
                    if k < i - 1 {
                    } else if k > i - 1 {
                    }
                }
            }
            return i - 1;
        }
        i = i - 1;
    }
    assert(!exists|k: int| last_filled(row@, k));
    row.len() - 1
}

/// Whether the filled cell `(r, c)` of `m` is the lowest filled cell of its column.
fn is_lowest(m: &Vec<Vec<bool>>, r: usize, c: usize) -> (low: bool)
    requires
        r < m@.len(),
        filled(matrix_view(*m), r as int, c as int),
    ensures
        low == lowest_in_column(matrix_view(*m), r as int, c as int),
{
    let ghost mv = matrix_view(*m);
    let n = m.len();
    let mut r2: usize = r + 1;
    while r2 < m.len()
        invariant
            mv == matrix_view(*m),
            r < r2 <= mv.len(),
            filled(mv, r as int, c as int),
            forall|k: int| r < k < r2 ==> !#[trigger] filled(mv, k, c as int),
        decreases mv.len() - r2,
    {
        if c < m[r2].len() && m[r2][c] {
            assert(filled(mv, r2 as int, c as int));
            return false;
        }
        r2 = r2 + 1;
    }
    true
}

/// Every cell of `row` is occupied.
pub open spec fn row_full(row: Seq<bool>) -> bool {
    forall|x: int| 0 <= x < row.len() ==> row[x]
}

/// The test that keeps a row when full rows are cleared.
pub open spec fn not_full() -> spec_fn(Seq<bool>) -> bool {
    |row: Seq<bool>| !row_full(row)
}

/// The rows of `b` that are not full, top to bottom.
pub open spec fn kept_rows(b: Seq<Seq<bool>>) -> Seq<Seq<bool>> {
    b.filter(not_full())
}

/// Number of full rows of `b`.
pub open spec fn full_row_count(b: Seq<Seq<bool>>) -> int {
    b.len() - kept_rows(b).len()
}

/// `b` with its full rows removed, the other rows moved down in their order,
/// and empty rows filling the top.
pub open spec fn compacted(b: Seq<Seq<bool>>) -> Seq<Seq<bool>> {
    Seq::new(full_row_count(b) as nat, |i: int| empty_row()) + kept_rows(b)
}

/// A fresh row with no occupied cell.
fn new_empty_row() -> (row: Vec<bool>)
    ensures
        row@ == empty_row(),
{
    let mut row: Vec<bool> = Vec::new();
    let mut x: usize = 0;
    while x < GRID_WIDTH
        invariant
            x <= GRID_WIDTH,
            row@ == Seq::new(x as nat, |i: int| false),
        decreases GRID_WIDTH - x,
    {
        row.push(false);
        x = x + 1;
        assert(row@ =~= Seq::new(x as nat, |i: int| false));
    }
    assert(row@ =~= empty_row());
    row
}

/// A copy of `row`.
fn copy_row(row: &Vec<bool>) -> (r: Vec<bool>)
    ensures
        r@ == row@,
{
    let mut r: Vec<bool> = Vec::new();
    let mut x: usize = 0;
    while x < row.len()
        invariant
            x <= row@.len(),
            r@ == row@.take(x as int),
        decreases row@.len() - x,
    {
        r.push(row[x]);
        x = x + 1;
        assert(r@ =~= row@.take(x as int));
    }
    assert(r@ =~= row@);
    r
}

/// Whether every cell of `row` is occupied.
fn is_row_full(row: &Vec<bool>) -> (full: bool)
    ensures
        full == row_full(row@),
{
    let mut x: usize = 0;
    while x < row.len()
        invariant
            x <= row@.len(),
            forall|i: int| 0 <= i < x ==> row@[i],
        decreases row@.len() - x,
    {
        if !row[x] {
            return false;
        }
        x = x + 1;
    }
    true
}

/// The lowest filled cell of the column of a filled cell `(r, c)`.
proof fn lemma_lowest_below(m: Seq<Seq<bool>>, r: int, c: int) -> (low: int)
    requires
        filled(m, r, c),
    ensures
        r <= low,
        lowest_in_column(m, low, c),
    decreases m.len() - r,
{
    if lowest_in_column(m, r, c) {
        r
    } else {
        let r2 = choose|r2: int| r < r2 < m.len() && #[trigger] filled(m, r2, c);
        lemma_lowest_below(m, r2, c)
    }
}

/// A piece whose filled cells all lie on the board comes to rest by the last row.
proof fn lemma_rests_by_floor(b: Seq<Seq<bool>>, m: Seq<Seq<bool>>, ax: int, ay: int, r: int, c: int)
    requires
        lowest_in_column(m, r, c),
        ay + r == GRID_HEIGHT - 1,
    ensures
        at_bottom(b, m, ax, ay),
{
}

/// A footprint that lands on free cells lies on the board.
pub proof fn lemma_fits_of_open(b: Seq<Seq<bool>>, m: Seq<Seq<bool>>, ax: int, ay: int)
    requires
        space_open(b, m, ax, ay),
    ensures
        fits(m, ax, ay),
{
}

/// The occupancy grid of one board.
pub struct Grid {
    grid: Vec<Vec<bool>>,
}

impl View for Grid {
    type V = Seq<Seq<bool>>;

    closed spec fn view(&self) -> Seq<Seq<bool>> {
        matrix_view(self.grid)
    }
}

impl Grid {
    pub open spec fn wf(&self) -> bool {
        board_ok(self@)
    }

    /// An empty grid.
    pub fn new() -> (r: Grid)
        ensures
            r.wf(),
            r@ == empty_board(),
    {
        let mut rows: Vec<Vec<bool>> = Vec::new();
        let mut y: usize = 0;
        while y < GRID_HEIGHT
            invariant
                y <= GRID_HEIGHT,
                rows@.len() == y,
                forall|i: int| 0 <= i < y ==> #[trigger] rows@[i]@ == empty_row(),
            decreases GRID_HEIGHT - y,
        {
            rows.push(new_empty_row());
            y = y + 1;
        }
        let g = Grid { grid: rows };
        assert(g@ =~= empty_board());
        g
    }

    /// Number of rows.
    pub fn height(&self) -> (r: usize)
        requires
            self.wf(),
        ensures
            r == GRID_HEIGHT,
    {
        proof {
            assert(self.grid@.len() == self@.len());
        }
        self.grid.len()
    }

    /// Number of columns.
    pub fn width(&self) -> (r: usize)
        requires
            self.wf(),
        ensures
            r == GRID_WIDTH,
    {
        proof {
            assert(self@[0].len() == self.grid@[0]@.len());
        }
        self.grid[0].len()
    }

    /// Whether the cell `(x, y)` is occupied; cells off the board read as free.
    pub fn is_occupied(&self, x: usize, y: usize) -> (r: bool)
        requires
            self.wf(),
        ensures
            r == occupied(self@, x as int, y as int),
    {
        if x < GRID_WIDTH && y < GRID_HEIGHT {
            proof {
                assert(self@[y as int] == self.grid@[y as int]@);
            }
            self.grid[y][x]
        } else {
            false
        }
    }

    /// Writes one cell. A write off the board is dropped and changes nothing.
    pub fn set(&mut self, x: usize, y: usize, val: bool)
        requires
            old(self).wf(),
        ensures
            final(self).wf(),
            on_board(x as int, y as int) ==> final(self)@ == old(self)@.update(
                y as int,
                old(self)@[y as int].update(x as int, val),
            ),
            !on_board(x as int, y as int) ==> final(self)@ == old(self)@,
    {
        if x >= GRID_WIDTH || y >= GRID_HEIGHT {
            return;
        }
        proof {
            assert(self.grid@[y as int]@ == old(self)@[y as int]);
        }
        self.grid[y][x] = val;
        assert(self@ =~= old(self)@.update(y as int, old(self)@[y as int].update(x as int, val)));
    }

    /// Makes every cell free.
    pub fn clear(&mut self)
        ensures
            final(self).wf(),
            final(self)@ == empty_board(),
    {
        *self = Grid::new();
    }
    /// Writes `val` on every board cell covered by the piece's current matrix.
    /// Covered cells off the board are skipped.
    fn set_tetromino_values(&mut self, tetromino: &ControlledTetromino, val: bool)
        requires
            old(self).wf(),
            tetromino.wf(),
        ensures
            final(self).wf(),
            final(self)@ == stamped(
                old(self)@,
                tetromino.shape(),
                tetromino.top_left.0 as int,
                tetromino.top_left.1 as int,
                val,
            ),
    {
        let m = tetromino.current_structure();
        let ghost mv = tetromino.shape();
        let ghost b0 = self@;
        let ax = tetromino.top_left.0;
        let ay = tetromino.top_left.1;
        let mut r: usize = 0;
        while r < m.len()
            invariant
                mv == matrix_view(*m),
                mv == tetromino.shape(),
                ax == tetromino.top_left.0,
                ay == tetromino.top_left.1,
                self.wf(),
                0 <= r <= mv.len(),
                forall|x: int, y: int|
                    on_board(x, y) ==> #[trigger] self@[y][x] == (if filled(mv, y - ay, x - ax)
                        && before(y - ay, x - ax, r as int, 0) {
                        val
                    } else {
                        b0[y][x]
                    }),
            decreases mv.len() - r,
        {
            let row = &m[r];
            let mut c: usize = 0;
            while c < row.len()
                invariant
                    mv == matrix_view(*m),
                    mv == tetromino.shape(),
                    ax == tetromino.top_left.0,
                    ay == tetromino.top_left.1,
                ax == tetromino.top_left.0,
                ay == tetromino.top_left.1,
                mv == tetromino.shape(),
                ax == tetromino.top_left.0,
                ay == tetromino.top_left.1,
                    r < mv.len(),
                    row@ == mv[r as int],
                    self.wf(),
                    0 <= c <= row@.len(),
                    forall|x: int, y: int|
                        on_board(x, y) ==> #[trigger] self@[y][x] == (if filled(mv, y - ay, x - ax)
                            && before(y - ay, x - ax, r as int, c as int) {
                            val
                        } else {
                            b0[y][x]
                        }),
                decreases row@.len() - c,
            {
                if row[c] && ax < GRID_WIDTH && c < GRID_WIDTH - ax && ay < GRID_HEIGHT && r
                    < GRID_HEIGHT - ay {
                    self.set(ax + c, ay + r, val);
                }
                c = c + 1;
            }
            r = r + 1;
        }
        assert(self@ =~~= stamped(b0, mv, ax as int, ay as int, val));
    }

    /// Stamps the piece's footprint onto the grid.
    pub fn set_tetromino(&mut self, tetromino: &ControlledTetromino)
        requires
            old(self).wf(),
            tetromino.wf(),
        ensures
            final(self).wf(),
            final(self)@ == stamped(
                old(self)@,
                tetromino.shape(),
                tetromino.top_left.0 as int,
                tetromino.top_left.1 as int,
                true,
            ),
    {
        self.set_tetromino_values(tetromino, true);
    }

    /// Retracts the piece's footprint from the grid.
    pub fn unset_tetromino(&mut self, tetromino: &ControlledTetromino)
        requires
            old(self).wf(),
            tetromino.wf(),
        ensures
            final(self).wf(),
            final(self)@ == stamped(
                old(self)@,
                tetromino.shape(),
                tetromino.top_left.0 as int,
                tetromino.top_left.1 as int,
                false,
            ),
    {
        self.set_tetromino_values(tetromino, false);
    }

    /// Whether every filled cell of the piece lands on a free board cell.
    pub fn is_tetromino_space_open(&self, tetromino: &ControlledTetromino) -> (open: bool)
        requires
            self.wf(),
            tetromino.wf(),
        ensures
            open == space_open(
                self@,
                tetromino.shape(),
                tetromino.top_left.0 as int,
                tetromino.top_left.1 as int,
            ),
    {
        let m = tetromino.current_structure();
        let ghost mv = tetromino.shape();
        let ax = tetromino.top_left.0;
        let ay = tetromino.top_left.1;
        let mut r: usize = 0;
        while r < m.len()
            invariant
                mv == matrix_view(*m),
                mv == tetromino.shape(),
                ax == tetromino.top_left.0,
                ay == tetromino.top_left.1,
                self.wf(),
                0 <= r <= mv.len(),
                forall|i: int, j: int|
                    #[trigger] filled(mv, i, j) && i < r ==> cell_free(self@, ax + j, ay + i),
            decreases mv.len() - r,
        {
            let row = &m[r];
            let mut c: usize = 0;
            while c < row.len()
                invariant
                    mv == matrix_view(*m),
                    mv == tetromino.shape(),
                    ax == tetromino.top_left.0,
                    ay == tetromino.top_left.1,
                ax == tetromino.top_left.0,
                ay == tetromino.top_left.1,
                mv == tetromino.shape(),
                ax == tetromino.top_left.0,
                ay == tetromino.top_left.1,
                    r < mv.len(),
                    row@ == mv[r as int],
                    self.wf(),
                    0 <= c <= row@.len(),
                    forall|i: int, j: int|
                        #[trigger] filled(mv, i, j) && before(i, j, r as int, c as int) ==> cell_free(
                            self@,
                            ax + j,
                            ay + i,
                        ),
                decreases row@.len() - c,
            {
                if row[c] {
                    if ax >= GRID_WIDTH || c >= GRID_WIDTH - ax || ay >= GRID_HEIGHT || r
                        >= GRID_HEIGHT - ay {
                        assert(filled(mv, r as int, c as int));
                        assert(!cell_free(self@, ax + c, ay + r));
                        return false;
                    }
                    if self.is_occupied(ax + c, ay + r) {
                        assert(filled(mv, r as int, c as int));
                        assert(!cell_free(self@, ax + c, ay + r));
                        return false;
                    }
                }
                c = c + 1;
            }
            r = r + 1;
        }
        true
    }
    /// Whether the cell `(x + dx, y + dy)` is occupied, without overflowing.
    fn is_occupied_offset(&self, x: usize, dx: usize, y: usize, dy: usize) -> (r: bool)
        requires
            self.wf(),
        ensures
            r == occupied(self@, x + dx, y + dy),
    {
        if x < GRID_WIDTH && dx < GRID_WIDTH - x && y < GRID_HEIGHT && dy < GRID_HEIGHT - y {
            self.is_occupied(x + dx, y + dy)
        } else {
            false
        }
    }

    /// Whether some row of the piece cannot move one column left: the row's
    /// leftmost filled cell is on column 0 or has an occupied cell to its left.
    /// Rows are judged one by one.
    pub fn is_tetromino_blocked_left(&self, tetromino: &ControlledTetromino) -> (blocked: bool)
        requires
            self.wf(),
            tetromino.wf(),
        ensures
            blocked == blocked_left(
                self@,
                tetromino.shape(),
                tetromino.top_left.0 as int,
                tetromino.top_left.1 as int,
            ),
    {
        let m = tetromino.current_structure();
        let ghost mv = tetromino.shape();
        let ax = tetromino.top_left.0;
        let ay = tetromino.top_left.1;
        let mut r: usize = 0;
        while r < m.len()
            invariant
                mv == matrix_view(*m),
                mv == tetromino.shape(),
                ax == tetromino.top_left.0,
                ay == tetromino.top_left.1,
                self.wf(),
                0 <= r <= mv.len(),
                forall|i: int| 0 <= i < r ==> !#[trigger] row_blocked_left(self@, mv[i], ax as int, ay + i),
            decreases mv.len() - r,
        {
            let off = find_left_offset(&m[r]);
            let hit = if off == 0 {
                ax == 0 || self.is_occupied_offset(ax - 1, 0, ay, r)
            } else {
                self.is_occupied_offset(ax, off - 1, ay, r)
            };
            if hit {
                assert(row_blocked_left(self@, mv[r as int], ax as int, ay + r));
                return true;
            }
            r = r + 1;
        }
        false
    }

    /// Whether some row of the piece cannot move one column right: the row's
    /// rightmost filled cell is on the last column or has an occupied cell to
    /// its right. Rows are judged one by one.
    pub fn is_tetromino_blocked_right(&self, tetromino: &ControlledTetromino) -> (blocked: bool)
        requires
            self.wf(),
            tetromino.wf(),
        ensures
            blocked == blocked_right(
                self@,
                tetromino.shape(),
                tetromino.top_left.0 as int,
                tetromino.top_left.1 as int,
            ),
    {
        let m = tetromino.current_structure();
        let ghost mv = tetromino.shape();
        let ax = tetromino.top_left.0;
        let ay = tetromino.top_left.1;
        let mut r: usize = 0;
        while r < m.len()
            invariant
                mv == matrix_view(*m),
                mv == tetromino.shape(),
                crate::piece::matrix_ok(mv),
                ax == tetromino.top_left.0,
                ay == tetromino.top_left.1,
                self.wf(),
                0 <= r <= mv.len(),
                forall|i: int| 0 <= i < r ==> !#[trigger] row_blocked_right(self@, mv[i], ax as int, ay + i),
            decreases mv.len() - r,
        {
            let row_len = m[r].len();
            assert(mv[r as int].len() > 0);
            let off = find_right_offset(&m[r]);
            let at_edge = ax < GRID_WIDTH && off == GRID_WIDTH - 1 - ax;
            if at_edge || self.is_occupied_offset(ax, off + 1, ay, r) {
                assert(row_blocked_right(self@, mv[r as int], ax as int, ay + r));
                return true;
            }
            r = r + 1;
        }
        false
    }

    /// Whether the piece rests: for some column, the lowest filled cell of that
    /// column is on the last row or the cell below it is occupied.
    pub fn is_tetromino_at_bottom(&self, tetromino: &ControlledTetromino) -> (rests: bool)
        requires
            self.wf(),
            tetromino.wf(),
        ensures
            rests == at_bottom(
                self@,
                tetromino.shape(),
                tetromino.top_left.0 as int,
                tetromino.top_left.1 as int,
            ),
    {
        let m = tetromino.current_structure();
        let ghost mv = tetromino.shape();
        let ax = tetromino.top_left.0;
        let ay = tetromino.top_left.1;
        let mut r: usize = 0;
        while r < m.len()
            invariant
                mv == matrix_view(*m),
                mv == tetromino.shape(),
                ax == tetromino.top_left.0,
                ay == tetromino.top_left.1,
                self.wf(),
                0 <= r <= mv.len(),
                forall|i: int, j: int|
                    #[trigger] lowest_in_column(mv, i, j) && i < r ==> !(ay + i == GRID_HEIGHT - 1
                        || occupied(self@, ax + j, ay + i + 1)),
            decreases mv.len() - r,
        {
            let row = &m[r];
            let n = m.len();
            let mut c: usize = 0;
            while c < row.len()
                invariant
                    mv == matrix_view(*m),
                    mv == tetromino.shape(),
                    ax == tetromino.top_left.0,
                    ay == tetromino.top_left.1,
                    r < mv.len(),
                    n == mv.len(),
                    row@ == mv[r as int],
                    self.wf(),
                    0 <= c <= row@.len(),
                    forall|i: int, j: int|
                        #[trigger] lowest_in_column(mv, i, j) && before(i, j, r as int, c as int) ==> !(ay
                            + i == GRID_HEIGHT - 1 || occupied(self@, ax + j, ay + i + 1)),
                decreases row@.len() - c,
            {
                if row[c] && is_lowest(m, r, c) {
                    let on_floor = ay < GRID_HEIGHT && r == GRID_HEIGHT - 1 - ay;
                    if on_floor || self.is_occupied_offset(ax, c, ay, r + 1) {
                        assert(lowest_in_column(mv, r as int, c as int));
                        return true;
                    }
                }
                c = c + 1;
            }
            r = r + 1;
        }
        false
    }
    /// Removes every full row, moves the remaining rows down in their order,
    /// fills the top with empty rows, and returns the number of rows removed.
    pub fn clear_full_grid_rows(&mut self) -> (cleared: u32)
        requires
            old(self).wf(),
        ensures
            final(self).wf(),
            final(self)@ == compacted(old(self)@),
            cleared == full_row_count(old(self)@),
    {
        let ghost b = self@;
        let mut kept: Vec<Vec<bool>> = Vec::new();
        let mut cleared: u32 = 0;
        let mut y: usize = 0;
        while y < GRID_HEIGHT
            invariant
                b == self@,
                self.wf(),
                y <= GRID_HEIGHT,
                matrix_view(kept) == b.take(y as int).filter(not_full()),
                cleared + kept@.len() == y,
                forall|k: int| 0 <= k < kept@.len() ==> #[trigger] kept@[k]@.len() == GRID_WIDTH,
            decreases GRID_HEIGHT - y,
        {
            proof {
                assert(self@[y as int] == self.grid@[y as int]@);
            }
            let ghost prev = matrix_view(kept);
            if is_row_full(&self.grid[y]) {
                cleared = cleared + 1;
            } else {
                kept.push(copy_row(&self.grid[y]));
                assert(matrix_view(kept) =~= prev.push(b[y as int]));
            }
            proof {
                let t = b.take(y + 1);
                assert(t.drop_last() =~= b.take(y as int));
                assert(t.last() == b[y as int]);
                reveal(Seq::filter);
                if row_full(b[y as int]) {
                    assert(!not_full()(t.last()));
                    assert(t.filter(not_full()) == b.take(y as int).filter(not_full()));
                } else {
                    assert(not_full()(t.last()));
                    assert(t.filter(not_full()) == b.take(y as int).filter(not_full()).push(b[y as int]));
                }
            }
            y = y + 1;
            assert(matrix_view(kept) =~= b.take(y as int).filter(not_full()));
        }
        assert(b.take(GRID_HEIGHT as int) =~= b);
        let ghost kv = matrix_view(kept);
        proof {
            broadcast use vstd::seq_lib::group_filter_ensures;
        }
        let mut rows: Vec<Vec<bool>> = Vec::new();
        let mut i: u32 = 0;
        while i < cleared
            invariant
                i <= cleared,
                rows@.len() == i,
                forall|k: int| 0 <= k < i ==> #[trigger] rows@[k]@ == empty_row(),
            decreases cleared - i,
        {
            rows.push(new_empty_row());
            i = i + 1;
        }
        rows.append(&mut kept);
        self.grid = rows;
        assert(self@ =~= compacted(b)) by {
            assert(kept_rows(b) == kv);
        }
        proof {
            assert forall|k: int| 0 <= k < self@.len() implies #[trigger] self@[k].len() == GRID_WIDTH by {
                if k >= cleared {
                    assert(self@[k] == kv[k - cleared]);
                }
            }
        }
        cleared
    }
    /// Moves the piece down, one row at a time, until it rests. Only the
    /// anchor row changes.
    pub fn force_tetromino_to_bottom(&self, tetromino: &mut ControlledTetromino)
        requires
            self.wf(),
            old(tetromino).wf(),
            has_filled(old(tetromino).shape()),
            fits(old(tetromino).shape(), old(tetromino).top_left.0 as int, old(tetromino).top_left.1 as int),
        ensures
            final(tetromino).wf(),
            final(tetromino).structure == old(tetromino).structure,
            final(tetromino).rotation == old(tetromino).rotation,
            final(tetromino).timer == old(tetromino).timer,
            final(tetromino).top_left.0 == old(tetromino).top_left.0,
            is_drop_row(
                self@,
                old(tetromino).shape(),
                old(tetromino).top_left.0 as int,
                old(tetromino).top_left.1 as int,
                final(tetromino).top_left.1 as int,
            ),
    {
        let ghost m = tetromino.shape();
        let ghost ax = tetromino.top_left.0 as int;
        let ghost ay0 = tetromino.top_left.1 as int;
        let ghost low_r: int;
        let ghost low_c: int;
        proof {
            let (r, c) = choose|r: int, c: int| #[trigger] filled(m, r, c);
            low_r = lemma_lowest_below(m, r, c);
            low_c = c;
        }
        while !self.is_tetromino_at_bottom(tetromino)
            invariant
                self.wf(),
                tetromino.wf(),
                tetromino.shape() == m,
                tetromino.structure == old(tetromino).structure,
                tetromino.rotation == old(tetromino).rotation,
                tetromino.timer == old(tetromino).timer,
                tetromino.top_left.0 == ax,
                ay0 <= tetromino.top_left.1,
                lowest_in_column(m, low_r, low_c),
                tetromino.top_left.1 + low_r <= GRID_HEIGHT - 1,
                forall|k: int| ay0 <= k < tetromino.top_left.1 ==> !#[trigger] at_bottom(self@, m, ax, k),
            decreases GRID_HEIGHT - 1 - low_r - tetromino.top_left.1,
        {
            proof {
                if tetromino.top_left.1 + low_r == GRID_HEIGHT - 1 {
                    lemma_rests_by_floor(self@, m, ax, tetromino.top_left.1 as int, low_r, low_c);
                }
            }
            tetromino.top_left.1 = tetromino.top_left.1 + 1;
        }
    }

    /// The shadow of the piece: a copy of it at the row where it would rest
    /// if dropped straight down. The grid is not changed.
    pub fn controlled_tetromino_shadow(&self, tetromino: &ControlledTetromino) -> (shadow: ControlledTetromino)
        requires
            self.wf(),
            tetromino.wf(),
            has_filled(tetromino.shape()),
            fits(tetromino.shape(), tetromino.top_left.0 as int, tetromino.top_left.1 as int),
        ensures
            shadow.wf(),
            states_view(shadow.structure) == states_view(tetromino.structure),
            shadow.rotation == tetromino.rotation,
            shadow.timer == tetromino.timer,
            shadow.top_left.0 == tetromino.top_left.0,
            is_drop_row(
                self@,
                tetromino.shape(),
                tetromino.top_left.0 as int,
                tetromino.top_left.1 as int,
                shadow.top_left.1 as int,
            ),
    {
        let mut shadow = tetromino.duplicate();
        self.force_tetromino_to_bottom(&mut shadow);
        shadow
    }

    /// Board coordinates `(x, y)` of the occupied cells, in row-major order.
    pub fn set_coords_iter(&self) -> (coords: Vec<(usize, usize)>)
        requires
            self.wf(),
        ensures
            forall|x: usize, y: usize|
                #![trigger coords@.contains((x, y))]
                occupied(self@, x as int, y as int) <==> coords@.contains((x, y)),
            forall|i: int| 0 <= i < coords@.len() ==> occupied(self@, #[trigger] coords@[i].0 as int, coords@[i].1 as int),
            forall|i: int, j: int| 0 <= i < j < coords@.len() ==> rank(#[trigger] coords@[i]) < rank(#[trigger] coords@[j]),
    {
        let mut coords: Vec<(usize, usize)> = Vec::new();
        let mut y: usize = 0;
        while y < GRID_HEIGHT
            invariant
                self.wf(),
                y <= GRID_HEIGHT,
                forall|i: int| 0 <= i < coords@.len() ==> occupied(self@, #[trigger] coords@[i].0 as int, coords@[i].1 as int),
                forall|i: int| 0 <= i < coords@.len() ==> #[trigger] coords@[i].1 < y,
                forall|i: int, j: int| 0 <= i < j < coords@.len() ==> rank(#[trigger] coords@[i]) < rank(#[trigger] coords@[j]),
                forall|px: usize, py: usize|
                    #![trigger coords@.contains((px, py))]
                    occupied(self@, px as int, py as int) && py < y ==> coords@.contains((px, py)),
            decreases GRID_HEIGHT - y,
        {
            let mut x: usize = 0;
            while x < GRID_WIDTH
                invariant
                    self.wf(),
                    y < GRID_HEIGHT,
                    x <= GRID_WIDTH,
                    forall|i: int| 0 <= i < coords@.len() ==> occupied(self@, #[trigger] coords@[i].0 as int, coords@[i].1 as int),
                    forall|i: int| 0 <= i < coords@.len() ==> rank(#[trigger] coords@[i]) < y * GRID_WIDTH + x,
                    forall|i: int| 0 <= i < coords@.len() ==> #[trigger] coords@[i].1 <= y,
                    forall|i: int, j: int| 0 <= i < j < coords@.len() ==> rank(#[trigger] coords@[i]) < rank(#[trigger] coords@[j]),
                    forall|px: usize, py: usize|
                        #![trigger coords@.contains((px, py))]
                        occupied(self@, px as int, py as int) && (py < y || (py == y && px < x)) ==> coords@.contains((px, py)),
                decreases GRID_WIDTH - x,
            {
                if self.is_occupied(x, y) {
                    let ghost before_push = coords@;
                    coords.push((x, y));
                    proof {
                        assert forall|px: usize, py: usize|
                            #![trigger coords@.contains((px, py))]
                            occupied(self@, px as int, py as int) && (py < y || (py == y && px < x + 1)) implies coords@.contains((px, py)) by {
                            if py == y && px == x {
                                assert(coords@[coords@.len() - 1] == (x, y));
                            } else {
                                assert(before_push.contains((px, py)));
                                let k = choose|k: int| 0 <= k < before_push.len() && before_push[k] == (px, py);
                                assert(coords@[k] == before_push[k]);
                            }
                        }
                    }
                }
                x = x + 1;
            }
            y = y + 1;
        }
        proof {
            assert forall|px: usize, py: usize|
                #![trigger coords@.contains((px, py))]
                coords@.contains((px, py)) implies occupied(self@, px as int, py as int) by {
                let k = choose|k: int| 0 <= k < coords@.len() && coords@[k] == (px, py);
                assert(occupied(self@, coords@[k].0 as int, coords@[k].1 as int));
            }
        }
        coords
    }
}

impl Default for Grid {
    fn default() -> (r: Grid)
        ensures
            r.wf(),
            r@ == empty_board(),
    {
        Grid::new()
    }
}


/// Filtering a sequence whose items all pass the test leaves it unchanged.
proof fn lemma_filter_all_kept(s: Seq<Seq<bool>>)
    requires
        forall|i: int| 0 <= i < s.len() ==> !row_full(#[trigger] s[i]),
    ensures
        s.filter(not_full()) == s,
    decreases s.len(),
{
    reveal(Seq::filter);
    if s.len() > 0 {
        lemma_filter_all_kept(s.drop_last());
        assert(s.drop_last().push(s.last()) =~= s);
    }
}

/// The rows of a compacted board: none of them is full.
proof fn lemma_compacted_rows(b: Seq<Seq<bool>>)
    requires
        board_ok(b),
    ensures
        board_ok(compacted(b)),
        forall|i: int| 0 <= i < compacted(b).len() ==> !row_full(#[trigger] compacted(b)[i]),
{
    broadcast use vstd::seq_lib::group_filter_ensures;

    let k = kept_rows(b);
    let n = full_row_count(b);
    assert(k.len() <= b.len());
    assert forall|i: int| 0 <= i < compacted(b).len() implies !row_full(#[trigger] compacted(b)[i])
        && compacted(b)[i].len() == GRID_WIDTH by {
        if i < n {
            assert(compacted(b)[i] == empty_row());
            assert(!empty_row()[0]);
        } else {
            assert(compacted(b)[i] == k[i - n]);
            assert(not_full()(k[i - n]));
            assert(k.contains(k[i - n]));
            b.lemma_filter_contains_rev(not_full(), k[i - n]);
            let j = choose|j: int| 0 <= j < b.len() && b[j] == k[i - n];
            assert(b[j].len() == GRID_WIDTH);
        }
    }
}

/// Clearing full rows leaves no full row: clearing again right away removes
/// nothing and changes nothing.
pub proof fn lemma_clear_full_rows_idempotent(b: Seq<Seq<bool>>)
    requires
        board_ok(b),
    ensures
        board_ok(compacted(b)),
        full_row_count(compacted(b)) == 0,
        compacted(compacted(b)) == compacted(b),
{
    lemma_compacted_rows(b);
    let c = compacted(b);
    lemma_filter_all_kept(c);
    assert(compacted(c) =~= c);
}

} // verus!
