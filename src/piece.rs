use crate::random::RandomSource;
use crate::timer::TetrominoTimer;
use vstd::prelude::*;

verus! {

/// Board width, in cells.
pub const GRID_WIDTH: usize = 10;

/// Board height, in cells.
pub const GRID_HEIGHT: usize = 16;

/// Column of the anchor of a freshly spawned piece.
pub const SPAWN_COLUMN: usize = 4;

/// The seven piece kinds.
#[derive(Debug, Clone, Copy, PartialEq, Eq, Structural)]
pub enum TetrominoType {
    I,
    O,
    T,
    S,
    Z,
    J,
    L,
}

/// The mathematical matrix of a rotation state: rows of cells, `true` where filled.
pub open spec fn matrix_view(m: Vec<Vec<bool>>) -> Seq<Seq<bool>> {
    m@.map_values(|row: Vec<bool>| row@)
}

/// The rotation states of a piece, each as a matrix.
pub open spec fn states_view(s: Vec<Vec<Vec<bool>>>) -> Seq<Seq<Seq<bool>>> {
    s@.map_values(|m: Vec<Vec<bool>>| matrix_view(m))
}

/// Whether the local cell at row `r`, column `c` of `m` is filled.
pub open spec fn filled(m: Seq<Seq<bool>>, r: int, c: int) -> bool {
    0 <= r < m.len() && 0 <= c < m[r].len() && m[r][c]
}

/// Whether a matrix placed with its top-left corner at `(ax, ay)` covers the
/// board cell `(x, y)`.
pub open spec fn covers(m: Seq<Seq<bool>>, ax: int, ay: int, x: int, y: int) -> bool {
    filled(m, y - ay, x - ax)
}

/// A rotation state usable by the grid operations: at least one row, and no
/// empty row.
pub open spec fn matrix_ok(m: Seq<Seq<bool>>) -> bool {
    m.len() > 0 && forall|r: int| 0 <= r < m.len() ==> #[trigger] m[r].len() > 0
}

impl TetrominoType {
    /// The ordered rotation states of this kind.
    pub open spec fn rotations(self) -> Seq<Seq<Seq<bool>>> {
        match self {
            TetrominoType::I => seq![
                seq![seq![true, true, true, true]],
                seq![seq![true], seq![true], seq![true], seq![true]],
            ],
            TetrominoType::O => seq![seq![seq![true, true], seq![true, true]]],
            TetrominoType::T => seq![
                seq![seq![false, true, false], seq![true, true, true]],
                seq![seq![true, false], seq![true, true], seq![true, false]],
                seq![seq![true, true, true], seq![false, true, false]],
                seq![seq![false, true], seq![true, true], seq![false, true]],
            ],
            TetrominoType::S => seq![
                seq![seq![false, true, true], seq![true, true, false]],
                seq![seq![true, false], seq![true, true], seq![false, true]],
            ],
            TetrominoType::Z => seq![
                seq![seq![true, true, false], seq![false, true, true]],
                seq![seq![false, true], seq![true, true], seq![true, false]],
            ],
            TetrominoType::J => seq![
                seq![seq![true, false, false], seq![true, true, true]],
                seq![seq![true, true], seq![true, false], seq![true, false]],
                seq![seq![true, true, true], seq![false, false, true]],
                seq![seq![false, true], seq![false, true], seq![true, true]],
            ],
            TetrominoType::L => seq![
                seq![seq![false, false, true], seq![true, true, true]],
                seq![seq![true, false], seq![true, false], seq![true, true]],
                seq![seq![true, true, true], seq![true, false, false]],
                seq![seq![true, true], seq![false, true], seq![false, true]],
            ],
        }
    }

    /// The kind that a draw of `idx` from `[0, 7)` selects.
    pub open spec fn of_index(idx: u32) -> TetrominoType {
        if idx == 0 {
            TetrominoType::I
        } else if idx == 1 {
            TetrominoType::O
        } else if idx == 2 {
            TetrominoType::T
        } else if idx == 3 {
            TetrominoType::S
        } else if idx == 4 {
            TetrominoType::Z
        } else if idx == 5 {
            TetrominoType::J
        } else {
            TetrominoType::L
        }
    }
}

impl TetrominoType {
    /// Every rotation state of this kind, in rotation order.
    pub fn structure_with_rotations(&self) -> (r: Vec<Vec<Vec<bool>>>)
        ensures
            states_view(r) == self.rotations(),
    {
        let r = match self {
            TetrominoType::I => vec![
                vec![vec![true, true, true, true]],
                vec![vec![true], vec![true], vec![true], vec![true]],
            ],
            TetrominoType::O => vec![vec![vec![true, true], vec![true, true]]],
            TetrominoType::T => vec![
                vec![vec![false, true, false], vec![true, true, true]],
                vec![vec![true, false], vec![true, true], vec![true, false]],
                vec![vec![true, true, true], vec![false, true, false]],
                vec![vec![false, true], vec![true, true], vec![false, true]],
            ],
            TetrominoType::S => vec![
                vec![vec![false, true, true], vec![true, true, false]],
                vec![vec![true, false], vec![true, true], vec![false, true]],
            ],
            TetrominoType::Z => vec![
                vec![vec![true, true, false], vec![false, true, true]],
                vec![vec![false, true], vec![true, true], vec![true, false]],
            ],
            TetrominoType::J => vec![
                vec![vec![true, false, false], vec![true, true, true]],
                vec![vec![true, true], vec![true, false], vec![true, false]],
                vec![vec![true, true, true], vec![false, false, true]],
                vec![vec![false, true], vec![false, true], vec![true, true]],
            ],
            TetrominoType::L => vec![
                vec![vec![false, false, true], vec![true, true, true]],
                vec![vec![true, false], vec![true, false], vec![true, true]],
                vec![vec![true, true, true], vec![true, false, false]],
                vec![vec![true, true], vec![false, true], vec![false, true]],
            ],
        };
        assert(states_view(r) =~~= self.rotations());
        r
    }

    /// The spawn (first) rotation state of this kind.
    pub fn structure(&self) -> (r: Vec<Vec<bool>>)
        ensures
            matrix_view(r) == self.rotations()[0],
    {
        let r = match self {
            TetrominoType::I => vec![vec![true, true, true, true]],
            TetrominoType::O => vec![vec![true, true], vec![true, true]],
            TetrominoType::T => vec![vec![false, true, false], vec![true, true, true]],
            TetrominoType::S => vec![vec![false, true, true], vec![true, true, false]],
            TetrominoType::Z => vec![vec![true, true, false], vec![false, true, true]],
            TetrominoType::J => vec![vec![true, false, false], vec![true, true, true]],
            TetrominoType::L => vec![vec![false, false, true], vec![true, true, true]],
        };
        assert(matrix_view(r) =~~= self.rotations()[0]);
        r
    }

    /// The kind selected by a draw `idx` from `[0, 7)`; any larger value selects `L`.
    pub fn from_index(idx: u32) -> (r: TetrominoType)
        ensures
            r == TetrominoType::of_index(idx),
    {
        match idx {
            0 => TetrominoType::I,
            1 => TetrominoType::O,
            2 => TetrominoType::T,
            3 => TetrominoType::S,
            4 => TetrominoType::Z,
            5 => TetrominoType::J,
            _ => TetrominoType::L,
        }
    }

    /// Draws a kind uniformly from the seven, using `rng`.
    pub fn random(rng: &mut RandomSource) -> (r: TetrominoType)
        ensures
            exists|idx: u32| idx < 7 && r == TetrominoType::of_index(idx),
    {
        let idx = rng.next(0, 7);
        TetrominoType::from_index(idx)
    }
}

/// Every rotation state in the catalog has rows, none of them empty, and every
/// kind has at least one state.
pub proof fn lemma_catalog_ok(kind: TetrominoType)
    ensures
        kind.rotations().len() > 0,
        forall|i: int| 0 <= i < kind.rotations().len() ==> matrix_ok(#[trigger] kind.rotations()[i]),
{
}


/// The falling piece of a board: its rotation states, the current rotation,
/// the board position of the current matrix's top-left corner, and its fall timer.
#[derive(Debug)]
pub struct ControlledTetromino {
    pub structure: Vec<Vec<Vec<bool>>>,
    pub rotation: usize,
    pub top_left: (usize, usize),
    pub timer: TetrominoTimer,
}

impl ControlledTetromino {
    /// The rotation index is in range and every state is usable.
    pub open spec fn wf(&self) -> bool {
        &&& self.structure@.len() > 0
        &&& self.rotation < self.structure@.len()
        &&& forall|i: int|
            0 <= i < self.structure@.len() ==> matrix_ok(#[trigger] states_view(self.structure)[i])
        &&& self.timer.wf()
    }

    /// The matrix of the current rotation state.
    pub open spec fn shape(&self) -> Seq<Seq<bool>> {
        states_view(self.structure)[self.rotation as int]
    }

    /// Whether the piece covers the board cell `(x, y)`.
    pub open spec fn covers_cell(&self, x: int, y: int) -> bool {
        covers(self.shape(), self.top_left.0 as int, self.top_left.1 as int, x, y)
    }

    /// A freshly spawned piece of `kind`: first rotation, centred at the top.
    pub open spec fn is_fresh(&self, kind: TetrominoType) -> bool {
        &&& states_view(self.structure) == kind.rotations()
        &&& self.rotation == 0
        &&& self.top_left == (SPAWN_COLUMN, 0usize)
        &&& self.timer == TetrominoTimer::repeating_spec(crate::timer::DEFAULT_FALL_NANOS)
    }

    /// The rotation index that one `rotate` moves to.
    pub open spec fn next_rotation(&self) -> usize {
        ((self.rotation + 1) % (self.structure@.len() as int)) as usize
    }

    /// A fresh piece of a kind drawn from `rng`.
    pub fn new(rng: &mut RandomSource) -> (r: ControlledTetromino)
        ensures
            r.wf(),
            exists|kind: TetrominoType| r.is_fresh(kind),
    {
        Self::new_with_tetromino_type(TetrominoType::random(rng))
    }

    /// A fresh piece of the given kind.
    pub fn new_with_tetromino_type(tetromino_type: TetrominoType) -> (r: ControlledTetromino)
        ensures
            r.wf(),
            r.is_fresh(tetromino_type),
    {
        proof {
            lemma_catalog_ok(tetromino_type);
        }
        ControlledTetromino {
            structure: tetromino_type.structure_with_rotations(),
            rotation: 0,
            top_left: (GRID_WIDTH / 2 - 1, 0),
            timer: TetrominoTimer::default(),
        }
    }

    /// The matrix of the current rotation state.
    pub fn current_structure(&self) -> (r: &Vec<Vec<bool>>)
        requires
            self.wf(),
        ensures
            matrix_view(*r) == self.shape(),
    {
        &self.structure[self.rotation]
    }

    /// The matrix of the rotation state that one `rotate` would select.
    pub fn next_structure(&self) -> (r: &Vec<Vec<bool>>)
        requires
            self.wf(),
        ensures
            matrix_view(*r) == states_view(self.structure)[self.next_rotation() as int],
    {
        &self.structure[self.following_rotation()]
    }

    /// Advances the rotation index cyclically; nothing else changes.
    pub fn rotate(&mut self)
        requires
            old(self).wf(),
        ensures
            final(self).wf(),
            final(self).rotation == old(self).next_rotation(),
            final(self).structure == old(self).structure,
            final(self).top_left == old(self).top_left,
            final(self).timer == old(self).timer,
    {
        self.rotation = self.following_rotation();
    }

    /// A copy of this piece.
    pub fn duplicate(&self) -> (r: ControlledTetromino)
        requires
            self.wf(),
        ensures
            r.wf(),
            states_view(r.structure) == states_view(self.structure),
            r.rotation == self.rotation,
            r.top_left == self.top_left,
            r.timer == self.timer,
            r.shape() == self.shape(),
    {
        let mut states: Vec<Vec<Vec<bool>>> = Vec::new();
        let mut i: usize = 0;
        while i < self.structure.len()
            invariant
                i <= self.structure@.len(),
                states@.len() == i,
                forall|k: int| 0 <= k < i ==> #[trigger] matrix_view(states@[k]) == matrix_view(self.structure@[k]),
            decreases self.structure@.len() - i,
        {
            states.push(copy_matrix(&self.structure[i]));
            i = i + 1;
        }
        let r = ControlledTetromino { structure: states, rotation: self.rotation, top_left: self.top_left, timer: self.timer };
        assert(states_view(r.structure) =~= states_view(self.structure));
        r
    }

    /// Board coordinates `(x, y)` of the cells the piece covers; covered cells
    /// off the board are left out.
    pub fn coords(&self) -> (cells: Vec<(usize, usize)>)
        requires
            self.wf(),
        ensures
            forall|x: usize, y: usize|
                #![trigger cells@.contains((x, y))]
                cells@.contains((x, y)) <==> crate::grid::on_board(x as int, y as int) && self.covers_cell(
                    x as int,
                    y as int,
                ),
    {
        let m = self.current_structure();
        let ghost mv = self.shape();
        let ax = self.top_left.0;
        let ay = self.top_left.1;
        let mut cells: Vec<(usize, usize)> = Vec::new();
        let mut r: usize = 0;
        while r < m.len()
            invariant
                mv == matrix_view(*m),
                mv == self.shape(),
                ax == self.top_left.0,
                ay == self.top_left.1,
                r <= mv.len(),
                forall|x: usize, y: usize|
                    #![trigger cells@.contains((x, y))]
                    cells@.contains((x, y)) <==> crate::grid::on_board(x as int, y as int) && covers(
                        mv,
                        ax as int,
                        ay as int,
                        x as int,
                        y as int,
                    ) && y - ay < r,
            decreases mv.len() - r,
        {
            let row = &m[r];
            let mut c: usize = 0;
            while c < row.len()
                invariant
                    mv == matrix_view(*m),
                    r < mv.len(),
                    row@ == mv[r as int],
                    c <= row@.len(),
                    forall|x: usize, y: usize|
                        #![trigger cells@.contains((x, y))]
                        cells@.contains((x, y)) <==> crate::grid::on_board(x as int, y as int) && covers(
                            mv,
                            ax as int,
                            ay as int,
                            x as int,
                            y as int,
                        ) && (y - ay < r || (y - ay == r && x - ax < c)),
                decreases row@.len() - c,
            {
                if row[c] && ax < GRID_WIDTH && c < GRID_WIDTH - ax && ay < GRID_HEIGHT && r < GRID_HEIGHT
                    - ay {
                    let ghost before = cells@;
                    let cell = (ax + c, ay + r);
                    cells.push(cell);
                    proof {
                        assert forall|x: usize, y: usize|
                            #![trigger cells@.contains((x, y))]
                            cells@.contains((x, y)) == (before.contains((x, y)) || (x, y) == cell) by {
                            if cells@.contains((x, y)) && (x, y) != cell {
                                let k = choose|k: int| 0 <= k < cells@.len() && cells@[k] == (x, y);
                                assert(before[k] == (x, y));
                            }
                            if before.contains((x, y)) {
                                let k = choose|k: int| 0 <= k < before.len() && before[k] == (x, y);
                                assert(cells@[k] == (x, y));
                            }
                            if (x, y) == cell {
                                assert(cells@[cells@.len() - 1] == (x, y));
                            }
                        }
                    }
                }
                c = c + 1;
            }
            r = r + 1;
        }
        cells
    }

    pub(crate) fn following_rotation(&self) -> (r: usize)
        requires
            self.wf(),
        ensures
            r == self.next_rotation(),
            r < self.structure@.len(),
    {
        let n = self.structure.len();
        if self.rotation == n - 1 {
            proof {
                vstd::arithmetic::div_mod::lemma_mod_self_0(n as int);
            }
            0
        } else {
            proof {
                vstd::arithmetic::div_mod::lemma_small_mod((self.rotation + 1) as nat, n as nat);
            }
            self.rotation + 1
        }
    }
}


/// Every rotation state in the catalog has a filled cell, and the spawn state
/// of every kind lies within the top two rows and four columns.
pub proof fn lemma_catalog_shapes(kind: TetrominoType)
    ensures
        forall|i: int|
            0 <= i < kind.rotations().len() ==> crate::grid::has_filled(#[trigger] kind.rotations()[i]),
        forall|r: int, c: int| #[trigger] filled(kind.rotations()[0], r, c) ==> 0 <= r < 2 && 0 <= c < 4,
{
    let rots = kind.rotations();
    assert forall|i: int| 0 <= i < rots.len() implies crate::grid::has_filled(#[trigger] rots[i]) by {
        assert(filled(rots[i], 0, 0) || filled(rots[i], 0, 1) || filled(rots[i], 0, 2));
    }
}

/// A copy of a matrix.
fn copy_matrix(m: &Vec<Vec<bool>>) -> (r: Vec<Vec<bool>>)
    ensures
        matrix_view(r) == matrix_view(*m),
{
    let mut rows: Vec<Vec<bool>> = Vec::new();
    let mut i: usize = 0;
    while i < m.len()
        invariant
            i <= m@.len(),
            rows@.len() == i,
            forall|k: int| 0 <= k < i ==> #[trigger] rows@[k]@ == m@[k]@,
        decreases m@.len() - i,
    {
        let mut row: Vec<bool> = Vec::new();
        let mut j: usize = 0;
        while j < m[i].len()
            invariant
                i < m@.len(),
                j <= m@[i as int]@.len(),
                row@ == m@[i as int]@.take(j as int),
            decreases m@[i as int]@.len() - j,
        {
            row.push(m[i][j]);
            j = j + 1;
            assert(row@ =~= m@[i as int]@.take(j as int));
        }
        assert(row@ =~= m@[i as int]@);
        rows.push(row);
        i = i + 1;
    }
    assert(matrix_view(rows) =~= matrix_view(*m));
    rows
}

/// The piece after `k` calls of `rotate`.
pub open spec fn rotated(p: ControlledTetromino, k: nat) -> ControlledTetromino
    decreases k,
{
    if k == 0 {
        p
    } else {
        let q = rotated(p, (k - 1) as nat);
        ControlledTetromino { rotation: q.next_rotation(), ..q }
    }
}

proof fn lemma_rotated_index(p: ControlledTetromino, k: nat)
    requires
        p.wf(),
    ensures
        rotated(p, k).rotation == (p.rotation + k) % (p.structure@.len() as int),
        rotated(p, k).structure == p.structure,
        rotated(p, k).top_left == p.top_left,
        rotated(p, k).timer == p.timer,
    decreases k,
{
    let n = p.structure@.len() as int;
    if k == 0 {
        vstd::arithmetic::div_mod::lemma_small_mod(p.rotation as nat, n as nat);
    } else {
        lemma_rotated_index(p, (k - 1) as nat);
        let q = rotated(p, (k - 1) as nat);
        vstd::arithmetic::div_mod::lemma_add_mod_noop_right(1, p.rotation + k - 1, n);
        assert(q.rotation + 1 == 1 + (p.rotation + k - 1) % n);
        vstd::arithmetic::div_mod::lemma_mod_bound(q.rotation + 1, n);
        assert(p.structure.len() == n);
        assert(q.next_rotation() == (q.rotation + 1) % n);
    }
}

/// Rotation is cyclic: rotating a piece as many times as its kind has states
/// gives back the same rotation state, matrix and anchor.
pub proof fn lemma_rotation_cycle(p: ControlledTetromino)
    requires
        p.wf(),
    ensures
        rotated(p, p.structure@.len()) == p,
        rotated(p, p.structure@.len()).shape() == p.shape(),
{
    let n = p.structure@.len();
    lemma_rotated_index(p, n);
    vstd::arithmetic::div_mod::lemma_mod_add_multiples_vanish(p.rotation as int, n as int);
    vstd::arithmetic::div_mod::lemma_small_mod(p.rotation as nat, n as nat);
}

} // verus!
