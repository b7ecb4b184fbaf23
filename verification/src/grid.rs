//! The occupancy grid: a fixed rectangle of passable and blocked cells.

use vstd::prelude::*;
use vstd::arithmetic::div_mod::lemma_fundamental_div_mod_converse;
use crate::error::VisibilityError;
use crate::line::Coordinate;

verus! {

/// The longest side a grid may have: with it every cell has an `i32`
/// coordinate.
pub const MAX_GRID_SIDE: u32 = 0x7fff_ffff;

/// What a grid is: its sides and, row by row from the top, whether each cell
/// is passable.
pub struct GridView {
    pub width: int,
    pub height: int,
    pub cells: Seq<bool>,
}

impl GridView {
    /// Both sides are at least one and at most [`MAX_GRID_SIDE`], and every
    /// cell has a state.
    pub open spec fn wf(self) -> bool {
        &&& 1 <= self.width <= MAX_GRID_SIDE
        &&& 1 <= self.height <= MAX_GRID_SIDE
        &&& self.cells.len() == self.width * self.height
    }

    /// `c` addresses a cell of the grid.
    pub open spec fn in_bounds(self, c: Coordinate) -> bool {
        0 <= c.0 < self.width && 0 <= c.1 < self.height
    }

    /// The cell `c` is passable.
    pub open spec fn passable(self, c: Coordinate) -> bool {
        self.cells[c.1 * self.width + c.0]
    }

    /// The cell `c` is blocked.
    pub open spec fn blocked(self, c: Coordinate) -> bool {
        !self.passable(c)
    }

    /// The `i`-th cell in row-major order.
    pub open spec fn cell_at(self, i: int) -> Coordinate {
        ((i % self.width) as i32, (i / self.width) as i32)
    }

    /// Every cell, row by row from the top, each row from the left.
    pub open spec fn all_cells(self) -> Seq<Coordinate> {
        Seq::new((self.width * self.height) as nat, |i: int| self.cell_at(i))
    }

    /// The passable cells, in row-major order.
    pub open spec fn passable_cells(self) -> Seq<Coordinate> {
        self.all_cells().filter(|c: Coordinate| self.passable(c))
    }

    /// The blocked cells, in row-major order.
    pub open spec fn blocked_cells(self) -> Seq<Coordinate> {
        self.all_cells().filter(|c: Coordinate| self.blocked(c))
    }
}

/// In a well-formed grid the row-major position of a cell determines the cell,
/// and the other way round.
pub proof fn lemma_cell_index(g: GridView, x: int, y: int)
    requires
        g.wf(),
        0 <= x < g.width,
        0 <= y < g.height,
    ensures
        0 <= y * g.width + x < g.width * g.height,
        g.cell_at(y * g.width + x) == (x as i32, y as i32),
{
    let w = g.width;
    assert(0 <= y * w && y * w + w <= g.height * w && g.height * w == w * g.height)
        by (nonlinear_arith)
        requires
            0 <= y < g.height,
            w >= 1,
    ;
    lemma_fundamental_div_mod_converse(y * w + x, w, y, x);
}

/// Every row-major position of a well-formed grid holds a cell of the grid.
pub proof fn lemma_cell_at_in_bounds(g: GridView, i: int)
    requires
        g.wf(),
        0 <= i < g.width * g.height,
    ensures
        g.in_bounds(g.cell_at(i)),
        g.cell_at(i).1 * g.width + g.cell_at(i).0 == i,
{
    let w = g.width;
    vstd::arithmetic::div_mod::lemma_fundamental_div_mod(i, w);
    vstd::arithmetic::div_mod::lemma_mod_bound(i, w);
    let q = i / w;
    assert(0 <= q < g.height) by (nonlinear_arith)
        requires
            0 <= i < w * g.height,
            i == w * q + i % w,
            0 <= i % w < w,
    ;
    assert(w * q == q * w) by (nonlinear_arith);
}

/// Two filters that between them keep every item once split a sequence in two.
pub proof fn lemma_filter_splits(
    s: Seq<Coordinate>,
    keep: spec_fn(Coordinate) -> bool,
    rest: spec_fn(Coordinate) -> bool,
)
    requires
        forall|c: Coordinate| #[trigger] keep(c) != rest(c),
    ensures
        s.filter(keep).len() + s.filter(rest).len() == s.len(),
    decreases s.len(),
{
    reveal(Seq::filter);
    if s.len() > 0 {
        lemma_filter_splits(s.drop_last(), keep, rest);
    }
}

/// The cells of a grid are as many as its sides multiplied; each is either
/// blocked or passable, so the two lists between them hold every cell once;
/// and every cell listed as blocked is a blocked cell of the grid.
pub proof fn law_cells_partition(g: GridView)
    requires
        g.wf(),
    ensures
        g.all_cells().len() == g.width * g.height,
        g.blocked_cells().len() + g.passable_cells().len() == g.all_cells().len(),
        forall|i: int|
            0 <= i < g.blocked_cells().len() ==> g.in_bounds(#[trigger] g.blocked_cells()[i])
                && g.blocked(g.blocked_cells()[i]),
        forall|i: int|
            0 <= i < g.passable_cells().len() ==> g.in_bounds(#[trigger] g.passable_cells()[i])
                && g.passable(g.passable_cells()[i]),
{
    let all = g.all_cells();
    let blocked = |c: Coordinate| g.blocked(c);
    let passable = |c: Coordinate| g.passable(c);
    assert(0 <= g.width * g.height) by (nonlinear_arith)
        requires
            g.width >= 0,
            g.height >= 0,
    ;
    lemma_filter_splits(all, blocked, passable);
    assert forall|i: int| 0 <= i < all.filter(blocked).len() implies g.in_bounds(
        #[trigger] all.filter(blocked)[i],
    ) && g.blocked(all.filter(blocked)[i]) by {
        all.lemma_filter_pred(blocked, i);
        all.lemma_filter_contains_rev(blocked, all.filter(blocked)[i]);
        let at = all.index_of(all.filter(blocked)[i]);
        lemma_cell_at_in_bounds(g, at);
    }
    assert forall|i: int| 0 <= i < all.filter(passable).len() implies g.in_bounds(
        #[trigger] all.filter(passable)[i],
    ) && g.passable(all.filter(passable)[i]) by {
        all.lemma_filter_pred(passable, i);
        all.lemma_filter_contains_rev(passable, all.filter(passable)[i]);
        let at = all.index_of(all.filter(passable)[i]);
        lemma_cell_at_in_bounds(g, at);
    }
}

/// A fixed rectangle of cells, each passable or blocked.
#[derive(Clone, Debug)]
pub struct OccupancyGrid {
    width: u32,
    height: u32,
    cells: Vec<bool>,
}

impl View for OccupancyGrid {
    type V = GridView;

    closed spec fn view(&self) -> GridView {
        GridView { width: self.width as int, height: self.height as int, cells: self.cells@ }
    }
}

impl OccupancyGrid {
    /// The grid is well formed: see [`GridView::wf`].
    pub open spec fn wf(&self) -> bool {
        self@.wf()
    }

    /// A grid of the given sides from the states of its cells in row-major
    /// order, `true` for passable.
    pub fn from_cells(width: u32, height: u32, cells: Vec<bool>) -> (r: Result<
        OccupancyGrid,
        VisibilityError,
    >)
        ensures
            r is Ok <==> 1 <= width <= MAX_GRID_SIDE && 1 <= height <= MAX_GRID_SIDE && cells@.len()
                == width * height,
            r matches Ok(g) ==> g.wf() && g@ == (GridView {
                width: width as int,
                height: height as int,
                cells: cells@,
            }),
            r matches Err(e) ==> e == VisibilityError::InvalidDimensions,
    {
        if width == 0 || height == 0 || width > MAX_GRID_SIDE || height > MAX_GRID_SIDE {
            return Err(VisibilityError::InvalidDimensions);
        }
        assert(width * height <= 0x7fff_ffff * 0x7fff_ffff) by (nonlinear_arith)
            requires
                0 <= width <= 0x7fff_ffff,
                0 <= height <= 0x7fff_ffff,
        ;
        let count: u64 = (width as u64) * (height as u64);
        if cells.len() as u64 != count {
            return Err(VisibilityError::InvalidDimensions);
        }
        Ok(OccupancyGrid { width, height, cells })
    }

    /// Number of columns.
    pub fn width(&self) -> (w: u32)
        ensures
            w == self@.width,
    {
        self.width
    }

    /// Number of rows.
    pub fn height(&self) -> (h: u32)
        ensures
            h == self@.height,
    {
        self.height
    }

    /// Whether `c` addresses a cell of the grid.
    pub fn contains(&self, c: Coordinate) -> (r: bool)
        ensures
            r == self@.in_bounds(c),
    {
        c.0 >= 0 && c.1 >= 0 && (c.0 as i64) < (self.width as i64) && (c.1 as i64) < (
        self.height as i64)
    }

    /// Whether the cell `c` is passable.
    pub fn is_passable(&self, c: Coordinate) -> (r: bool)
        requires
            self.wf(),
            self@.in_bounds(c),
        ensures
            r == self@.passable(c),
    {
        let count: usize = self.cells.len();
        proof {
            lemma_cell_index(self@, c.0 as int, c.1 as int);
            assert(0 <= c.1 * self.width) by (nonlinear_arith)
                requires
                    0 <= c.1,
                    0 <= self.width,
            ;
            assert(c.1 * self.width + c.0 < count);
        }
        let i: usize = (c.1 as usize) * (self.width as usize) + (c.0 as usize);
        self.cells[i]
    }

    /// Whether the cell `c` is blocked.
    pub fn is_blocked(&self, c: Coordinate) -> (r: bool)
        requires
            self.wf(),
            self@.in_bounds(c),
        ensures
            r == self@.blocked(c),
    {
        !self.is_passable(c)
    }

    /// Every cell of the grid in row-major order: rows from the top, each row
    /// from the left.
    pub fn all_cells(&self) -> (cells: Vec<Coordinate>)
        requires
            self.wf(),
        ensures
            cells@ == self@.all_cells(),
    {
        let mut cells: Vec<Coordinate> = Vec::new();
        let mut y: u32 = 0;
        while y < self.height
            invariant
                self.wf(),
                y <= self.height,
                cells@ == Seq::new((y * self@.width) as nat, |i: int| self@.cell_at(i)),
            decreases self.height - y,
        {
            let mut x: u32 = 0;
            while x < self.width
                invariant
                    self.wf(),
                    y < self.height,
                    x <= self.width,
                    cells@ == Seq::new((y * self@.width + x) as nat, |i: int| self@.cell_at(i)),
                decreases self.width - x,
            {
                proof {
                    lemma_cell_index(self@, x as int, y as int);
                }
                cells.push((x as i32, y as i32));
                assert(cells@ =~= Seq::new(
                    (y * self@.width + x + 1) as nat,
                    |i: int| self@.cell_at(i),
                ));
                x += 1;
            }
            assert((y + 1) * self@.width == y * self@.width + self@.width) by (nonlinear_arith);
            y += 1;
        }
        assert(self.height * self@.width == self@.width * self@.height) by (nonlinear_arith);
        cells
    }

    /// The cells whose state is the chosen one, in row-major order.
    fn cells_in_state(&self, passable: bool) -> (cells: Vec<Coordinate>)
        requires
            self.wf(),
        ensures
            cells@ == self@.all_cells().filter(|c: Coordinate| self@.passable(c) == passable),
    {
        let all = self.all_cells();
        let ghost keep = |c: Coordinate| self@.passable(c) == passable;
        let mut cells: Vec<Coordinate> = Vec::new();
        let mut i: usize = 0;
        assert(all@.take(0).filter(keep) =~= Seq::<Coordinate>::empty()) by {
            reveal(Seq::filter);
        }
        while i < all.len()
            invariant
                self.wf(),
                all@ == self@.all_cells(),
                i <= all.len(),
                keep == |c: Coordinate| self@.passable(c) == passable,
                cells@ == all@.take(i as int).filter(keep),
            decreases all.len() - i,
        {
            let c = all[i];
            proof {
                lemma_cell_at_in_bounds(self@, i as int);
                assert(all@.take(i + 1) =~= all@.take(i as int).push(c));
                all@.take(i as int).lemma_filter_push(c, keep);
            }
            if self.is_passable(c) == passable {
                cells.push(c);
            }
            i += 1;
        }
        assert(all@.take(all.len() as int) =~= all@);
        cells
    }

    /// The passable cells in row-major order.
    pub fn passable_cells(&self) -> (cells: Vec<Coordinate>)
        requires
            self.wf(),
        ensures
            cells@ == self@.passable_cells(),
    {
        let cells = self.cells_in_state(true);
        assert((|c: Coordinate| self@.passable(c) == true) =~= (|c: Coordinate|
            self@.passable(c)));
        cells
    }

    /// The blocked cells in row-major order.
    pub fn blocked_cells(&self) -> (cells: Vec<Coordinate>)
        requires
            self.wf(),
        ensures
            cells@ == self@.blocked_cells(),
    {
        let cells = self.cells_in_state(false);
        assert((|c: Coordinate| self@.passable(c) == false) =~= (|c: Coordinate|
            self@.blocked(c)));
        cells
    }
}

} // verus!
