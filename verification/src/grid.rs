use crate::rng::random_below;
use vstd::arithmetic::div_mod::{
    lemma_div_is_ordered, lemma_div_pos_is_pos, lemma_fundamental_div_mod,
    lemma_fundamental_div_mod_converse, lemma_mod_bound, lemma_mod_multiples_basic,
    lemma_multiply_divide_lt,
};
use vstd::arithmetic::mul::{lemma_mul_equality_converse, lemma_mul_inequality};
use vstd::prelude::*;

verus! {

/// Default edge length of one grid square, in pixels.
pub const SQUARE_SIZE: i16 = 9;

/// Default board width in pixels.
pub const WINDOW_WIDTH_SIZE: i16 = 300;

/// Default board height in pixels.
pub const WINDOW_HEIGHT_SIZE: i16 = 300;

/// Default number of game-state updates per second for the driving loop.
pub const UPDATES_PER_SECOND: u32 = 10;

/// A cell position on the board: pixel coordinates of the cell's top-left
/// corner. Positions inside the grid universe have both coordinates
/// non-negative multiples of the cell size; during play the head may also
/// stand one step outside, which is what the wall check detects.
#[derive(Clone, Copy, PartialEq, Eq, Structural, Hash, Debug)]
pub struct Position {
    pub x: i16,
    pub y: i16,
}

/// Immutable grid geometry, fixed for a whole run: board width and height
/// in pixels and the edge length of one square cell.
#[derive(Clone, Copy, PartialEq, Eq, Structural, Debug)]
pub struct GridConfig {
    pub width: i16,
    pub height: i16,
    pub cell_size: i16,
}

impl GridConfig {
    /// A usable configuration: at least one cell fits along each axis, and
    /// one cell-sized step beyond either edge still fits in `i16`, so that
    /// moving the head never overflows its coordinates.
    pub open spec fn wf(self) -> bool {
        &&& 0 < self.cell_size
        &&& self.cell_size <= self.width
        &&& self.cell_size <= self.height
        &&& self.width + self.cell_size <= i16::MAX
        &&& self.height + self.cell_size <= i16::MAX
    }

    /// Validates a configuration. A board that cannot hold even one cell,
    /// or whose edges leave no room for a one-step overshoot, is refused:
    /// such a configuration is a fatal setup error, caught before any game
    /// state is built.
    pub fn new(width: i16, height: i16, cell_size: i16) -> (r: Option<GridConfig>)
        ensures
            r is Some <==> (GridConfig { width, height, cell_size }).wf(),
            r is Some ==> r == Some(GridConfig { width, height, cell_size }),
    {
        if 0 < cell_size && cell_size <= width && cell_size <= height
            && width as i32 + cell_size as i32 <= i16::MAX as i32
            && height as i32 + cell_size as i32 <= i16::MAX as i32 {
            Some(GridConfig { width, height, cell_size })
        } else {
            None
        }
    }

    /// The standard configuration: a 300 by 300 board
    /// of 9-pixel cells, updated ten times a second by the driving loop.
    pub fn standard() -> (r: GridConfig)
        ensures
            r == (GridConfig {
                width: WINDOW_WIDTH_SIZE,
                height: WINDOW_HEIGHT_SIZE,
                cell_size: SQUARE_SIZE,
            }),
            r.wf(),
    {
        GridConfig { width: WINDOW_WIDTH_SIZE, height: WINDOW_HEIGHT_SIZE, cell_size: SQUARE_SIZE }
    }

    /// Number of distinct cell columns: x ranges over the multiples of the
    /// cell size in `[0, width - cell_size]`.
    pub open spec fn spec_cols(self) -> int {
        (self.width - self.cell_size) as int / self.cell_size as int + 1
    }

    /// Number of distinct cell rows.
    pub open spec fn spec_rows(self) -> int {
        (self.height - self.cell_size) as int / self.cell_size as int + 1
    }

    /// Computes the number of cell columns.
    pub fn cols(&self) -> (r: usize)
        requires
            self.wf(),
        ensures
            r == self.spec_cols(),
            1 <= r <= i16::MAX,
    {
        let span = (self.width - self.cell_size) as u16;
        let step = self.cell_size as u16;
        (span / step + 1) as usize
    }

    /// Computes the number of cell rows.
    pub fn rows(&self) -> (r: usize)
        requires
            self.wf(),
        ensures
            r == self.spec_rows(),
            1 <= r <= i16::MAX,
    {
        let span = (self.height - self.cell_size) as u16;
        let step = self.cell_size as u16;
        (span / step + 1) as usize
    }
}

/// Whether `p` is a cell of the grid universe for configuration `c`: both
/// coordinates are non-negative multiples of the cell size, and the whole
/// cell fits on the board.
pub open spec fn in_universe(c: GridConfig, p: Position) -> bool {
    &&& 0 <= p.x
    &&& p.x + c.cell_size <= c.width
    &&& p.x as int % c.cell_size as int == 0
    &&& 0 <= p.y
    &&& p.y + c.cell_size <= c.height
    &&& p.y as int % c.cell_size as int == 0
}

/// Whether `p`'s top-left corner lies on the board, i.e. inside
/// `[0, width) x [0, height)`. A move that leaves this region is a wall
/// collision.
pub open spec fn in_board(c: GridConfig, p: Position) -> bool {
    &&& 0 <= p.x
    &&& p.x < c.width
    &&& 0 <= p.y
    &&& p.y < c.height
}

/// A single integer key standing for a position, so that cell membership
/// can be kept in a hash set with exactly-specified behavior. Distinct
/// positions get distinct keys (`lemma_pos_key_injective`).
pub open spec fn pos_key(p: Position) -> u32 {
    ((p.x + 0x8000) * 0x10000 + (p.y + 0x8000)) as u32
}

/// Computes the membership key of a position.
pub fn position_key(p: &Position) -> (k: u32)
    ensures
        k == pos_key(*p),
{
    let xs: u32 = (p.x as i32 + 0x8000) as u32;
    let ys: u32 = (p.y as i32 + 0x8000) as u32;
    xs * 0x10000 + ys
}

/// The cell at index `k` of the column-by-column enumeration of the grid
/// universe: column `k / rows`, row `k % rows`, scaled by the cell size.
spec fn cell_of(c: GridConfig, k: int) -> Position {
    Position {
        x: ((k / c.spec_rows()) * c.cell_size) as i16,
        y: ((k % c.spec_rows()) * c.cell_size) as i16,
    }
}

/// A column index scaled by the cell size gives an x coordinate inside the
/// universe's x range.
proof fn lemma_scale_in_range(q: int, count: int, span: int, step: int)
    requires
        0 < step,
        step <= span,
        count == (span - step) / step + 1,
        0 <= q < count,
    ensures
        0 <= q * step <= span - step,
        (q * step) % step == 0,
{
    lemma_mul_inequality(q, count - 1, step);
    lemma_fundamental_div_mod(span - step, step);
    lemma_mod_bound(span - step, step);
    lemma_mod_multiples_basic(q, step);
}

/// The grid universe, materialized once at startup as an ordered sequence:
/// every valid cell position for the configuration, column by column, each
/// exactly once.
pub fn generate_all_position(c: &GridConfig) -> (r: Vec<Position>)
    requires
        c.wf(),
    ensures
        r@.len() == c.spec_cols() * c.spec_rows(),
        forall|k: int| 0 <= k < r@.len() ==> in_universe(*c, #[trigger] r@[k]),
        forall|p: Position| #[trigger] in_universe(*c, p) ==> r@.contains(p),
        forall|k1: int, k2: int| 0 <= k1 < k2 < r@.len() ==> r@[k1] != r@[k2],
{
    let nx = c.cols();
    let ny = c.rows();
    let s = c.cell_size;
    let mut r: Vec<Position> = Vec::new();
    let mut i: usize = 0;
    let mut x: i16 = 0;
    while i < nx
        invariant
            c.wf(),
            nx == c.spec_cols(),
            ny == c.spec_rows(),
            s == c.cell_size,
            i <= nx,
            x == i * s,
            r@.len() == i * ny,
            forall|k: int| 0 <= k < r@.len() ==> #[trigger] r@[k] == cell_of(*c, k),
        decreases nx - i,
    {
        proof {
            lemma_scale_in_range(i as int, nx as int, c.width as int, s as int);
        }
        let mut j: usize = 0;
        let mut y: i16 = 0;
        while j < ny
            invariant
                c.wf(),
                nx == c.spec_cols(),
                ny == c.spec_rows(),
                s == c.cell_size,
                i < nx,
                j <= ny,
                x == i * s,
                x <= c.width - s,
                y == j * s,
                r@.len() == i * ny + j,
                forall|k: int| 0 <= k < r@.len() ==> #[trigger] r@[k] == cell_of(*c, k),
            decreases ny - j,
        {
            proof {
                lemma_scale_in_range(j as int, ny as int, c.height as int, s as int);
                lemma_fundamental_div_mod_converse(
                    i as int * ny as int + j as int,
                    ny as int,
                    i as int,
                    j as int,
                );
            }
            r.push(Position { x, y });
            y += s;
            j += 1;
            proof {
                assert(j as int * s as int == (j - 1) as int * s as int + s as int)
                    by (nonlinear_arith);
            }
        }
        x += s;
        i += 1;
        proof {
            assert(i as int * ny as int == (i - 1) as int * ny as int + ny as int)
                by (nonlinear_arith);
            assert(i as int * s as int == (i - 1) as int * s as int + s as int)
                by (nonlinear_arith);
        }
    }
    proof {
        let rows = c.spec_rows();
        let cols = c.spec_cols();
        let width = c.width as int;
        let height = c.height as int;
        let step = s as int;
        assert(rows * cols == cols * rows) by (nonlinear_arith);
        assert forall|k: int| 0 <= k < r@.len() implies in_universe(*c, #[trigger] r@[k]) by {
            lemma_multiply_divide_lt(k, rows, cols);
            lemma_div_pos_is_pos(k, rows);
            lemma_mod_bound(k, rows);
            lemma_scale_in_range(k / rows, cols, width, step);
            lemma_scale_in_range(k % rows, rows, height, step);
        }
        assert forall|p: Position| #[trigger] in_universe(*c, p) implies r@.contains(p) by {
            let qx = p.x as int / step;
            let qy = p.y as int / step;
            lemma_fundamental_div_mod(p.x as int, step);
            lemma_fundamental_div_mod(p.y as int, step);
            lemma_div_pos_is_pos(p.x as int, step);
            lemma_div_pos_is_pos(p.y as int, step);
            lemma_fundamental_div_mod(width - step, step);
            lemma_mod_bound(width - step, step);
            lemma_fundamental_div_mod(height - step, step);
            lemma_mod_bound(height - step, step);
            lemma_div_is_ordered(p.x as int, width - step, step);
            lemma_div_is_ordered(p.y as int, height - step, step);
            let k = qx * rows + qy;
            lemma_mul_inequality(qx, cols - 1, rows);
            assert((cols - 1) * rows + rows == cols * rows) by (nonlinear_arith);
            lemma_fundamental_div_mod_converse(k, rows, qx, qy);
            assert(qx * step == step * qx) by (nonlinear_arith);
            assert(qy * step == step * qy) by (nonlinear_arith);
            assert(r@[k] == p);
        }
        assert forall|k1: int, k2: int| 0 <= k1 < k2 < r@.len() implies r@[k1] != r@[k2] by {
            lemma_multiply_divide_lt(k1, rows, cols);
            lemma_multiply_divide_lt(k2, rows, cols);
            lemma_div_pos_is_pos(k1, rows);
            lemma_div_pos_is_pos(k2, rows);
            lemma_mod_bound(k1, rows);
            lemma_mod_bound(k2, rows);
            lemma_scale_in_range(k1 / rows, cols, width, step);
            lemma_scale_in_range(k2 / rows, cols, width, step);
            lemma_scale_in_range(k1 % rows, rows, height, step);
            lemma_scale_in_range(k2 % rows, rows, height, step);
            if r@[k1] == r@[k2] {
                assert(step * (k1 / rows) == step * (k2 / rows)) by (nonlinear_arith)
                    requires (k1 / rows) * step == (k2 / rows) * step;
                assert(step * (k1 % rows) == step * (k2 % rows)) by (nonlinear_arith)
                    requires (k1 % rows) * step == (k2 % rows) * step;
                lemma_mul_equality_converse(step, k1 / rows, k2 / rows);
                lemma_mul_equality_converse(step, k1 % rows, k2 % rows);
                lemma_fundamental_div_mod(k1, rows);
                lemma_fundamental_div_mod(k2, rows);
            }
        }
    }
    r
}

/// A uniformly random cell of the grid universe: a random column and a
/// random row, each scaled by the cell size.
pub fn generate_random_position(c: &GridConfig) -> (r: Position)
    requires
        c.wf(),
    ensures
        in_universe(*c, r),
{
    let nx = c.cols();
    let ny = c.rows();
    let i = random_below(nx);
    let j = random_below(ny);
    proof {
        lemma_scale_in_range(i as int, nx as int, c.width as int, c.cell_size as int);
        lemma_scale_in_range(j as int, ny as int, c.height as int, c.cell_size as int);
    }
    let x = (i as i32 * c.cell_size as i32) as i16;
    let y = (j as i32 * c.cell_size as i32) as i16;
    Position { x, y }
}

/// Law: the position-to-key encoding is injective, so a set of keys speaks
/// for a set of cells exactly.
pub proof fn lemma_pos_key_injective(p: Position, q: Position)
    requires
        pos_key(p) == pos_key(q),
    ensures
        p == q,
{
    let pa = p.x + 0x8000;
    let pb = p.y + 0x8000;
    let qa = q.x + 0x8000;
    let qb = q.y + 0x8000;
    assert(0 <= pa * 0x10000 + pb < 0x100000000) by (nonlinear_arith)
        requires 0 <= pa <= 0xffff && 0 <= pb <= 0xffff;
    assert(0 <= qa * 0x10000 + qb < 0x100000000) by (nonlinear_arith)
        requires 0 <= qa <= 0xffff && 0 <= qb <= 0xffff;
    lemma_fundamental_div_mod_converse(pa * 0x10000 + pb, 0x10000, pa, pb);
    lemma_fundamental_div_mod_converse(qa * 0x10000 + qb, 0x10000, qa, qb);
}

} // verus!
