use vstd::prelude::*;
use crate::piece::{Piece, origin_fits};

verus! {

/// Number of columns.
pub const WIDTH: usize = 10;

/// Number of visible rows.
pub const PLAYABLE_HEIGHT: usize = 20;

/// Number of rows in all: the visible ones and a hidden buffer above them.
pub const TOTAL_HEIGHT: usize = 24;

/// The state of one grid cell.
#[derive(Clone, Copy, Debug, PartialEq, Eq, Structural)]
pub enum Cell {
    Empty,
    Filled,
}

/// Whether `(x, y)` lies on the grid.
pub open spec fn in_bounds(x: int, y: int) -> bool {
    0 <= x < WIDTH as int && 0 <= y < TOTAL_HEIGHT as int
}

/// Whether `(x, y)` is on the grid and empty; cells off the grid count as solid.
pub open spec fn cell_free(g: Seq<Seq<Cell>>, x: int, y: int) -> bool {
    in_bounds(x, y) && g[y][x] == Cell::Empty
}

/// Whether every one of `cells` is free.
pub open spec fn placeable(g: Seq<Seq<Cell>>, cells: Seq<(int, int)>) -> bool {
    forall|i: int| 0 <= i < cells.len() ==> cell_free(g, (#[trigger] cells[i]).0, cells[i].1)
}

/// The grid with each of `cells` set to `Filled` and every other cell as it was.
pub open spec fn committed(g: Seq<Seq<Cell>>, cells: Seq<(int, int)>) -> Seq<Seq<Cell>> {
    Seq::new(
        g.len(),
        |y: int|
            Seq::new(
                g[y].len(),
                |x: int|
                    if cells.contains((x, y)) {
                        Cell::Filled
                    } else {
                        g[y][x]
                    },
            ),
    )
}

/// Whether every cell of a row is filled.
pub open spec fn row_full(r: Seq<Cell>) -> bool {
    forall|x: int| 0 <= x < r.len() ==> #[trigger] r[x] == Cell::Filled
}

/// The rows that are not full, bottom to top, in their order.
pub open spec fn kept_rows(g: Seq<Seq<Cell>>) -> Seq<Seq<Cell>>
    decreases g.len(),
{
    if g.len() == 0 {
        g
    } else if row_full(g.last()) {
        kept_rows(g.drop_last())
    } else {
        kept_rows(g.drop_last()).push(g.last())
    }
}

/// The number of full rows.
pub open spec fn full_count(g: Seq<Seq<Cell>>) -> nat
    decreases g.len(),
{
    if g.len() == 0 {
        0
    } else {
        full_count(g.drop_last()) + if row_full(g.last()) {
            1nat
        } else {
            0nat
        }
    }
}

/// A row of `WIDTH` empty cells.
pub open spec fn empty_row() -> Seq<Cell> {
    Seq::new(WIDTH as nat, |x: int| Cell::Empty)
}

/// The grid after removing every full row: the other rows slide down in
/// order and empty rows fill the top.
pub open spec fn cleared(g: Seq<Seq<Cell>>) -> Seq<Seq<Cell>> {
    kept_rows(g) + Seq::new(full_count(g), |i: int| empty_row())
}

/// A grid of `TOTAL_HEIGHT` rows of `WIDTH` cells.
pub open spec fn grid_wf(g: Seq<Seq<Cell>>) -> bool {
    g.len() == TOTAL_HEIGHT as int && forall|y: int|
        0 <= y < g.len() ==> (#[trigger] g[y]).len() == WIDTH as int
}

/// The occupancy grid, row 0 at the bottom.
pub struct Board {
    rows: Vec<Vec<Cell>>,
}

impl View for Board {
    type V = Seq<Seq<Cell>>;

    closed spec fn view(&self) -> Seq<Seq<Cell>> {
        self.rows@.map_values(|r: Vec<Cell>| r@)
    }
}

impl Board {
    /// The grid has `TOTAL_HEIGHT` rows of `WIDTH` cells.
    pub open spec fn wf(&self) -> bool {
        grid_wf(self@)
    }

    /// Each stored row's contents is the matching row of the view.
    proof fn lemma_rows(&self)
        ensures
            self@.len() == self.rows@.len(),
            forall|y: int| 0 <= y < self.rows@.len() ==> #[trigger] self.rows@[y]@ == self@[y],
    {
    }

    /// An empty board.
    pub fn new() -> (b: Board)
        ensures
            b.wf(),
            forall|x: int, y: int| in_bounds(x, y) ==> #[trigger] b@[y][x] == Cell::Empty,
    {
        let mut rows: Vec<Vec<Cell>> = Vec::new();
        let mut y: usize = 0;
        while y < TOTAL_HEIGHT
            invariant
                y <= TOTAL_HEIGHT,
                rows@.len() == y,
                forall|j: int| 0 <= j < y ==> (#[trigger] rows@[j])@ == empty_row(),
            decreases TOTAL_HEIGHT - y,
        {
            rows.push(new_empty_row());
            y += 1;
        }
        let b = Board { rows };
        assert(b.wf());
        b
    }

    /// The state of an on-grid cell.
    pub fn cell(&self, x: usize, y: usize) -> (c: Cell)
        requires
            self.wf(),
            in_bounds(x as int, y as int),
        ensures
            c == self@[y as int][x as int],
    {
        proof {
            self.lemma_rows();
        }
        self.rows[y][x]
    }

    /// Whether `(x, y)` is on the grid and empty.
    pub fn is_cell_free(&self, x: i32, y: i32) -> (r: bool)
        requires
            self.wf(),
        ensures
            r == cell_free(self@, x as int, y as int),
    {
        if x < 0 || x >= WIDTH as i32 || y < 0 || y >= TOTAL_HEIGHT as i32 {
            return false;
        }
        proof {
            self.lemma_rows();
        }
        self.rows[y as usize][x as usize] == Cell::Empty
    }

    /// Whether every cell of the piece is on the grid and empty.
    pub fn can_place(&self, piece: &Piece) -> (r: bool)
        requires
            self.wf(),
            origin_fits(*piece),
        ensures
            r == placeable(self@, piece.cells()),
    {
        let cells = piece.occupied_cells();
        let mut i: usize = 0;
        while i < 4
            invariant
                self.wf(),
                i <= 4,
                cells@.len() == 4,
                forall|j: int|
                    0 <= j < 4 ==> (#[trigger] cells@[j]).0 as int == piece.cells()[j].0
                        && cells@[j].1 as int == piece.cells()[j].1,
                forall|j: int|
                    0 <= j < i ==> cell_free(self@, (#[trigger] piece.cells()[j]).0, piece.cells()[j].1),
            decreases 4 - i,
        {
            let (x, y) = cells[i];
            if !self.is_cell_free(x, y) {
                assert(!cell_free(self@, piece.cells()[i as int].0, piece.cells()[i as int].1));
                return false;
            }
            i += 1;
        }
        true
    }

    /// Marks every cell of the piece as filled; the caller has checked that it can be placed.
    pub fn commit(&mut self, piece: &Piece)
        requires
            old(self).wf(),
            origin_fits(*piece),
            placeable(old(self)@, piece.cells()),
        ensures
            final(self).wf(),
            final(self)@ == committed(old(self)@, piece.cells()),
            forall|x: int, y: int|
                in_bounds(x, y) ==> #[trigger] final(self)@[y][x] == if piece.cells().contains((x, y)) {
                    Cell::Filled
                } else {
                    old(self)@[y][x]
                },
    {
        let cells = piece.occupied_cells();
        let ghost pc = piece.cells();
        let mut i: usize = 0;
        while i < 4
            invariant
                self.wf(),
                i <= 4,
                cells@.len() == 4,
                pc.len() == 4,
                pc == piece.cells(),
                placeable(old(self)@, pc),
                forall|j: int|
                    0 <= j < 4 ==> (#[trigger] cells@[j]).0 as int == pc[j].0 && cells@[j].1 as int
                        == pc[j].1,
                forall|x: int, y: int|
                    in_bounds(x, y) ==> #[trigger] self@[y][x] == if pc.take(i as int).contains((x, y)) {
                        Cell::Filled
                    } else {
                        old(self)@[y][x]
                    },
            decreases 4 - i,
        {
            let (x, y) = cells[i];
            assert(cell_free(old(self)@, pc[i as int].0, pc[i as int].1));
            proof {
                self.lemma_rows();
            }
            let ghost before = self@;
            self.rows[y as usize][x as usize] = Cell::Filled;
            proof {
                self.lemma_rows();
                assert(self@ == before.update(y as int, before[y as int].update(x as int, Cell::Filled)));
            }
            assert forall|xx: int, yy: int| in_bounds(xx, yy) implies #[trigger] self@[yy][xx] == if pc.take(i + 1).contains((xx, yy)) {
                Cell::Filled
            } else {
                old(self)@[yy][xx]
            } by {
                let t = pc.take(i as int);
                let t1 = pc.take(i + 1);
                assert(t1 == t.push(pc[i as int]));
                if (xx, yy) == pc[i as int] {
                    assert(t1[i as int] == (xx, yy));
                } else if t.contains((xx, yy)) {
                    let j = choose|j: int| 0 <= j < t.len() && t[j] == (xx, yy);
                    assert(t1[j] == (xx, yy));
                } else if t1.contains((xx, yy)) {
                    let j = choose|j: int| 0 <= j < t1.len() && t1[j] == (xx, yy);
                    assert(t[j] == (xx, yy));
                }
            }
            i += 1;
        }
        assert(pc.take(4) == pc);
        proof {
            self.lemma_rows();
        }
        assert(self@ =~~= committed(old(self)@, pc));
    }

    /// Removes every full row; the rows above each one slide down and empty rows
    /// fill the top. Returns the number of rows removed.
    pub fn clear_full_lines(&mut self) -> (n: u32)
        requires
            old(self).wf(),
        ensures
            final(self).wf(),
            final(self)@ == cleared(old(self)@),
            n == full_count(old(self)@),
    {
        let ghost g = self@;
        let mut rows: Vec<Vec<Cell>> = Vec::new();
        std::mem::swap(&mut rows, &mut self.rows);
        let mut kept: Vec<Vec<Cell>> = Vec::new();
        let mut n: u32 = 0;
        let mut y: usize = 0;
        while y < TOTAL_HEIGHT
            invariant
                y <= TOTAL_HEIGHT,
                grid_wf(g),
                rows@.len() == TOTAL_HEIGHT,
                forall|j: int| y <= j < TOTAL_HEIGHT ==> #[trigger] rows@[j]@ == g[j],
                kept@.map_values(|r: Vec<Cell>| r@) == kept_rows(g.take(y as int)),
                n as int == full_count(g.take(y as int)),
                n <= y,
            decreases TOTAL_HEIGHT - y,
        {
            let mut row: Vec<Cell> = Vec::new();
            std::mem::swap(&mut row, &mut rows[y]);
            assert(g.take(y + 1).drop_last() == g.take(y as int));
            assert(g.take(y + 1).last() == g[y as int]);
            if row_is_full(&row) {
                n += 1;
            } else {
                let ghost before = kept@;
                kept.push(row);
                assert(kept@.map_values(|r: Vec<Cell>| r@) =~= before.map_values(|r: Vec<Cell>| r@).push(
                    g[y as int],
                ));
            }
            y += 1;
        }
        assert(g.take(TOTAL_HEIGHT as int) == g);
        proof {
            lemma_kept_rows(g);
        }
        let mut k: u32 = 0;
        while k < n
            invariant
                k <= n,
                n as int == full_count(g),
                kept@.map_values(|r: Vec<Cell>| r@) == kept_rows(g) + Seq::new(k as nat, |i: int| empty_row()),
            decreases n - k,
        {
            let ghost before = kept@;
            kept.push(new_empty_row());
            assert(kept@.map_values(|r: Vec<Cell>| r@) =~= before.map_values(|r: Vec<Cell>| r@).push(
                empty_row(),
            ));
            assert(kept_rows(g) + Seq::new((k + 1) as nat, |i: int| empty_row()) =~= (kept_rows(g)
                + Seq::new(k as nat, |i: int| empty_row())).push(empty_row()));
            k += 1;
        }
        self.rows = kept;
        assert(self@ == cleared(g));
        assert forall|y: int| 0 <= y < self@.len() implies (#[trigger] self@[y]).len() == WIDTH as int by {
            if y < kept_rows(g).len() {
                let j = choose|j: int| 0 <= j < g.len() && g[j] == kept_rows(g)[y];
                assert(g[j].len() == WIDTH as int);
            }
        }
        n
    }
}

/// The kept rows and the full rows together account for every row, and each kept
/// row is one of the grid's rows and is not full.
pub proof fn lemma_kept_rows(g: Seq<Seq<Cell>>)
    ensures
        kept_rows(g).len() + full_count(g) == g.len(),
        forall|i: int|
            0 <= i < kept_rows(g).len() ==> !row_full(#[trigger] kept_rows(g)[i]) && exists|j: int|
                0 <= j < g.len() && g[j] == kept_rows(g)[i],
    decreases g.len(),
{
    if g.len() > 0 {
        let d = g.drop_last();
        lemma_kept_rows(d);
        assert forall|i: int| 0 <= i < kept_rows(g).len() implies !row_full(
            #[trigger] kept_rows(g)[i],
        ) && exists|j: int| 0 <= j < g.len() && g[j] == kept_rows(g)[i] by {
            if i < kept_rows(d).len() {
                let j = choose|j: int| 0 <= j < d.len() && d[j] == kept_rows(d)[i];
                assert(g[j] == kept_rows(g)[i]);
            } else {
                assert(g[g.len() - 1] == kept_rows(g)[i]);
            }
        }
    }
}

proof fn lemma_kept_rows_add(a: Seq<Seq<Cell>>, b: Seq<Seq<Cell>>)
    ensures
        kept_rows(a + b) == kept_rows(a) + kept_rows(b),
        full_count(a + b) == full_count(a) + full_count(b),
    decreases b.len(),
{
    if b.len() == 0 {
        assert(a + b == a);
        assert(kept_rows(a) + kept_rows(b) == kept_rows(a));
    } else {
        assert((a + b).drop_last() == a + b.drop_last());
        assert((a + b).last() == b.last());
        lemma_kept_rows_add(a, b.drop_last());
        assert(kept_rows(a) + kept_rows(b.drop_last()).push(b.last()) == (kept_rows(a) + kept_rows(
            b.drop_last(),
        )).push(b.last()));
    }
}

/// Clearing keeps every row that was not full, with its contents, and moves it
/// down by the number of full rows below it; so the kept rows keep their order.
pub proof fn lemma_clear_shifts_rows(g: Seq<Seq<Cell>>, y: int)
    requires
        grid_wf(g),
        0 <= y < g.len(),
        !row_full(g[y]),
    ensures
        full_count(g.take(y)) <= y,
        cleared(g)[y - full_count(g.take(y))] == g[y],
{
    let lo = g.take(y);
    let one = seq![g[y]];
    let hi = g.skip(y + 1);
    assert(g == lo + (one + hi));
    lemma_kept_rows_add(lo, one + hi);
    lemma_kept_rows_add(one, hi);
    assert(one.drop_last().len() == 0);
    assert(one.last() == g[y]);
    assert(kept_rows(one.drop_last()).len() == 0);
    assert(kept_rows(one) =~= seq![g[y]]);
    lemma_kept_rows(lo);
    lemma_kept_rows(g);
    assert(kept_rows(g)[kept_rows(lo).len() as int] == g[y]);
}

/// After clearing, no row is full and the top `full_count` rows are empty.
pub proof fn lemma_cleared_rows(g: Seq<Seq<Cell>>)
    requires
        grid_wf(g),
    ensures
        grid_wf(cleared(g)),
        forall|y: int| 0 <= y < g.len() ==> !row_full(#[trigger] cleared(g)[y]),
        forall|y: int|
            g.len() - full_count(g) <= y < g.len() ==> #[trigger] cleared(g)[y] == empty_row(),
{
    lemma_kept_rows(g);
    let k = kept_rows(g);
    assert(!row_full(empty_row())) by {
        assert(empty_row()[0] == Cell::Empty);
    }
    assert forall|y: int| 0 <= y < g.len() implies !row_full(#[trigger] cleared(g)[y])
        && cleared(g)[y].len() == WIDTH as int by {
        if y < k.len() {
            let j = choose|j: int| 0 <= j < g.len() && g[j] == k[y];
            assert(g[j].len() == WIDTH as int);
        }
    }
}

/// Whether every cell of the row is filled.
fn row_is_full(r: &Vec<Cell>) -> (b: bool)
    ensures
        b == row_full(r@),
{
    let mut x: usize = 0;
    while x < r.len()
        invariant
            x <= r@.len(),
            forall|j: int| 0 <= j < x ==> #[trigger] r@[j] == Cell::Filled,
        decreases r@.len() - x,
    {
        if r[x] != Cell::Filled {
            return false;
        }
        x += 1;
    }
    true
}

fn new_empty_row() -> (r: Vec<Cell>)
    ensures
        r@ == empty_row(),
{
    let mut r: Vec<Cell> = Vec::new();
    let mut x: usize = 0;
    while x < WIDTH
        invariant
            x <= WIDTH,
            r@.len() == x,
            forall|j: int| 0 <= j < x ==> #[trigger] r@[j] == Cell::Empty,
        decreases WIDTH - x,
    {
        r.push(Cell::Empty);
        x += 1;
    }
    assert(r@ == empty_row());
    r
}

} // verus!
