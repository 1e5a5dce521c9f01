//! A worksheet's used range: a rectangle of cells anchored at a sheet position.
use vstd::prelude::*;
use vstd::arithmetic::div_mod::{lemma_fundamental_div_mod, lemma_fundamental_div_mod_converse, lemma_mod_bound};

verus! {

/// One cell: either empty, or the text that the cell's value displays as.
#[derive(Debug)]
pub enum Cell {
    Empty,
    Value(String),
}

impl Cell {
    /// The text of the cell; an empty cell displays as the empty text.
    pub open spec fn text(self) -> Seq<char> {
        match self {
            Cell::Empty => Seq::empty(),
            Cell::Value(s) => s@,
        }
    }

    pub fn is_empty(&self) -> (b: bool)
        ensures
            b == (*self is Empty),
    {
        match self {
            Cell::Empty => true,
            Cell::Value(_) => false,
        }
    }

    /// The text of the cell as a new string.
    pub fn to_text(&self) -> (s: String)
        ensures
            s@ == self.text(),
    {
        match self {
            Cell::Empty => String::new(),
            Cell::Value(v) => v.clone(),
        }
    }
}

/// The texts of a row of cells.
pub open spec fn row_texts(row: Seq<Cell>) -> Seq<Seq<char>> {
    row.map_values(|c: Cell| c.text())
}

/// The cell at position `f` when the rows, each `width` long, are laid out one
/// after the other.
pub open spec fn flat_cell(cells: Seq<Seq<Cell>>, width: nat, f: int) -> Option<Cell> {
    if width > 0 && 0 <= f < cells.len() * width {
        Some(cells[f / width as int][f % width as int])
    } else {
        None
    }
}

/// The text at position `f` of the laid-out cells; the empty text past the end.
pub open spec fn flat_text(cells: Seq<Seq<Cell>>, width: nat, f: int) -> Seq<char> {
    match flat_cell(cells, width, f) {
        Some(c) => c.text(),
        None => Seq::empty(),
    }
}

/// Inside the rectangle, the laid-out position of row `r` and column `c` holds
/// the cell of that row and column.
pub proof fn lemma_flat_cell_inside(cells: Seq<Seq<Cell>>, width: nat, r: int, c: int)
    requires
        0 <= r < cells.len(),
        0 <= c < width,
    ensures
        r * width + c < cells.len() * width,
        flat_cell(cells, width, r * width + c) == Some(cells[r][c]),
{
    lemma_fundamental_div_mod_converse(r * width + c, width as int, r, c);
    assert(r * width + c < cells.len() * width) by (nonlinear_arith)
        requires
            r < cells.len(),
            c < width,
            0 <= r,
    ;
}

/// A rectangle of cells. `start` is the sheet position (row, column) of its top
/// left cell; positions inside the grid are counted from there.
#[derive(Debug)]
pub struct Grid {
    start_row: u32,
    start_col: u32,
    width: usize,
    rows: Vec<Vec<Cell>>,
}

impl Grid {
    /// The rows of the grid, top to bottom.
    pub closed spec fn cells(self) -> Seq<Seq<Cell>> {
        self.rows@.map_values(|r: Vec<Cell>| r@)
    }

    /// The number of columns.
    pub closed spec fn width_spec(self) -> nat {
        self.width as nat
    }

    /// The sheet position of the top left cell.
    pub closed spec fn start(self) -> (u32, u32) {
        (self.start_row, self.start_col)
    }

    /// Every row has the grid's width, a grid with rows is at least one column wide,
    /// the number of cells fits in `usize`, and every cell has a sheet position
    /// that fits in `u32`. Every grid is so: `Grid::new` makes only such grids.
    #[verifier::type_invariant]
    pub open spec fn wf(self) -> bool {
        &&& forall|i: int| 0 <= i < self.cells().len() ==> #[trigger] self.cells()[i].len() == self.width_spec()
        &&& self.cells().len() > 0 ==> self.width_spec() > 0
        &&& self.cells().len() * self.width_spec() <= usize::MAX
        &&& self.cells().len() > 0 ==> self.start().0 + self.cells().len() - 1 <= u32::MAX
        &&& self.cells().len() > 0 ==> self.start().1 + self.width_spec() - 1 <= u32::MAX
    }

    /// The cell at sheet position (`r`, `c`), if the grid covers it.
    pub open spec fn value_at(self, r: int, c: int) -> Option<Cell> {
        let (sr, sc) = self.start();
        if self.cells().len() > 0 && sr <= r < sr + self.cells().len() && sc <= c < sc
            + self.width_spec() {
            Some(self.cells()[r - sr][c - sc])
        } else {
            None
        }
    }

    /// A grid anchored at (`start_row`, `start_col`) holding `rows`; `None` when the
    /// rows differ in length, are empty, or reach past the last sheet position.
    pub fn new(start_row: u32, start_col: u32, rows: Vec<Vec<Cell>>) -> (r: Option<Grid>)
        ensures
            r matches Some(g) ==> g.wf() && g.cells() == rows@.map_values(|r: Vec<Cell>| r@)
                && g.start() == (start_row, start_col),
            r is None <==> !(rows@.len() > 0 ==> {
                &&& rows@[0].len() > 0
                &&& forall|i: int| 0 <= i < rows@.len() ==> #[trigger] rows@[i].len() == rows@[0].len()
                &&& rows@.len() * rows@[0].len() <= usize::MAX
                &&& start_row + rows@.len() - 1 <= u32::MAX
                &&& start_col + rows@[0].len() - 1 <= u32::MAX
            }),
    {
        let height = rows.len();
        if height == 0 {
            let g = Grid { start_row, start_col, width: 0, rows };
            assert(g.cells() =~= g.rows@.map_values(|r: Vec<Cell>| r@));
            return Some(g);
        }
        let width = rows[0].len();
        if width == 0 {
            return None;
        }
        if height.checked_mul(width).is_none() {
            return None;
        }
        if ((u32::MAX - start_row) as usize) < height - 1 {
            return None;
        }
        if ((u32::MAX - start_col) as usize) < width - 1 {
            return None;
        }
        let mut i: usize = 0;
        while i < height
            invariant
                height == rows@.len(),
                width == rows@[0].len(),
                i <= height,
                forall|j: int| 0 <= j < i ==> #[trigger] rows@[j].len() == width,
            decreases height - i,
        {
            if rows[i].len() != width {
                return None;
            }
            i = i + 1;
        }
        let ghost cv = rows@.map_values(|r: Vec<Cell>| r@);
        assert forall|j: int| 0 <= j < cv.len() implies #[trigger] cv[j].len() == width by {
            assert(rows@[j].len() == width);
            assert(cv[j] == rows@[j]@);
        }
        assert(cv.len() * width <= usize::MAX);
        let g = Grid { start_row, start_col, width, rows };
        assert(g.cells() =~= g.rows@.map_values(|r: Vec<Cell>| r@));
        Some(g)
    }

    /// The number of rows.
    pub fn height(&self) -> (n: usize)
        ensures
            n == self.cells().len(),
    {
        self.rows.len()
    }

    /// The number of columns.
    pub fn width(&self) -> (n: usize)
        ensures
            n == self.width_spec(),
    {
        self.width
    }

    /// The sheet position of the top left cell.
    pub fn start_position(&self) -> (p: (u32, u32))
        ensures
            p == self.start(),
    {
        (self.start_row, self.start_col)
    }

    /// Row `r`, counted from the top of the grid.
    pub fn row(&self, r: usize) -> (row: &Vec<Cell>)
        requires
            r < self.cells().len(),
        ensures
            row@ == self.cells()[r as int],
    {
        &self.rows[r]
    }

    /// The cell at row `r` and column `c`, counted from the top left of the grid,
    /// found where the cells laid out row after row put it: a column past the
    /// last one reads on into the following rows.
    pub fn get(&self, r: usize, c: usize) -> (cell: Option<&Cell>)
        requires
            r * self.width_spec() + c <= usize::MAX,
        ensures
            match cell {
                Some(x) => flat_cell(self.cells(), self.width_spec(), r * self.width_spec() + c) == Some(*x),
                None => flat_cell(self.cells(), self.width_spec(), r * self.width_spec() + c) is None,
            },
    {
        proof {
            use_type_invariant(self);
        }
        let w = self.width;
        let h = self.rows.len();
        if w == 0 {
            return None;
        }
        let f = r * w + c;
        if f / w < h {
            proof {
                lemma_mod_bound(f as int, w as int);
                lemma_fundamental_div_mod(f as int, w as int);
                assert(self.cells()[(f / w) as int].len() == self.width_spec());
                assert(f < h * w) by (nonlinear_arith)
                    requires
                        f == w * (f / w) + f % w,
                        f % w < w,
                        f / w < h,
                        0 <= f / w,
                ;
            }
            Some(&self.rows[f / w][f % w])
        } else {
            proof {
                lemma_fundamental_div_mod(f as int, w as int);
                lemma_mod_bound(f as int, w as int);
                assert(f >= h * w) by (nonlinear_arith)
                    requires
                        f == w * (f / w) + f % w,
                        f % w >= 0,
                        f / w >= h,
                        w > 0,
                ;
            }
            None
        }
    }

    /// The cell at sheet position (`r`, `c`), if the grid covers it.
    pub fn get_value(&self, r: u32, c: u32) -> (cell: Option<&Cell>)
        ensures
            match cell {
                Some(x) => self.value_at(r as int, c as int) == Some(*x),
                None => self.value_at(r as int, c as int) is None,
            },
    {
        proof {
            use_type_invariant(self);
        }
        if self.rows.len() == 0 || r < self.start_row || c < self.start_col {
            return None;
        }
        let dr = (r - self.start_row) as usize;
        let dc = (c - self.start_col) as usize;
        if dr < self.rows.len() && dc < self.width {
            assert(self.cells()[dr as int].len() == self.width_spec());
            Some(&self.rows[dr][dc])
        } else {
            None
        }
    }
}

} // verus!
