use vstd::prelude::*;

use crate::export::{pretty_records_json, records_json};
use crate::sampler::SampleError;

verus! {

/// Number of rows (and of columns) of the stored grid.
pub const GRID_SIDE: usize = 5;

/// Number of cells of the stored grid.
pub const GRID_CELLS: usize = 25;

/// The side of the square that a generation fills.
#[derive(Debug, Clone, Copy, PartialEq, Eq, Structural)]
pub enum FieldSize {
    Three,
    Four,
    Five,
}

impl FieldSize {
    pub open spec fn side_spec(self) -> int {
        match self {
            FieldSize::Three => 3,
            FieldSize::Four => 4,
            FieldSize::Five => 5,
        }
    }

    /// How many cards a generation of this size draws.
    pub open spec fn cells_spec(self) -> int {
        self.side_spec() * self.side_spec()
    }

    /// First row and column of the filled square: a 3x3 board is centred,
    /// a 4x4 board sits in the top-left corner.
    pub open spec fn origin_spec(self) -> int {
        match self {
            FieldSize::Three => 1,
            _ => 0,
        }
    }

    pub fn side(&self) -> (r: usize)
        ensures
            r == self.side_spec(),
    {
        match self {
            FieldSize::Three => 3,
            FieldSize::Four => 4,
            FieldSize::Five => 5,
        }
    }

    pub fn num_cells(&self) -> (r: usize)
        ensures
            r == self.cells_spec(),
    {
        match self {
            FieldSize::Three => 9,
            FieldSize::Four => 16,
            FieldSize::Five => 25,
        }
    }

    /// The size whose side is `side`; any side but 3, 4 or 5 is refused.
    pub fn from_side(side: usize) -> (r: Result<FieldSize, SampleError>)
        ensures
            (3 <= side <= 5) <==> r is Ok,
            r is Ok ==> r->Ok_0.side_spec() == side,
            r is Err ==> r->Err_0 == SampleError::InvalidBoardSize,
    {
        if side == 3 {
            Ok(FieldSize::Three)
        } else if side == 4 {
            Ok(FieldSize::Four)
        } else if side == 5 {
            Ok(FieldSize::Five)
        } else {
            Err(SampleError::InvalidBoardSize)
        }
    }
}

impl Default for FieldSize {
    fn default() -> (r: FieldSize)
        ensures
            r == FieldSize::Five,
    {
        FieldSize::Five
    }
}

/// Linear grid index of the `j`-th filled cell of a board of `size`.
/// Cells are taken column by column (`column * 5 + row`) inside the square
/// that starts at the size's origin.
pub open spec fn cell_of(size: FieldSize, j: int) -> int {
    let s = size.side_spec();
    let o = size.origin_spec();
    (o + j / s) * 5 + (o + j % s)
}

/// Whether grid index `i` lies in the square that a board of `size` fills.
pub open spec fn in_region(size: FieldSize, i: int) -> bool {
    let s = size.side_spec();
    let o = size.origin_spec();
    &&& 0 <= i < 25
    &&& o <= i / 5 < o + s
    &&& o <= i % 5 < o + s
}

/// Position, in fill order, of the in-region grid index `i`.
pub open spec fn slot_of(size: FieldSize, i: int) -> int {
    let s = size.side_spec();
    let o = size.origin_spec();
    (i / 5 - o) * s + (i % 5 - o)
}

/// The grid `old` after the filled square of `size` received `texts`, in
/// fill order; cells outside the square keep their text.
pub open spec fn filled(old: Seq<Seq<char>>, size: FieldSize, texts: Seq<Seq<char>>) -> Seq<Seq<char>> {
    Seq::new(
        GRID_CELLS as nat,
        |i: int|
            if in_region(size, i) {
                texts[slot_of(size, i)]
            } else {
                old[i]
            },
    )
}

/// `old` after the first `count` cells of the fill order received their text
/// from `texts`.
pub open spec fn filled_upto(
    old: Seq<Seq<char>>,
    size: FieldSize,
    texts: Seq<Seq<char>>,
    count: int,
) -> Seq<Seq<char>> {
    Seq::new(
        GRID_CELLS as nat,
        |i: int|
            if in_region(size, i) && slot_of(size, i) < count {
                texts[slot_of(size, i)]
            } else {
                old[i]
            },
    )
}

/// The `j`-th cell of the fill order lies in the square, on the grid, and has
/// position `j`.
pub proof fn lemma_cell_of(size: FieldSize, j: int)
    requires
        0 <= j < size.cells_spec(),
    ensures
        0 <= cell_of(size, j) < 25,
        in_region(size, cell_of(size, j)),
        slot_of(size, cell_of(size, j)) == j,
{
    let s = size.side_spec();
    let o = size.origin_spec();
    let c = o + j / s;
    let r = o + j % s;
    assert(0 <= j / s < s && 0 <= j % s < s && j == (j / s) * s + j % s) by (nonlinear_arith)
        requires
            0 <= j < s * s,
            s > 0,
    ;
    assert(0 <= r < 5 && 0 <= c < 5);
    assert((c * 5 + r) / 5 == c && (c * 5 + r) % 5 == r) by (nonlinear_arith)
        requires
            0 <= r < 5,
            0 <= c,
    ;
}

/// Every cell of the square has a position in the fill order, and that
/// position leads back to the cell.
pub proof fn lemma_slot_of(size: FieldSize, i: int)
    requires
        in_region(size, i),
    ensures
        0 <= slot_of(size, i) < size.cells_spec(),
        cell_of(size, slot_of(size, i)) == i,
{
    let s = size.side_spec();
    let a = i / 5 - size.origin_spec();
    let b = i % 5 - size.origin_spec();
    assert(0 <= a * s + b < s * s && (a * s + b) / s == a && (a * s + b) % s == b) by (nonlinear_arith)
        requires
            0 <= a < s,
            0 <= b < s,
    ;
}

/// The `j`-th cell of the fill order, as `cell_of` gives it.
pub fn cell_index(size: FieldSize, j: usize) -> (r: usize)
    requires
        j < size.cells_spec(),
    ensures
        r == cell_of(size, j as int),
        r < GRID_CELLS,
{
    proof {
        lemma_cell_of(size, j as int);
    }
    let s = size.side();
    let o: usize = match size {
        FieldSize::Three => 1,
        _ => 0,
    };
    (o + j / s) * GRID_SIDE + (o + j % s)
}

/// The exported form of a board with cells `cells`: one `{"name": text}`
/// record per cell, by linear index, as pretty-printed JSON.
pub open spec fn export_of(cells: Seq<Seq<char>>) -> Seq<char> {
    pretty_records_json("name"@, cells)
}

/// A 5x5 grid of cell texts, stored column by column.
pub struct Board {
    cells: Vec<String>,
}

impl Board {
    #[verifier::type_invariant]
    spec fn inv(self) -> bool {
        self.cells@.len() == GRID_CELLS
    }

    pub closed spec fn text_at(&self, i: int) -> Seq<char> {
        self.cells@[i]@
    }

    /// The texts of the 25 cells, by linear index.
    pub open spec fn view(&self) -> Seq<Seq<char>> {
        Seq::new(GRID_CELLS as nat, |i: int| self.text_at(i))
    }

    /// A board whose cells are all blank.
    pub fn new() -> (r: Board)
        ensures
            r.view() == Seq::new(GRID_CELLS as nat, |i: int| Seq::<char>::empty()),
    {
        let mut cells: Vec<String> = Vec::new();
        while cells.len() < GRID_CELLS
            invariant
                cells@.len() <= GRID_CELLS,
                forall|i: int| 0 <= i < cells@.len() ==> (#[trigger] cells@[i])@ == Seq::<char>::empty(),
            decreases GRID_CELLS - cells@.len(),
        {
            cells.push(String::new());
        }
        let r = Board { cells };
        assert(r.view() =~= Seq::new(GRID_CELLS as nat, |i: int| Seq::<char>::empty()));
        r
    }

    /// The text of cell `i`.
    pub fn get(&self, i: usize) -> (r: String)
        requires
            i < GRID_CELLS,
        ensures
            r@ == self.view()[i as int],
    {
        proof {
            use_type_invariant(self);
        }
        self.cells[i].clone()
    }

    /// Replaces the text of cell `i`.
    pub fn set(&mut self, i: usize, text: String)
        requires
            i < GRID_CELLS,
        ensures
            final(self).view() == old(self).view().update(i as int, text@),
        no_unwind
    {
        proof {
            use_type_invariant(&*self);
        }
        self.cells[i] = text;
        assert(self.view() =~= old(self).view().update(i as int, text@));
    }

    /// Blanks every cell.
    pub fn clear(&mut self)
        ensures
            final(self).view() == Seq::new(GRID_CELLS as nat, |i: int| Seq::<char>::empty()),
    {
        *self = Board::new();
    }

    /// The texts of all cells, by linear index.
    pub fn texts(&self) -> (r: Vec<String>)
        ensures
            r@.len() == GRID_CELLS,
            forall|i: int| 0 <= i < GRID_CELLS ==> (#[trigger] r@[i])@ == self.view()[i],
    {
        proof {
            use_type_invariant(self);
        }
        self.cells.clone()
    }

    /// The board as its exported JSON document.
    pub fn to_json(&self) -> (r: String)
        ensures
            r@ == export_of(self.view()),
    {
        let texts = self.texts();
        proof {
            assert(texts@.map_values(|v: String| v@) =~= self.view());
        }
        records_json("name", &texts)
    }
}

/// Exporting depends on the cells alone: exporting the same board twice,
/// with no change in between, gives identical text.
pub proof fn lemma_export_repeatable(first: Board, second: Board)
    requires
        first.view() == second.view(),
    ensures
        export_of(first.view()) == export_of(second.view()),
{
}

} // verus!
