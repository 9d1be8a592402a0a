//! The encoded symbol: a square matrix of modules, and how it is painted.

use vstd::prelude::*;

verus! {

/// A square boolean matrix as a mathematical value: `size` cells per side,
/// stored row by row in `cells`.
pub ghost struct Matrix {
    pub size: int,
    pub cells: Seq<bool>,
}

impl Matrix {
    /// There is one cell for each place of the square.
    pub open spec fn is_square(self) -> bool {
        0 <= self.size && self.cells.len() == self.size * self.size
    }

    /// The cell in column `x` of row `y`.
    pub open spec fn at(self, x: int, y: int) -> bool {
        self.cells[y * self.size + x]
    }
}

/// One of the two colours of a rendered symbol.
#[derive(Clone, Copy, Debug, PartialEq, Eq, Structural)]
pub enum Fill {
    Black,
    White,
}

/// The colour that a cell of the matrix is painted in: black where the cell
/// is set, white where it is not. With the flags of a symbol, which are set
/// for its light modules, the symbol comes out as its negative.
pub open spec fn fill_of(cell: bool) -> Fill {
    if cell {
        Fill::Black
    } else {
        Fill::White
    }
}

/// One step of drawing a symbol on its target.
#[derive(Clone, Copy, Debug, PartialEq, Eq, Structural)]
pub enum DrawCommand {
    /// Wipe the whole target.
    Clear,
    /// Fill the rectangle of the cell in column `x` of row `y`.
    FillCell { x: usize, y: usize, fill: Fill },
}

/// How a matrix is drawn: the target is cleared first, and then each cell is
/// filled in its colour, row by row from the top, each row from the left.
pub open spec fn blit_commands(matrix: Matrix) -> Seq<DrawCommand> {
    Seq::new(
        (1 + matrix.size * matrix.size) as nat,
        |j: int|
            if j == 0 {
                DrawCommand::Clear
            } else {
                DrawCommand::FillCell {
                    x: ((j - 1) % matrix.size) as usize,
                    y: ((j - 1) / matrix.size) as usize,
                    fill: fill_of(matrix.cells[j - 1]),
                }
            },
    )
}

/// The symbol of one chunk: a square matrix with one flag per module, row by
/// row. A flag is set where the module is a light one.
#[derive(Debug)]
pub struct Symbol {
    size: usize,
    modules: Vec<bool>,
}

impl View for Symbol {
    type V = Matrix;

    closed spec fn view(&self) -> Matrix {
        Matrix { size: self.size as int, cells: self.modules@ }
    }
}

proof fn lemma_cell_index(x: int, y: int, size: int)
    requires
        0 <= x < size,
        0 <= y < size,
    ensures
        0 <= y * size + x < size * size,
        (y * size + x) % size == x,
        (y * size + x) / size == y,
{
    assert(0 <= y * size && y * size + size <= size * size) by (nonlinear_arith)
        requires
            0 <= y < size,
    ;
    vstd::arithmetic::div_mod::lemma_fundamental_div_mod_converse(y * size + x, size, y, x);
}

impl Symbol {
    #[verifier::type_invariant]
    spec fn is_square(self) -> bool {
        self.modules.len() == self.size * self.size
    }

    /// The symbol of `size` modules per side with the flags `modules`, row by
    /// row, if there are exactly `size * size` of them.
    pub fn new(size: usize, modules: Vec<bool>) -> (symbol: Option<Symbol>)
        ensures
            symbol is Some <==> modules@.len() == size * size,
            symbol matches Some(s) ==> s@ == (Matrix { size: size as int, cells: modules@ }),
    {
        let count = modules.len();
        match size.checked_mul(size) {
            Some(area) => {
                if count == area {
                    Some(Symbol { size, modules })
                } else {
                    None
                }
            },
            None => None,
        }
    }

    /// Modules per side.
    pub fn side(&self) -> (size: usize)
        ensures
            size == self@.size,
            self@.is_square(),
    {
        proof {
            use_type_invariant(self);
        }
        self.size
    }

    /// The flags of the modules, row by row.
    pub fn modules(&self) -> (cells: &Vec<bool>)
        ensures
            cells@ == self@.cells,
            self@.is_square(),
    {
        proof {
            use_type_invariant(self);
        }
        &self.modules
    }

    /// The flag of the module in column `x` of row `y`.
    pub fn module_at(&self, x: usize, y: usize) -> (cell: bool)
        requires
            x < self@.size,
            y < self@.size,
        ensures
            cell == self@.at(x as int, y as int),
    {
        proof {
            use_type_invariant(self);
            lemma_cell_index(x as int, y as int, self.size as int);
        }
        self.modules[y * self.size + x]
    }

    /// The colour in which the module in column `x` of row `y` is painted.
    pub fn fill_at(&self, x: usize, y: usize) -> (fill: Fill)
        requires
            x < self@.size,
            y < self@.size,
        ensures
            fill == fill_of(self@.at(x as int, y as int)),
    {
        if self.module_at(x, y) {
            Fill::Black
        } else {
            Fill::White
        }
    }

    /// The commands that draw the symbol: a clear, and then one fill for each
    /// module, row by row.
    pub fn blit_plan(&self) -> (plan: Vec<DrawCommand>)
        ensures
            plan@ == blit_commands(self@),
    {
        proof {
            use_type_invariant(self);
        }
        let size = self.size;
        let mut plan: Vec<DrawCommand> = Vec::new();
        plan.push(DrawCommand::Clear);
        let mut y: usize = 0;
        while y < size
            invariant
                size == self@.size,
                self@.is_square(),
                y <= size,
                plan@.len() == 1 + y * size,
                forall|j: int| 0 <= j < plan@.len() ==> plan@[j] == blit_commands(self@)[j],
            decreases size - y,
        {
            let mut x: usize = 0;
            while x < size
                invariant
                    size == self@.size,
                    self@.is_square(),
                    y < size,
                    x <= size,
                    plan@.len() == 1 + y * size + x,
                    forall|j: int| 0 <= j < plan@.len() ==> plan@[j] == blit_commands(self@)[j],
                decreases size - x,
            {
                proof {
                    lemma_cell_index(x as int, y as int, size as int);
                }
                let fill = self.fill_at(x, y);
                plan.push(DrawCommand::FillCell { x, y, fill });
                x += 1;
            }
            proof {
                assert((y + 1) * size == y * size + size) by (nonlinear_arith);
            }
            y += 1;
        }
        assert(plan@ =~= blit_commands(self@));
        plan
    }
}

} // verus!
