//! A square grid of colored cells.
use crate::color::Color;
use vstd::prelude::*;

verus! {

/// A square tile of `size * size` cells, stored row by row
/// (the cell `(x, y)` is at `x + size * y`).
pub struct Tile {
    size: u16,
    content: Vec<Color>,
}

impl Tile {
    #[verifier::type_invariant]
    spec fn inv(self) -> bool {
        self.content@.len() == self.size * self.size
    }

    /// Edge length of the tile, in cells.
    pub closed spec fn edge(self) -> nat {
        self.size as nat
    }

    /// The cells, row by row.
    pub closed spec fn cells(self) -> Seq<Color> {
        self.content@
    }

    /// The color of the cell in column `x` and row `y`.
    pub open spec fn cell(self, x: int, y: int) -> Color {
        self.cells()[x + self.edge() * y]
    }

    /// Builds a tile of edge `size` from its cells, row by row.
    pub fn new(size: u16, content: Vec<Color>) -> (t: Self)
        requires
            content@.len() == size * size,
        ensures
            t.edge() == size,
            t.cells() == content@,
    {
        Tile { size, content }
    }

    /// Edge length of the tile (its width and its height).
    pub fn size(&self) -> (r: u16)
        ensures
            r == self.edge(),
    {
        self.size
    }

    /// The color of the cell in column `x` and row `y`.
    pub fn get(&self, x: u16, y: u16) -> (r: &Color)
        requires
            x < self.edge(),
            y < self.edge(),
        ensures
            *r == self.cell(x as int, y as int),
    {
        let cell_count = self.content.len();
        proof {
            use_type_invariant(self);
            assert(0 <= self.size * y && x + self.size * y < self.size * self.size)
                by (nonlinear_arith)
                requires
                    x < self.size,
                    y < self.size,
            ;
            assert(x + self.size * y < cell_count);
        }
        &self.content[x as usize + self.size as usize * y as usize]
    }
}

impl std::ops::Index<(u16, u16)> for Tile {
    type Output = Color;

    /// The color of the cell in column `index.0` and row `index.1`.
    fn index(&self, index: (u16, u16)) -> (r: &Color)
        ensures
            *r == self.cell(index.0 as int, index.1 as int),
    {
        self.get(index.0, index.1)
    }
}

impl vstd::std_specs::core::IndexSpecImpl<(u16, u16)> for Tile {
    open spec fn index_req(&self, index: &(u16, u16)) -> bool {
        index.0 < self.edge() && index.1 < self.edge()
    }
}

} // verus!
