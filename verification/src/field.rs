use vstd::prelude::*;

verus! {

/// Bound on a field's cell size and half-extent in cells, so that every
/// world coordinate and step stays well inside `i64`.
pub const MAX_SPAN: i64 = 0x4000_0000;

/// Bound on world coordinates and step sizes: `MAX_SPAN * MAX_SPAN`.
pub const MAX_COORD: i64 = 0x1000_0000_0000_0000;

/// The play field: a square spanning `half_cells` grid cells on each side of
/// the origin along both axes, each cell `cell` world units across. World
/// coordinates range over `[-half_cells * cell, half_cells * cell]`.
#[derive(Clone, Copy, Debug, PartialEq, Eq, Structural)]
pub struct Field {
    pub cell: i64,
    pub half_cells: i64,
}

impl Field {
    pub open spec fn wf(self) -> bool {
        &&& 0 < self.cell <= MAX_SPAN
        &&& 0 <= self.half_cells <= MAX_SPAN
    }

    /// The largest coordinate inside the field, in world units.
    pub open spec fn half(self) -> int {
        self.half_cells * self.cell
    }

    pub fn new(cell: i64, half_cells: i64) -> (f: Field)
        requires
            0 < cell <= MAX_SPAN,
            0 <= half_cells <= MAX_SPAN,
        ensures
            f.cell == cell,
            f.half_cells == half_cells,
            f.wf(),
    {
        Field { cell, half_cells }
    }

    /// The field's half-extent in world units.
    pub fn half_extent(&self) -> (h: i64)
        requires
            self.wf(),
        ensures
            h == self.half(),
            0 <= h <= MAX_COORD,
    {
        proof {
            assert(0 <= self.half_cells * self.cell <= 0x1000_0000_0000_0000)
                by (nonlinear_arith)
                requires
                    0 < self.cell <= 0x4000_0000,
                    0 <= self.half_cells <= 0x4000_0000,
            ;
        }
        self.half_cells * self.cell
    }
}

} // verus!
