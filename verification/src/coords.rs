//! The coordinate model: signed grid coordinates, unsigned tile positions,
//! a signed 2D spatial vector, and the conversions between them.
//!
//! The level format addresses cells from the top-left corner while the
//! scene graph uses a bottom-left origin, so every conversion out of the
//! level format flips the vertical axis using the owning layer's grid
//! height. Conversions between `GridCoords` and the other representations
//! are exact; the signed-to-unsigned direction is an explicit fallible
//! conversion rather than a silent truncation.

use vstd::prelude::*;
use vstd::std_specs::convert::FromSpec;

verus! {

/// A signed 2D vector in the engine's integer spatial space.
#[derive(Copy, Clone, Debug, Hash, PartialEq, Eq, Structural)]
pub struct IVec2 {
    pub x: i32,
    pub y: i32,
}

impl IVec2 {
    pub fn new(x: i32, y: i32) -> (r: IVec2)
        ensures
            r == (IVec2 { x, y }),
    {
        IVec2 { x, y }
    }
}

/// An unsigned row/column index into a tilemap.
#[derive(Copy, Clone, Debug, Hash, PartialEq, Eq, Structural)]
pub struct TilePos {
    pub x: u32,
    pub y: u32,
}

impl TilePos {
    pub fn new(x: u32, y: u32) -> (r: TilePos)
        ensures
            r == (TilePos { x, y }),
    {
        TilePos { x, y }
    }
}

/// An integer 2D coordinate in a level's grid space.
///
/// Attached to every tile of a grid layer and, on request, to entities.
/// The scene graph never mutates a node's `GridCoords` implicitly;
/// replacing it is the caller's responsibility.
#[derive(Copy, Clone, Debug, Hash, PartialEq, Eq, Structural)]
pub struct GridCoords {
    pub x: i32,
    pub y: i32,
}

impl GridCoords {
    pub fn new(x: i32, y: i32) -> (r: GridCoords)
        ensures
            r == (GridCoords { x, y }),
    {
        GridCoords { x, y }
    }

    /// Fallible conversion to an unsigned tile position.
    ///
    /// Exact for non-negative coordinates; a negative component yields
    /// `None` instead of silently truncating.
    pub fn to_tile_pos(&self) -> (r: Option<TilePos>)
        ensures
            (self.x >= 0 && self.y >= 0) ==> r == Some(TilePos {
                x: self.x as u32,
                y: self.y as u32,
            }),
            (self.x < 0 || self.y < 0) ==> r is None,
    {
        if self.x >= 0 && self.y >= 0 {
            Some(TilePos { x: self.x as u32, y: self.y as u32 })
        } else {
            None
        }
    }
}

impl Default for GridCoords {
    /// The origin cell.
    fn default() -> (r: GridCoords)
        ensures
            r == (GridCoords { x: 0, y: 0 }),
    {
        GridCoords { x: 0, y: 0 }
    }
}

impl TilePos {
    /// Fallible conversion to signed grid coordinates.
    ///
    /// Exact whenever both components fit in the signed width.
    pub fn to_grid_coords(&self) -> (r: Option<GridCoords>)
        ensures
            (self.x <= i32::MAX && self.y <= i32::MAX) ==> r == Some(GridCoords {
                x: self.x as i32,
                y: self.y as i32,
            }),
            (self.x > i32::MAX || self.y > i32::MAX) ==> r is None,
    {
        if self.x <= i32::MAX as u32 && self.y <= i32::MAX as u32 {
            Some(GridCoords { x: self.x as i32, y: self.y as i32 })
        } else {
            None
        }
    }
}

impl core::convert::From<IVec2> for GridCoords {
    fn from(v: IVec2) -> (r: GridCoords) {
        GridCoords { x: v.x, y: v.y }
    }
}

impl vstd::std_specs::convert::FromSpecImpl<IVec2> for GridCoords {
    open spec fn obeys_from_spec() -> bool {
        true
    }

    open spec fn from_spec(v: IVec2) -> GridCoords {
        GridCoords { x: v.x, y: v.y }
    }
}

impl core::convert::From<GridCoords> for IVec2 {
    fn from(g: GridCoords) -> (r: IVec2) {
        IVec2 { x: g.x, y: g.y }
    }
}

impl vstd::std_specs::convert::FromSpecImpl<GridCoords> for IVec2 {
    open spec fn obeys_from_spec() -> bool {
        true
    }

    open spec fn from_spec(g: GridCoords) -> IVec2 {
        IVec2 { x: g.x, y: g.y }
    }
}

/// Round trip through the spatial vector: exact for every coordinate.
pub proof fn lemma_vector_round_trip(g: GridCoords, v: IVec2)
    ensures
        GridCoords::from_spec(IVec2::from_spec(g)) == g,
        IVec2::from_spec(GridCoords::from_spec(v)) == v,
{
}

/// Round trip through the tile position: exact for every non-negative
/// coordinate.
pub proof fn lemma_tile_pos_round_trip(g: GridCoords, t: TilePos)
    requires
        g.x >= 0,
        g.y >= 0,
        t == (TilePos { x: g.x as u32, y: g.y as u32 }),
    ensures
        t.x as i32 == g.x,
        t.y as i32 == g.y,
{
}

impl core::ops::Add<GridCoords> for GridCoords {
    type Output = GridCoords;

    /// Componentwise addition.
    fn add(self, rhs: GridCoords) -> (r: GridCoords) {
        GridCoords { x: self.x + rhs.x, y: self.y + rhs.y }
    }
}

impl vstd::std_specs::ops::AddSpecImpl<GridCoords> for GridCoords {
    open spec fn obeys_add_spec() -> bool {
        true
    }

    open spec fn add_req(self, rhs: GridCoords) -> bool {
        &&& i32::MIN <= self.x + rhs.x <= i32::MAX
        &&& i32::MIN <= self.y + rhs.y <= i32::MAX
    }

    open spec fn add_spec(self, rhs: GridCoords) -> GridCoords {
        GridCoords { x: (self.x + rhs.x) as i32, y: (self.y + rhs.y) as i32 }
    }
}

impl core::ops::Sub<GridCoords> for GridCoords {
    type Output = GridCoords;

    /// Componentwise subtraction.
    fn sub(self, rhs: GridCoords) -> (r: GridCoords) {
        GridCoords { x: self.x - rhs.x, y: self.y - rhs.y }
    }
}

impl vstd::std_specs::ops::SubSpecImpl<GridCoords> for GridCoords {
    open spec fn obeys_sub_spec() -> bool {
        true
    }

    open spec fn sub_req(self, rhs: GridCoords) -> bool {
        &&& i32::MIN <= self.x - rhs.x <= i32::MAX
        &&& i32::MIN <= self.y - rhs.y <= i32::MAX
    }

    open spec fn sub_spec(self, rhs: GridCoords) -> GridCoords {
        GridCoords { x: (self.x - rhs.x) as i32, y: (self.y - rhs.y) as i32 }
    }
}

impl core::ops::Mul<GridCoords> for GridCoords {
    type Output = GridCoords;

    /// Componentwise multiplication.
    fn mul(self, rhs: GridCoords) -> (r: GridCoords) {
        GridCoords { x: self.x * rhs.x, y: self.y * rhs.y }
    }
}

impl vstd::std_specs::ops::MulSpecImpl<GridCoords> for GridCoords {
    open spec fn obeys_mul_spec() -> bool {
        true
    }

    open spec fn mul_req(self, rhs: GridCoords) -> bool {
        &&& i32::MIN <= self.x * rhs.x <= i32::MAX
        &&& i32::MIN <= self.y * rhs.y <= i32::MAX
    }

    open spec fn mul_spec(self, rhs: GridCoords) -> GridCoords {
        GridCoords { x: (self.x * rhs.x) as i32, y: (self.y * rhs.y) as i32 }
    }
}

/// The vertical flip between the level format's top-left origin and the
/// scene graph's bottom-left origin, as a spec-level statement.
pub open spec fn spec_flipped(ldtk_coords: IVec2, ldtk_grid_height: int) -> GridCoords {
    GridCoords { x: ldtk_coords.x, y: (ldtk_grid_height - 1 - ldtk_coords.y) as i32 }
}

/// Converts a level-format grid position (top-left origin) into
/// `GridCoords` (bottom-left origin) by flipping the vertical axis with
/// the owning layer's grid height. The flip is required: omitting it
/// would mirror all level content vertically.
pub fn ldtk_grid_coords_to_grid_coords(ldtk_coords: IVec2, ldtk_grid_height: i32) -> (r:
    GridCoords)
    requires
        0 <= ldtk_coords.y < ldtk_grid_height,
    ensures
        r == spec_flipped(ldtk_coords, ldtk_grid_height as int),
        r.x == ldtk_coords.x,
        r.y == ldtk_grid_height - 1 - ldtk_coords.y,
{
    GridCoords { x: ldtk_coords.x, y: ldtk_grid_height - 1 - ldtk_coords.y }
}

/// The grid coordinates addressed by a flat int-grid index, as a
/// spec-level statement: column from the remainder, row from the flipped
/// quotient.
pub open spec fn spec_int_grid_coords(index: int, layer_width: int, layer_height: int)
    -> GridCoords {
    GridCoords {
        x: (index % layer_width) as i32,
        y: (layer_height - 1 - index / layer_width) as i32,
    }
}

/// Converts a flat index into an int-grid layer's cell list (row-major
/// from the top-left) into `GridCoords`, flipping the vertical axis.
pub fn int_grid_index_to_grid_coords(index: usize, layer_width: i32, layer_height: i32) -> (r:
    GridCoords)
    requires
        0 < layer_width,
        0 < layer_height,
        index < layer_width * layer_height,
    ensures
        r == spec_int_grid_coords(index as int, layer_width as int, layer_height as int),
        r.x == index as int % layer_width as int,
        r.y == layer_height - 1 - index as int / layer_width as int,
{
    let w = layer_width as usize;
    let tile_x = index % w;
    let ldtk_row = index / w;
    proof {
        let i = index as int;
        let wd = layer_width as int;
        let ht = layer_height as int;
        assert(i % wd == i % (w as int));
        assert(i / (w as int) < ht) by (nonlinear_arith)
            requires
                i < wd * ht,
                w as int == wd,
                0 < wd,
        {
        }
    }
    GridCoords {
        x: tile_x as i32,
        y: layer_height - 1 - (ldtk_row as i32),
    }
}

} // verus!
