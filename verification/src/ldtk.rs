//! The immutable level/world description supplied by the external loader.
//!
//! The loader parses and validates the on-disk level file; this crate only
//! reads the result. A [`WorldDescription`] owns an ordered list of
//! [`Level`]s, each with ordered [`LayerInstance`]s, each carrying tile and
//! entity instance lists plus grid geometry. Nothing here is ever mutated
//! or revalidated by the scene-graph logic.

use vstd::prelude::*;

use crate::components::TileEnumTags;
use crate::coords::IVec2;

verus! {

/// The kind of a layer: grid-based (int-grid, tiles, auto) or entity-based.
#[derive(Copy, Clone, Debug, Hash, PartialEq, Eq, Structural)]
pub enum LayerType {
    IntGrid,
    Entities,
    Tiles,
    AutoLayer,
}

/// One entity instance declared by an entity layer.
///
/// `grid` addresses the entity's anchor cell from the level format's
/// top-left origin. `worldly` carries the caller's per-kind spawn-hook
/// decision that the entity must outlive its birth level. `fields` is the
/// user-declared extra data, opaque to this crate.
#[derive(Clone, Debug, PartialEq, Eq)]
pub struct EntityInstance {
    /// Entity definition identifier (the entity's kind).
    pub identifier: String,
    /// Unique instance identifier; stable across respawns.
    pub iid: String,
    /// Grid-based anchor coordinates, top-left origin.
    pub grid: IVec2,
    /// Whether this entity is to be re-parented to the world root and kept
    /// alive across respawns of its birth level.
    pub worldly: bool,
    /// User-declared field payload, carried through untouched.
    pub fields: Vec<String>,
}

/// One tile placed by a tile or auto layer.
///
/// `metadata` and `enum_tags` are the per-tile annotations that the source
/// tileset declares for this tile, already resolved by the loader; absence
/// means the tileset declares none, not that they are empty.
#[derive(Clone, Debug, PartialEq, Eq)]
pub struct TileInstance {
    /// Grid-based coordinates, top-left origin.
    pub grid: IVec2,
    /// Identifier of the tile inside its tileset.
    pub tile_id: i32,
    /// Free-form per-tile payload from the tileset, if declared.
    pub metadata: Option<String>,
    /// Enum-based tags from the tileset, if declared.
    pub enum_tags: Option<TileEnumTags>,
}

/// One layer of a level, as declared by the level format.
#[derive(Clone, Debug, PartialEq, Eq)]
pub struct LayerInstance {
    /// Grid-based height.
    pub c_hei: i32,
    /// Grid-based width.
    pub c_wid: i32,
    /// Size of one grid cell in pixels.
    pub grid_size: i32,
    /// Layer definition identifier.
    pub identifier: String,
    /// Layer opacity in thousandths: 0 is transparent, 1000 opaque.
    pub opacity: i32,
    /// Total X pixel offset, instance and definition offsets included.
    pub px_total_offset_x: i32,
    /// Total Y pixel offset, instance and definition offsets included.
    pub px_total_offset_y: i32,
    /// Definition UID of the corresponding tileset, if any.
    pub tileset_def_uid: Option<i32>,
    /// Relative path to the corresponding tileset, if any.
    pub tileset_rel_path: Option<String>,
    /// The kind of this layer.
    pub layer_instance_type: LayerType,
    /// Unique layer instance identifier.
    pub iid: String,
    /// Reference to the layer definition UID.
    pub layer_def_uid: i32,
    /// UID of the level containing this layer instance.
    pub level_id: i32,
    /// UIDs of the optional rules enabled in this layer instance.
    pub optional_rules: Vec<i32>,
    /// Tileset UID override, if this layer uses another tileset.
    pub override_tileset_uid: Option<i32>,
    /// X offset in pixels to render this layer, usually 0.
    pub px_offset_x: i32,
    /// Y offset in pixels to render this layer, usually 0.
    pub px_offset_y: i32,
    /// Random seed used for auto-layer rendering.
    pub seed: i32,
    /// Layer instance visibility.
    pub visible: bool,
    /// Int-grid cell values, row-major from the top-left; the default
    /// value signals an empty cell.
    pub int_grid_csv: Vec<i32>,
    /// Tiles placed by this layer, for tile and auto layers.
    pub grid_tiles: Vec<TileInstance>,
    /// Entities declared by this layer, for entity layers.
    pub entity_instances: Vec<EntityInstance>,
}

/// One level of a world.
#[derive(Clone, Debug, PartialEq, Eq)]
pub struct Level {
    /// Unique level instance identifier; what a desired level set names.
    pub iid: String,
    /// Level definition identifier (human-readable name).
    pub identifier: String,
    /// Numeric level UID.
    pub uid: i32,
    /// The level's layers, back-to-front in declared rendering order.
    pub layer_instances: Vec<LayerInstance>,
}

/// The whole loaded world: an ordered list of level descriptions.
#[derive(Clone, Debug, PartialEq, Eq)]
pub struct WorldDescription {
    /// The levels of this world, in declared order.
    pub levels: Vec<Level>,
}

impl WorldDescription {
    /// A world description is well formed when its level identifiers are
    /// pairwise distinct.
    pub open spec fn wf(&self) -> bool {
        forall|i: int, j: int|
            0 <= i < j < self.levels@.len() ==> self.levels@[i].iid@ != self.levels@[j].iid@
    }

    /// Decides well-formedness, for callers that receive a description of
    /// unknown provenance: true exactly when no two levels share an
    /// identifier.
    pub fn has_distinct_level_iids(&self) -> (r: bool)
        ensures
            r == self.wf(),
    {
        let n = self.levels.len();
        let mut i: usize = 0;
        while i < n
            invariant
                i <= n,
                n == self.levels@.len(),
                forall|a: int, b: int|
                    0 <= a < b < self.levels@.len() && a < i ==> self.levels@[a].iid@
                        != self.levels@[b].iid@,
            decreases n - i,
        {
            let mut j: usize = i + 1;
            while j < n
                invariant
                    i < j <= n,
                    n == self.levels@.len(),
                    forall|b: int|
                        i < b < j ==> self.levels@[i as int].iid@ != self.levels@[b].iid@,
                decreases n - j,
            {
                if self.levels[i].iid == self.levels[j].iid {
                    return false;
                }
                j = j + 1;
            }
            i = i + 1;
        }
        true
    }
}

} // verus!
