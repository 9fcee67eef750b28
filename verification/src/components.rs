//! The per-node metadata that spawned scene nodes carry.

use vstd::prelude::*;

use crate::coords::{ldtk_grid_coords_to_grid_coords, GridCoords};
use crate::ldtk::{EntityInstance, LayerInstance, LayerType};

verus! {

/// The integer tag attached to a non-empty cell of an int-grid layer.
///
/// The default value signals an empty, unset cell; composition never
/// spawns a node for it. The ordering is total, on the value alone.
#[derive(Copy, Clone, Debug, Hash, PartialEq, Eq, PartialOrd, Ord, Structural)]
pub struct IntGridCell {
    pub value: i32,
}

impl Default for IntGridCell {
    /// The empty/unset cell.
    fn default() -> (r: IntGridCell)
        ensures
            r == (IntGridCell { value: 0 }),
    {
        IntGridCell { value: 0 }
    }
}

/// Marker carrying the stable identifier of an entity that must survive
/// the destruction of the level it was born in.
///
/// The tracker keeps at most one live scene node per `entity_iid`, across
/// any number of respawn cycles of the birth level.
#[derive(Clone, Debug, Hash, PartialEq, Eq)]
pub struct Worldly {
    pub entity_iid: String,
}

impl Worldly {
    /// Builds the marker from an entity instance, keyed by the instance's
    /// stable identifier.
    pub fn from_entity_info(entity_instance: &EntityInstance) -> (r: Worldly)
        ensures
            r.entity_iid@ == entity_instance.iid@,
    {
        Worldly { entity_iid: entity_instance.iid.clone() }
    }
}

/// Free-form user data attached to a tile whose source tileset declares
/// some; absence of the component means absence of data.
#[derive(Clone, Debug, Hash, PartialEq, Eq)]
pub struct TileMetadata {
    pub data: String,
}

/// Enum-based tags attached to a tile whose source tileset declares some,
/// together with the originating enum's UID.
#[derive(Clone, Debug, Hash, PartialEq, Eq)]
pub struct TileEnumTags {
    pub tags: Vec<String>,
    pub source_enum_uid: Option<i32>,
}

/// A one-shot marker requesting a full teardown and rebuild of a level or
/// of the whole world. The reconciliation pass that performs the rebuild
/// clears the marker exactly once; it is never left dangling.
#[derive(Copy, Clone, Debug, Hash, PartialEq, Eq, Structural)]
pub struct Respawn;

impl GridCoords {
    /// Grid coordinates for an entity instance: the instance's anchor
    /// cell, flipped into the bottom-left origin with the owning layer's
    /// grid height.
    pub fn from_entity_info(entity_instance: &EntityInstance, layer_instance: &LayerInstance)
        -> (r: GridCoords)
        requires
            0 <= entity_instance.grid.y < layer_instance.c_hei,
        ensures
            r == crate::coords::spec_flipped(entity_instance.grid, layer_instance.c_hei as int),
    {
        ldtk_grid_coords_to_grid_coords(entity_instance.grid, layer_instance.c_hei)
    }
}

/// Read-only snapshot of a layer's geometry and tileset reference, taken
/// once when the layer node spawns and never recomputed incrementally.
#[derive(Clone, Debug, PartialEq)]
pub struct LayerMetadata {
    /// Grid-based height.
    pub c_hei: i32,
    /// Grid-based width.
    pub c_wid: i32,
    /// Size of one grid cell in pixels.
    pub grid_size: i32,
    /// Layer definition identifier.
    pub identifier: String,
    /// Layer opacity in thousandths: 0 is transparent, 1000 opaque.
    pub opacity: i32,
    /// Total X pixel offset, instance and definition offsets included.
    pub px_total_offset_x: i32,
    /// Total Y pixel offset, instance and definition offsets included.
    pub px_total_offset_y: i32,
    /// Definition UID of the corresponding tileset, if any.
    pub tileset_def_uid: Option<i32>,
    /// Relative path to the corresponding tileset, if any.
    pub tileset_rel_path: Option<String>,
    /// The kind of this layer.
    pub layer_instance_type: LayerType,
    /// Unique layer instance identifier.
    pub iid: String,
    /// Reference to the layer definition UID.
    pub layer_def_uid: i32,
    /// UID of the level containing this layer instance.
    pub level_id: i32,
    /// UIDs of the optional rules enabled in this layer instance.
    pub optional_rules: Vec<i32>,
    /// Tileset UID override, if this layer uses another tileset.
    pub override_tileset_uid: Option<i32>,
    /// X offset in pixels to render this layer, usually 0.
    pub px_offset_x: i32,
    /// Y offset in pixels to render this layer, usually 0.
    pub px_offset_y: i32,
    /// Random seed used for auto-layer rendering.
    pub seed: i32,
    /// Layer instance visibility.
    pub visible: bool,
}

/// Copies an optional string, exactly.
fn clone_opt_string(o: &Option<String>) -> (r: Option<String>)
    ensures
        r == *o,
{
    match o {
        Option::Some(s) => Option::Some(s.clone()),
        Option::None => Option::None,
    }
}

/// Copies a vector of integers, exactly.
fn clone_vec_i32(v: &Vec<i32>) -> (r: Vec<i32>)
    ensures
        r@ == v@,
{
    let mut out: Vec<i32> = Vec::new();
    let mut i: usize = 0;
    while i < v.len()
        invariant
            i <= v@.len(),
            out@ == v@.take(i as int),
        decreases v@.len() - i,
    {
        out.push(v[i]);
        i = i + 1;
        proof {
            assert(out@ =~= v@.take(i as int));
        }
    }
    proof {
        assert(v@.take(v@.len() as int) =~= v@);
    }
    out
}

impl LayerMetadata {
    /// The snapshot a given layer instance yields: every geometry and
    /// tileset field copied verbatim, tile and entity lists left behind.
    pub open spec fn of_instance(instance: LayerInstance) -> LayerMetadata {
        LayerMetadata {
            c_hei: instance.c_hei,
            c_wid: instance.c_wid,
            grid_size: instance.grid_size,
            identifier: instance.identifier,
            opacity: instance.opacity,
            px_total_offset_x: instance.px_total_offset_x,
            px_total_offset_y: instance.px_total_offset_y,
            tileset_def_uid: instance.tileset_def_uid,
            tileset_rel_path: instance.tileset_rel_path,
            layer_instance_type: instance.layer_instance_type,
            iid: instance.iid,
            layer_def_uid: instance.layer_def_uid,
            level_id: instance.level_id,
            optional_rules: instance.optional_rules,
            override_tileset_uid: instance.override_tileset_uid,
            px_offset_x: instance.px_offset_x,
            px_offset_y: instance.px_offset_y,
            seed: instance.seed,
            visible: instance.visible,
        }
    }

    /// Derives the snapshot from a layer instance.
    pub fn from_instance(instance: &LayerInstance) -> (r: LayerMetadata)
        ensures
            r.optional_rules@ == instance.optional_rules@,
            r == (LayerMetadata {
                optional_rules: r.optional_rules,
                ..LayerMetadata::of_instance(*instance)
            }),
    {
        LayerMetadata {
            c_hei: instance.c_hei,
            c_wid: instance.c_wid,
            grid_size: instance.grid_size,
            identifier: instance.identifier.clone(),
            opacity: instance.opacity,
            px_total_offset_x: instance.px_total_offset_x,
            px_total_offset_y: instance.px_total_offset_y,
            tileset_def_uid: instance.tileset_def_uid,
            tileset_rel_path: clone_opt_string(&instance.tileset_rel_path),
            layer_instance_type: instance.layer_instance_type,
            iid: instance.iid.clone(),
            layer_def_uid: instance.layer_def_uid,
            level_id: instance.level_id,
            optional_rules: clone_vec_i32(&instance.optional_rules),
            override_tileset_uid: instance.override_tileset_uid,
            px_offset_x: instance.px_offset_x,
            px_offset_y: instance.px_offset_y,
            seed: instance.seed,
            visible: instance.visible,
        }
    }
}

} // verus!
