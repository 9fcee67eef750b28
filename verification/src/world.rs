//! The live scene graph: world, level, layer, tile and entity nodes, the
//! worldly-entity tracker, and the reconciliation pass that keeps the
//! graph consistent with the desired level set.
//!
//! Ownership is strictly hierarchical — the world owns levels, a level
//! owns layers, a layer owns tiles or entities — with one exception edge:
//! an entity marked worldly is re-parented from its birth level to the
//! world root one pass after it spawns, and from then on its lifetime is
//! bounded by the world, not by any level.

use vstd::prelude::*;

use crate::components::{IntGridCell, LayerMetadata, TileEnumTags, TileMetadata};
use crate::coords::{
    int_grid_index_to_grid_coords, ldtk_grid_coords_to_grid_coords, spec_flipped,
    spec_int_grid_coords, GridCoords, IVec2,
};
use crate::ldtk::{EntityInstance, LayerInstance, LayerType, Level, TileInstance, WorldDescription};
use crate::level_set::{id_set, ids_contain, no_dup_ids, LevelSet};
use crate::reconcile::{despawn_set, missing_set, next_realized, reconcile, spawn_set, unchanged_set};

verus! {

/// One spawned tile: its grid position plus whichever of the int-grid
/// value, the tileset metadata and the tileset enum tags apply to it.
#[derive(Clone, Debug, PartialEq)]
pub struct TileNode {
    pub grid_coords: GridCoords,
    /// The placed tile's identifier, for tiles placed by a tile list.
    pub tile_id: Option<i32>,
    /// The cell's int-grid value, for non-empty int-grid cells.
    pub int_grid_cell: Option<IntGridCell>,
    pub metadata: Option<TileMetadata>,
    pub enum_tags: Option<TileEnumTags>,
}

/// One spawned entity: its kind, stable identifier, grid position, the
/// worldly mark and the opaque user payload.
#[derive(Clone, Debug, PartialEq)]
pub struct EntityNode {
    pub identifier: String,
    pub entity_iid: String,
    pub grid_coords: GridCoords,
    pub worldly: bool,
    pub fields: Vec<String>,
}

/// One spawned layer: its metadata snapshot and its tile or entity
/// children.
#[derive(Clone, Debug, PartialEq)]
pub struct LayerNode {
    pub metadata: LayerMetadata,
    pub tiles: Vec<TileNode>,
    pub entities: Vec<EntityNode>,
}

/// The mathematical value of a layer node: the child vectors as sequences.
pub ghost struct LayerNodeV {
    pub metadata: LayerMetadata,
    pub tiles: Seq<TileNode>,
    pub entities: Seq<EntityNode>,
}

impl View for LayerNode {
    type V = LayerNodeV;

    open spec fn view(&self) -> LayerNodeV {
        LayerNodeV { metadata: self.metadata, tiles: self.tiles@, entities: self.entities@ }
    }
}

/// One spawned level: its identifier and its layers, back-to-front in the
/// declared rendering order.
#[derive(Clone, Debug, PartialEq)]
pub struct LevelNode {
    pub iid: String,
    pub layers: Vec<LayerNode>,
}

/// The mathematical value of a level node.
pub ghost struct LevelNodeV {
    pub iid: String,
    pub layers: Seq<LayerNodeV>,
}

impl View for LevelNode {
    type V = LevelNodeV;

    open spec fn view(&self) -> LevelNodeV {
        LevelNodeV { iid: self.iid, layers: self.layers@.map_values(|l: LayerNode| l@) }
    }
}

/// Whether a grid position lies inside a layer of the given width and
/// height. An out-of-bounds node is skipped rather than spawned.
pub open spec fn cell_in_bounds(v: IVec2, w: int, h: int) -> bool {
    0 <= v.x < w && 0 <= v.y < h
}

/// The tile node a placed tile yields: coordinates flipped into the
/// bottom-left origin, metadata and tags carried over.
pub open spec fn spec_tile_node(t: TileInstance, h: int) -> TileNode {
    TileNode {
        grid_coords: spec_flipped(t.grid, h),
        tile_id: Some(t.tile_id),
        int_grid_cell: None,
        metadata: match t.metadata {
            Some(s) => Some(TileMetadata { data: s }),
            None => None,
        },
        enum_tags: t.enum_tags,
    }
}

/// The tile nodes of the first `k` placed tiles, in order, skipping tiles
/// whose grid position lies outside the layer.
pub open spec fn spec_grid_tiles(ts: Seq<TileInstance>, k: int, w: int, h: int) -> Seq<TileNode>
    decreases k,
{
    if k <= 0 {
        Seq::empty()
    } else {
        spec_grid_tiles(ts, k - 1, w, h) + if cell_in_bounds(ts[k - 1].grid, w, h) {
            seq![spec_tile_node(ts[k - 1], h)]
        } else {
            Seq::empty()
        }
    }
}

/// The tile node a non-empty int-grid cell yields.
pub open spec fn spec_csv_node(v: i32, idx: int, w: int, h: int) -> TileNode {
    TileNode {
        grid_coords: spec_int_grid_coords(idx, w, h),
        tile_id: None,
        int_grid_cell: Some(IntGridCell { value: v }),
        metadata: None,
        enum_tags: None,
    }
}

/// The tile nodes of the first `k` int-grid cells: one node per non-empty
/// cell whose flat index addresses a cell of the layer.
pub open spec fn spec_csv_tiles(csv: Seq<i32>, k: int, w: int, h: int) -> Seq<TileNode>
    decreases k,
{
    if k <= 0 {
        Seq::empty()
    } else {
        spec_csv_tiles(csv, k - 1, w, h) + if csv[k - 1] != 0 && 0 < w && 0 < h && k - 1 < w * h {
            seq![spec_csv_node(csv[k - 1], k - 1, w, h)]
        } else {
            Seq::empty()
        }
    }
}

/// The entity node an entity instance yields.
pub open spec fn spec_entity_node(e: EntityInstance, h: int) -> EntityNode {
    EntityNode {
        identifier: e.identifier,
        entity_iid: e.iid,
        grid_coords: spec_flipped(e.grid, h),
        worldly: e.worldly,
        fields: e.fields,
    }
}

/// The tracker state after the first `k` entity instances of a layer:
/// every in-bounds worldly instance records its identifier.
pub open spec fn spec_seen_after(
    es: Seq<EntityInstance>,
    k: int,
    w: int,
    h: int,
    seen: Set<Seq<char>>,
) -> Set<Seq<char>>
    decreases k,
{
    if k <= 0 {
        seen
    } else {
        let tr = spec_seen_after(es, k - 1, w, h, seen);
        let e = es[k - 1];
        if cell_in_bounds(e.grid, w, h) && e.worldly {
            tr.insert(e.iid@)
        } else {
            tr
        }
    }
}

/// The entity nodes of the first `k` instances: out-of-bounds instances
/// are skipped, and a worldly instance whose identifier is already
/// seen is suppressed rather than duplicated.
pub open spec fn spec_entities(
    es: Seq<EntityInstance>,
    k: int,
    w: int,
    h: int,
    seen: Set<Seq<char>>,
) -> Seq<EntityNode>
    decreases k,
{
    if k <= 0 {
        Seq::empty()
    } else {
        let pre = spec_entities(es, k - 1, w, h, seen);
        let tr = spec_seen_after(es, k - 1, w, h, seen);
        let e = es[k - 1];
        pre + if cell_in_bounds(e.grid, w, h) && (!e.worldly || !tr.contains(e.iid@)) {
            seq![spec_entity_node(e, h)]
        } else {
            Seq::empty()
        }
    }
}

/// The identifiers of the worldly instances among the first `k` that were
/// suppressed because their identifier was already seen.
pub open spec fn spec_suppressed_after(
    es: Seq<EntityInstance>,
    k: int,
    w: int,
    h: int,
    seen: Set<Seq<char>>,
) -> Set<Seq<char>>
    decreases k,
{
    if k <= 0 {
        Set::empty()
    } else {
        let sup = spec_suppressed_after(es, k - 1, w, h, seen);
        let tr = spec_seen_after(es, k - 1, w, h, seen);
        let e = es[k - 1];
        if cell_in_bounds(e.grid, w, h) && e.worldly && tr.contains(e.iid@) {
            sup.insert(e.iid@)
        } else {
            sup
        }
    }
}

/// The layer node a layer instance yields, given the tracker state at the
/// layer's turn: the metadata snapshot plus either tile children (grid
/// layers: int-grid cells first, then placed tiles) or entity children
/// (entity layers).
pub open spec fn spec_layer_node(l: LayerInstance, seen: Set<Seq<char>>) -> LayerNodeV {
    LayerNodeV {
        metadata: LayerMetadata::of_instance(l),
        tiles: if l.layer_instance_type == LayerType::Entities {
            Seq::empty()
        } else {
            spec_csv_tiles(l.int_grid_csv@, l.int_grid_csv@.len() as int, l.c_wid as int, l.c_hei as int)
                + spec_grid_tiles(l.grid_tiles@, l.grid_tiles@.len() as int, l.c_wid as int, l.c_hei as int)
        },
        entities: if l.layer_instance_type == LayerType::Entities {
            spec_entities(
                l.entity_instances@,
                l.entity_instances@.len() as int,
                l.c_wid as int,
                l.c_hei as int,
                seen,
            )
        } else {
            Seq::empty()
        },
    }
}

/// The tracker state after a whole layer.
pub open spec fn spec_layer_seen(l: LayerInstance, seen: Set<Seq<char>>) -> Set<Seq<char>> {
    if l.layer_instance_type == LayerType::Entities {
        spec_seen_after(
            l.entity_instances@,
            l.entity_instances@.len() as int,
            l.c_wid as int,
            l.c_hei as int,
            seen,
        )
    } else {
        seen
    }
}

/// The suppressed identifiers of a whole layer.
pub open spec fn spec_layer_suppressed(l: LayerInstance, seen: Set<Seq<char>>) -> Set<
    Seq<char>,
> {
    if l.layer_instance_type == LayerType::Entities {
        spec_suppressed_after(
            l.entity_instances@,
            l.entity_instances@.len() as int,
            l.c_wid as int,
            l.c_hei as int,
            seen,
        )
    } else {
        Set::empty()
    }
}

/// The layer nodes of the first `k` layers, threading the tracker state
/// from one layer to the next.
pub open spec fn spec_layers(ls: Seq<LayerInstance>, k: int, seen: Set<Seq<char>>) -> Seq<
    LayerNodeV,
>
    decreases k,
{
    if k <= 0 {
        Seq::empty()
    } else {
        spec_layers(ls, k - 1, seen) + seq![
            spec_layer_node(ls[k - 1], spec_layers_seen(ls, k - 1, seen)),
        ]
    }
}

/// The tracker state after the first `k` layers.
pub open spec fn spec_layers_seen(
    ls: Seq<LayerInstance>,
    k: int,
    seen: Set<Seq<char>>,
) -> Set<Seq<char>>
    decreases k,
{
    if k <= 0 {
        seen
    } else {
        spec_layer_seen(ls[k - 1], spec_layers_seen(ls, k - 1, seen))
    }
}

/// The suppressed identifiers of the first `k` layers.
pub open spec fn spec_layers_suppressed(
    ls: Seq<LayerInstance>,
    k: int,
    seen: Set<Seq<char>>,
) -> Set<Seq<char>>
    decreases k,
{
    if k <= 0 {
        Set::empty()
    } else {
        spec_layers_suppressed(ls, k - 1, seen).union(
            spec_layer_suppressed(ls[k - 1], spec_layers_seen(ls, k - 1, seen)),
        )
    }
}

/// The level node a level description yields, given the tracker state.
///
/// Scene composition is a pure, deterministic function of the description
/// and the tracker state: composing the same description under the same
/// tracker state yields a structurally identical subtree.
pub open spec fn spec_level_node(level: Level, seen: Set<Seq<char>>) -> LevelNodeV {
    LevelNodeV {
        iid: level.iid,
        layers: spec_layers(level.layer_instances@, level.layer_instances@.len() as int, seen),
    }
}

/// The tracker state after composing a whole level.
pub open spec fn spec_level_seen(level: Level, seen: Set<Seq<char>>) -> Set<Seq<char>> {
    spec_layers_seen(level.layer_instances@, level.layer_instances@.len() as int, seen)
}

/// The suppressed identifiers of a whole level.
pub open spec fn spec_level_suppressed(level: Level, seen: Set<Seq<char>>) -> Set<Seq<char>> {
    spec_layers_suppressed(level.layer_instances@, level.layer_instances@.len() as int, seen)
}

/// How many live worldly scene nodes in `es` carry the identifier `x`.
pub open spec fn ents_count(es: Seq<EntityNode>, x: Seq<char>) -> nat
    decreases es.len(),
{
    if es.len() == 0 {
        0
    } else {
        (if es[0].worldly && es[0].entity_iid@ == x {
            1nat
        } else {
            0nat
        }) + ents_count(es.skip(1), x)
    }
}

/// How many live worldly scene nodes under the layers `ls` carry `x`.
pub open spec fn layers_count(ls: Seq<LayerNodeV>, x: Seq<char>) -> nat
    decreases ls.len(),
{
    if ls.len() == 0 {
        0
    } else {
        ents_count(ls[0].entities, x) + layers_count(ls.skip(1), x)
    }
}

/// How many live worldly scene nodes under the levels `ls` carry `x`.
pub open spec fn levels_count(ls: Seq<LevelNodeV>, x: Seq<char>) -> nat
    decreases ls.len(),
{
    if ls.len() == 0 {
        0
    } else {
        layers_count(ls[0].layers, x) + levels_count(ls.skip(1), x)
    }
}

/// Counting worldly identifiers distributes over concatenation.
pub proof fn lemma_ents_count_concat(a: Seq<EntityNode>, b: Seq<EntityNode>, x: Seq<char>)
    ensures
        ents_count(a + b, x) == ents_count(a, x) + ents_count(b, x),
    decreases a.len(),
{
    if a.len() == 0 {
        assert(a + b =~= b);
    } else {
        assert((a + b).skip(1) =~= a.skip(1) + b);
        lemma_ents_count_concat(a.skip(1), b, x);
    }
}

/// Appending one entity adds its contribution to the count.
pub proof fn lemma_ents_count_push(es: Seq<EntityNode>, e: EntityNode, x: Seq<char>)
    ensures
        ents_count(es.push(e), x) == ents_count(es, x) + (if e.worldly && e.entity_iid@ == x {
            1nat
        } else {
            0nat
        }),
{
    assert(es.push(e) =~= es + seq![e]);
    lemma_ents_count_concat(es, seq![e], x);
    assert(ents_count(seq![e].skip(1), x) == 0) by {
        assert(seq![e].skip(1) =~= Seq::<EntityNode>::empty());
    }
}

/// Counting distributes over layer concatenation.
pub proof fn lemma_layers_count_concat(a: Seq<LayerNodeV>, b: Seq<LayerNodeV>, x: Seq<char>)
    ensures
        layers_count(a + b, x) == layers_count(a, x) + layers_count(b, x),
    decreases a.len(),
{
    if a.len() == 0 {
        assert(a + b =~= b);
    } else {
        assert((a + b).skip(1) =~= a.skip(1) + b);
        lemma_layers_count_concat(a.skip(1), b, x);
    }
}

/// Appending one layer adds its contribution to the count.
pub proof fn lemma_layers_count_push(ls: Seq<LayerNodeV>, l: LayerNodeV, x: Seq<char>)
    ensures
        layers_count(ls.push(l), x) == layers_count(ls, x) + ents_count(l.entities, x),
{
    assert(ls.push(l) =~= ls + seq![l]);
    lemma_layers_count_concat(ls, seq![l], x);
    assert(layers_count(seq![l].skip(1), x) == 0) by {
        assert(seq![l].skip(1) =~= Seq::<LayerNodeV>::empty());
    }
}

/// Counting distributes over level concatenation.
pub proof fn lemma_levels_count_concat(a: Seq<LevelNodeV>, b: Seq<LevelNodeV>, x: Seq<char>)
    ensures
        levels_count(a + b, x) == levels_count(a, x) + levels_count(b, x),
    decreases a.len(),
{
    if a.len() == 0 {
        assert(a + b =~= b);
    } else {
        assert((a + b).skip(1) =~= a.skip(1) + b);
        lemma_levels_count_concat(a.skip(1), b, x);
    }
}

/// Appending one level adds its contribution to the count.
pub proof fn lemma_levels_count_push(ls: Seq<LevelNodeV>, l: LevelNodeV, x: Seq<char>)
    ensures
        levels_count(ls.push(l), x) == levels_count(ls, x) + layers_count(l.layers, x),
{
    assert(ls.push(l) =~= ls + seq![l]);
    lemma_levels_count_concat(ls, seq![l], x);
    assert(levels_count(seq![l].skip(1), x) == 0) by {
        assert(seq![l].skip(1) =~= Seq::<LevelNodeV>::empty());
    }
}

/// The tracker only grows while a layer's entities compose, and it grows
/// by exactly the spawned worldly identifiers.
pub proof fn lemma_spec_entities_count(
    es: Seq<EntityInstance>,
    k: int,
    w: int,
    h: int,
    seen: Set<Seq<char>>,
    x: Seq<char>,
)
    requires
        0 <= k <= es.len(),
    ensures
        seen.contains(x) ==> spec_seen_after(es, k, w, h, seen).contains(x),
        ents_count(spec_entities(es, k, w, h, seen), x) == (
        if spec_seen_after(es, k, w, h, seen).contains(x) && !seen.contains(x) {
            1nat
        } else {
            0nat
        }),
    decreases k,
{
    if k > 0 {
        lemma_spec_entities_count(es, k - 1, w, h, seen, x);
        let pre = spec_entities(es, k - 1, w, h, seen);
        let tr = spec_seen_after(es, k - 1, w, h, seen);
        let e = es[k - 1];
        if cell_in_bounds(e.grid, w, h) && (!e.worldly || !tr.contains(e.iid@)) {
            lemma_ents_count_push(pre, spec_entity_node(e, h), x);
            assert(pre.push(spec_entity_node(e, h)) =~= pre + seq![spec_entity_node(e, h)]);
        } else {
            assert(pre + Seq::<EntityNode>::empty() =~= pre);
        }
    }
}

/// Lifted to one whole layer.
pub proof fn lemma_spec_layer_count(l: LayerInstance, seen: Set<Seq<char>>, x: Seq<char>)
    ensures
        seen.contains(x) ==> spec_layer_seen(l, seen).contains(x),
        ents_count(spec_layer_node(l, seen).entities, x) == (
        if spec_layer_seen(l, seen).contains(x) && !seen.contains(x) {
            1nat
        } else {
            0nat
        }),
{
    if l.layer_instance_type == LayerType::Entities {
        lemma_spec_entities_count(
            l.entity_instances@,
            l.entity_instances@.len() as int,
            l.c_wid as int,
            l.c_hei as int,
            seen,
            x,
        );
    }
}

/// Lifted to the first `k` layers of a level.
pub proof fn lemma_spec_layers_count(
    ls: Seq<LayerInstance>,
    k: int,
    seen: Set<Seq<char>>,
    x: Seq<char>,
)
    requires
        0 <= k <= ls.len(),
    ensures
        seen.contains(x) ==> spec_layers_seen(ls, k, seen).contains(x),
        layers_count(spec_layers(ls, k, seen), x) == (
        if spec_layers_seen(ls, k, seen).contains(x) && !seen.contains(x) {
            1nat
        } else {
            0nat
        }),
    decreases k,
{
    if k > 0 {
        lemma_spec_layers_count(ls, k - 1, seen, x);
        let pre = spec_layers(ls, k - 1, seen);
        let tr = spec_layers_seen(ls, k - 1, seen);
        let node = spec_layer_node(ls[k - 1], tr);
        lemma_spec_layer_count(ls[k - 1], tr, x);
        lemma_layers_count_push(pre, node, x);
        assert(pre.push(node) =~= pre + seq![node]);
    }
}

/// Lifted to one whole level: composing a level spawns exactly one live
/// worldly node for each identifier newly recorded by the tracker, and
/// none for an identifier the tracker already held.
pub proof fn lemma_spec_level_count(level: Level, seen: Set<Seq<char>>, x: Seq<char>)
    ensures
        seen.contains(x) ==> spec_level_seen(level, seen).contains(x),
        layers_count(spec_level_node(level, seen).layers, x) == (
        if spec_level_seen(level, seen).contains(x) && !seen.contains(x) {
            1nat
        } else {
            0nat
        }),
{
    lemma_spec_layers_count(
        level.layer_instances@,
        level.layer_instances@.len() as int,
        seen,
        x,
    );
}

/// Composes the tile children of a grid layer: one node per non-empty
/// int-grid cell, then one node per in-bounds placed tile.
fn compose_tiles(csv: &Vec<i32>, mut tiles: Vec<TileInstance>, c_wid: i32, c_hei: i32) -> (r:
    Vec<TileNode>)
    ensures
        r@ == spec_csv_tiles(csv@, csv@.len() as int, c_wid as int, c_hei as int)
            + spec_grid_tiles(tiles@, tiles@.len() as int, c_wid as int, c_hei as int),
{
    let ghost w = c_wid as int;
    let ghost h = c_hei as int;
    let mut out: Vec<TileNode> = Vec::new();
    let mut i: usize = 0;
    while i < csv.len()
        invariant
            i <= csv@.len(),
            out@ == spec_csv_tiles(csv@, i as int, w, h),
            w == c_wid as int,
            h == c_hei as int,
        decreases csv@.len() - i,
    {
        let ghost pre = out@;
        let v = csv[i];
        let in_range = if c_wid > 0 && c_hei > 0 {
            i / (c_wid as usize) < (c_hei as usize)
        } else {
            false
        };
        proof {
            if c_wid > 0 && c_hei > 0 {
                let ii = i as int;
                assert((ii / w < h) == (ii < w * h)) by (nonlinear_arith)
                    requires
                        0 < w,
                        0 <= ii,
                {
                }
                assert(ii / w == ii / (c_wid as usize) as int);
            }
        }
        if v != 0 && in_range {
            let gc = int_grid_index_to_grid_coords(i, c_wid, c_hei);
            out.push(
                TileNode {
                    grid_coords: gc,
                    tile_id: None,
                    int_grid_cell: Some(IntGridCell { value: v }),
                    metadata: None,
                    enum_tags: None,
                },
            );
            proof {
                assert(out@ =~= pre + seq![spec_csv_node(csv@[i as int], i as int, w, h)]);
            }
        } else {
            proof {
                assert(out@ =~= pre + Seq::<TileNode>::empty());
            }
        }
        i = i + 1;
    }
    let ghost csv_part = out@;
    let ghost orig_tiles = tiles@;
    let ghost mut j: int = 0;
    while tiles.len() > 0
        invariant
            0 <= j,
            j + tiles@.len() == orig_tiles.len(),
            tiles@ == orig_tiles.skip(j),
            out@ == csv_part + spec_grid_tiles(orig_tiles, j, w, h),
            w == c_wid as int,
            h == c_hei as int,
        decreases tiles@.len(),
    {
        let ghost pre = out@;
        let t = tiles.remove(0);
        proof {
            assert(t == orig_tiles[j]);
            assert(tiles@ =~= orig_tiles.skip(j + 1));
        }
        let in_bounds = t.grid.x >= 0 && t.grid.x < c_wid && t.grid.y >= 0 && t.grid.y < c_hei;
        if in_bounds {
            let TileInstance { grid, tile_id, metadata, enum_tags } = t;
            let gc = ldtk_grid_coords_to_grid_coords(grid, c_hei);
            let md = match metadata {
                Option::Some(s) => Option::Some(TileMetadata { data: s }),
                Option::None => Option::None,
            };
            out.push(
                TileNode {
                    grid_coords: gc,
                    tile_id: Some(tile_id),
                    int_grid_cell: None,
                    metadata: md,
                    enum_tags,
                },
            );
            proof {
                assert(out@ =~= pre + seq![spec_tile_node(orig_tiles[j], h)]);
            }
        } else {
            proof {
                assert(out@ =~= pre + Seq::<TileNode>::empty());
            }
        }
        proof { j = j + 1; }
    }
    proof {
        assert(orig_tiles.skip(orig_tiles.len() as int).len() == 0);
        assert(tiles@.len() == 0);
        assert(j == orig_tiles.len());
    }
    out
}

/// Composes the entity children of an entity layer, recording newly
/// spawned worldly identifiers in the tracker and reporting suppressed
/// duplicates.
fn compose_entities(
    mut es: Vec<EntityInstance>,
    c_wid: i32,
    c_hei: i32,
    seen: &mut LevelSet,
    suppressed: &mut LevelSet,
) -> (r: Vec<EntityNode>)
    requires
        old(seen).wf(),
        old(suppressed).wf(),
    ensures
        final(seen).wf(),
        final(suppressed).wf(),
        r@ == spec_entities(es@, es@.len() as int, c_wid as int, c_hei as int, old(seen)@),
        final(seen)@ == spec_seen_after(
            es@,
            es@.len() as int,
            c_wid as int,
            c_hei as int,
            old(seen)@,
        ),
        final(suppressed)@ == old(suppressed)@.union(
            spec_suppressed_after(es@, es@.len() as int, c_wid as int, c_hei as int, old(seen)@),
        ),
{
    let ghost w = c_wid as int;
    let ghost h = c_hei as int;
    let ghost orig = es@;
    let ghost seen0 = seen@;
    let ghost suppressed0 = suppressed@;
    let mut out: Vec<EntityNode> = Vec::new();
    let ghost mut j: int = 0;
    while es.len() > 0
        invariant
            0 <= j,
            j + es@.len() == orig.len(),
            es@ == orig.skip(j),
            seen.wf(),
            suppressed.wf(),
            out@ == spec_entities(orig, j, w, h, seen0),
            seen@ == spec_seen_after(orig, j, w, h, seen0),
            suppressed@ == suppressed0.union(spec_suppressed_after(orig, j, w, h, seen0)),
            w == c_wid as int,
            h == c_hei as int,
        decreases es@.len(),
    {
        let ghost pre = out@;
        let e = es.remove(0);
        proof {
            assert(e == orig[j]);
            assert(es@ =~= orig.skip(j + 1));
        }
        let in_bounds = e.grid.x >= 0 && e.grid.x < c_wid && e.grid.y >= 0 && e.grid.y < c_hei;
        if in_bounds {
            let EntityInstance { identifier, iid, grid, worldly, fields } = e;
            if worldly && seen.contains(&iid) {
                suppressed.insert(iid);
                proof {
                    assert(out@ =~= pre + Seq::<EntityNode>::empty());
                    assert(suppressed@ =~= suppressed0.union(
                        spec_suppressed_after(orig, j + 1, w, h, seen0),
                    ));
                }
            } else {
                if worldly {
                    let iid2 = iid.clone();
                    seen.insert(iid2);
                }
                let gc = ldtk_grid_coords_to_grid_coords(grid, c_hei);
                out.push(
                    EntityNode {
                        identifier,
                        entity_iid: iid,
                        grid_coords: gc,
                        worldly,
                        fields,
                    },
                );
                proof {
                    assert(out@ =~= pre + seq![spec_entity_node(orig[j], h)]);
                    if !worldly {
                        assert(seen@ == spec_seen_after(orig, j + 1, w, h, seen0));
                    }
                }
            }
        } else {
            proof {
                assert(out@ =~= pre + Seq::<EntityNode>::empty());
            }
        }
        proof { j = j + 1; }
    }
    proof {
        assert(j == orig.len());
    }
    out
}

/// Composes one layer node, threading the tracker.
fn compose_layer(inst: LayerInstance, seen: &mut LevelSet, suppressed: &mut LevelSet) -> (r:
    LayerNode)
    requires
        old(seen).wf(),
        old(suppressed).wf(),
    ensures
        final(seen).wf(),
        final(suppressed).wf(),
        r@ == spec_layer_node(inst, old(seen)@),
        final(seen)@ == spec_layer_seen(inst, old(seen)@),
        final(suppressed)@ == old(suppressed)@.union(spec_layer_suppressed(inst, old(seen)@)),
{
    let LayerInstance {
        c_hei,
        c_wid,
        grid_size,
        identifier,
        opacity,
        px_total_offset_x,
        px_total_offset_y,
        tileset_def_uid,
        tileset_rel_path,
        layer_instance_type,
        iid,
        layer_def_uid,
        level_id,
        optional_rules,
        override_tileset_uid,
        px_offset_x,
        px_offset_y,
        seed,
        visible,
        int_grid_csv,
        grid_tiles,
        entity_instances,
    } = inst;
    let metadata = LayerMetadata {
        c_hei,
        c_wid,
        grid_size,
        identifier,
        opacity,
        px_total_offset_x,
        px_total_offset_y,
        tileset_def_uid,
        tileset_rel_path,
        layer_instance_type,
        iid,
        layer_def_uid,
        level_id,
        optional_rules,
        override_tileset_uid,
        px_offset_x,
        px_offset_y,
        seed,
        visible,
    };
    if layer_instance_type == LayerType::Entities {
        let entities = compose_entities(entity_instances, c_wid, c_hei, seen, suppressed);
        LayerNode { metadata, tiles: Vec::new(), entities }
    } else {
        let tiles = compose_tiles(&int_grid_csv, grid_tiles, c_wid, c_hei);
        proof {
            assert(old(suppressed)@ =~= old(suppressed)@.union(Set::<Seq<char>>::empty()));
        }
        LayerNode { metadata, tiles, entities: Vec::new() }
    }
}

/// Composes one level node from its description and the current tracker
/// state.
///
/// Pure and deterministic: the result is a function of the description and
/// the tracker state alone, so composing the same inputs twice yields a
/// structurally identical subtree. A worldly entity whose identifier is
/// already seen is suppressed (never duplicated) and reported through
/// `suppressed`; newly spawned worldly identifiers are recorded in
/// `seen`.
pub fn compose_level(level: Level, seen: &mut LevelSet, suppressed: &mut LevelSet) -> (r:
    LevelNode)
    requires
        old(seen).wf(),
        old(suppressed).wf(),
    ensures
        final(seen).wf(),
        final(suppressed).wf(),
        r@ == spec_level_node(level, old(seen)@),
        final(seen)@ == spec_level_seen(level, old(seen)@),
        final(suppressed)@ == old(suppressed)@.union(spec_level_suppressed(level, old(seen)@)),
{
    let ghost seen0 = seen@;
    let ghost suppressed0 = suppressed@;
    let Level { iid, identifier: _identifier, uid: _uid, layer_instances } = level;
    let ghost orig = layer_instances.view();
    let mut rest = layer_instances;
    let mut layers: Vec<LayerNode> = Vec::new();
    let ghost mut j: int = 0;
    while rest.len() > 0
        invariant
            0 <= j,
            j + rest@.len() == orig.len(),
            rest@ == orig.skip(j),
            seen.wf(),
            suppressed.wf(),
            layers@.map_values(|l: LayerNode| l@) == spec_layers(orig, j, seen0),
            seen@ == spec_layers_seen(orig, j, seen0),
            suppressed@ == suppressed0.union(spec_layers_suppressed(orig, j, seen0)),
        decreases rest@.len(),
    {
        let ghost pre = layers@.map_values(|l: LayerNode| l@);
        let inst = rest.remove(0);
        proof {
            assert(inst == orig[j]);
            assert(rest@ =~= orig.skip(j + 1));
        }
        let node = compose_layer(inst, seen, suppressed);
        layers.push(node);
        proof {
            assert(layers@.map_values(|l: LayerNode| l@) =~= pre + seq![
                spec_layer_node(orig[j], spec_layers_seen(orig, j, seen0)),
            ]);
            assert(suppressed@ =~= suppressed0.union(
                spec_layers_suppressed(orig, j + 1, seen0),
            ));
        }
        proof { j = j + 1; }
    }
    proof {
        assert(j == orig.len());
    }
    LevelNode { iid, layers }
}

/// The non-worldly entities among the first `k`, in order: what a layer
/// keeps when its worldly entities are re-parented to the world root.
pub open spec fn spec_kept_entities(es: Seq<EntityNode>, k: int) -> Seq<EntityNode>
    decreases k,
{
    if k <= 0 {
        Seq::empty()
    } else {
        spec_kept_entities(es, k - 1) + if !es[k - 1].worldly {
            seq![es[k - 1]]
        } else {
            Seq::empty()
        }
    }
}

/// The worldly entities among the first `k`, in order: what moves to the
/// world root.
pub open spec fn spec_worldly_part(es: Seq<EntityNode>, k: int) -> Seq<EntityNode>
    decreases k,
{
    if k <= 0 {
        Seq::empty()
    } else {
        spec_worldly_part(es, k - 1) + if es[k - 1].worldly {
            seq![es[k - 1]]
        } else {
            Seq::empty()
        }
    }
}

/// Splitting a layer's entities into kept and promoted parts preserves the
/// worldly count: the kept part counts nothing, the promoted part counts
/// exactly what the whole prefix counted, and every promoted node is
/// worldly.
pub proof fn lemma_drain_counts(es: Seq<EntityNode>, k: int, x: Seq<char>)
    requires
        0 <= k <= es.len(),
    ensures
        ents_count(spec_kept_entities(es, k), x) == 0,
        ents_count(spec_worldly_part(es, k), x) == ents_count(es.take(k), x),
        forall|i: int|
            0 <= i < spec_worldly_part(es, k).len() ==> spec_worldly_part(es, k)[i].worldly,
    decreases k,
{
    if k > 0 {
        lemma_drain_counts(es, k - 1, x);
        assert(es.take(k) =~= es.take(k - 1).push(es[k - 1]));
        lemma_ents_count_push(es.take(k - 1), es[k - 1], x);
        if es[k - 1].worldly {
            assert(spec_worldly_part(es, k) =~= spec_worldly_part(es, k - 1).push(es[k - 1]));
            lemma_ents_count_push(spec_worldly_part(es, k - 1), es[k - 1], x);
            assert(spec_kept_entities(es, k) =~= spec_kept_entities(es, k - 1));
        } else {
            assert(spec_kept_entities(es, k) =~= spec_kept_entities(es, k - 1).push(es[k - 1]));
            lemma_ents_count_push(spec_kept_entities(es, k - 1), es[k - 1], x);
            assert(spec_worldly_part(es, k) =~= spec_worldly_part(es, k - 1));
        }
    } else {
        assert(es.take(0) =~= Seq::<EntityNode>::empty());
    }
}

/// A layer after promotion: geometry and tiles untouched, entities reduced
/// to the non-worldly ones, in order.
pub open spec fn layer_promoted(nv: LayerNodeV, ov: LayerNodeV) -> bool {
    &&& nv.metadata == ov.metadata
    &&& nv.tiles == ov.tiles
    &&& nv.entities == spec_kept_entities(ov.entities, ov.entities.len() as int)
}

/// A level after promotion: identifier untouched, each layer promoted.
pub open spec fn level_promoted(nv: LevelNodeV, ov: LevelNodeV) -> bool {
    &&& nv.iid == ov.iid
    &&& nv.layers.len() == ov.layers.len()
    &&& forall|k: int| 0 <= k < ov.layers.len() ==> layer_promoted(nv.layers[k], ov.layers[k])
}

/// The surviving levels of a pass: each old level whose identifier is not
/// despawned stands in the new list, in order and merely promoted — never
/// rebuilt; despawned levels are gone.
pub open spec fn levels_kept_promoted(
    olds: Seq<LevelNodeV>,
    news: Seq<LevelNodeV>,
    desp: Set<Seq<char>>,
) -> bool
    decreases olds.len(),
{
    if olds.len() == 0 {
        news.len() == 0
    } else if !desp.contains(olds[0].iid@) {
        &&& news.len() > 0
        &&& level_promoted(news[0], olds[0])
        &&& levels_kept_promoted(olds.skip(1), news.skip(1), desp)
    } else {
        levels_kept_promoted(olds.skip(1), news, desp)
    }
}

/// Extending a kept-promoted match by one more old level.
pub proof fn lemma_kept_promoted_snoc(
    olds: Seq<LevelNodeV>,
    news: Seq<LevelNodeV>,
    desp: Set<Seq<char>>,
    o: LevelNodeV,
    n: LevelNodeV,
    kept: bool,
)
    requires
        levels_kept_promoted(olds, news, desp),
        kept ==> !desp.contains(o.iid@) && level_promoted(n, o),
        !kept ==> desp.contains(o.iid@),
    ensures
        kept ==> levels_kept_promoted(olds.push(o), news.push(n), desp),
        !kept ==> levels_kept_promoted(olds.push(o), news, desp),
    decreases olds.len(),
{
    if olds.len() == 0 {
        assert(olds.push(o)[0] == o);
        assert(olds.push(o).skip(1) =~= olds);
        if kept {
            assert(news.push(n)[0] == n);
            assert(news.push(n).skip(1) =~= news);
            assert(levels_kept_promoted(olds.push(o), news.push(n), desp));
        } else {
            assert(levels_kept_promoted(olds.push(o), news, desp));
        }
    } else {
        assert(olds.push(o)[0] == olds[0]);
        assert(olds.push(o).skip(1) =~= olds.skip(1).push(o));
        if !desp.contains(olds[0].iid@) {
            assert(news.push(n)[0] == news[0]);
            assert(news.push(n).skip(1) =~= news.skip(1).push(n));
            lemma_kept_promoted_snoc(olds.skip(1), news.skip(1), desp, o, n, kept);
            if kept {
                assert(levels_kept_promoted(olds.push(o), news.push(n), desp));
            } else {
                assert(levels_kept_promoted(olds.push(o), news, desp));
            }
        } else {
            lemma_kept_promoted_snoc(olds.skip(1), news, desp, o, n, kept);
            if kept {
                assert(levels_kept_promoted(olds.push(o), news.push(n), desp));
            } else {
                assert(levels_kept_promoted(olds.push(o), news, desp));
            }
        }
    }
}

/// The identifiers of a list of level nodes.
pub open spec fn levels_id_set(ls: Seq<LevelNode>) -> Set<Seq<char>> {
    Set::new(|x: Seq<char>| exists|i: int| 0 <= i < ls.len() && ls[i].iid@ == x)
}

/// Pairwise-distinct level identifiers.
pub open spec fn no_dup_levels(ls: Seq<LevelNode>) -> bool {
    forall|i: int, j: int| 0 <= i < j < ls.len() ==> ls[i].iid@ != ls[j].iid@
}

/// The level identifiers a world description declares.
pub open spec fn desc_id_set(levels: Seq<Level>) -> Set<Seq<char>> {
    Set::new(|x: Seq<char>| exists|i: int| 0 <= i < levels.len() && levels[i].iid@ == x)
}

/// The views of a list of level nodes.
pub open spec fn levels_views(ls: Seq<LevelNode>) -> Seq<LevelNodeV> {
    ls.map_values(|l: LevelNode| l@)
}

/// The level nodes spawned by one pass out of the first `k` described
/// levels: in description order, one composed node per level whose
/// identifier the pass wants, threading the tracker from one spawn to the
/// next.
pub open spec fn spec_spawn_nodes(
    levels: Seq<Level>,
    want: Set<Seq<char>>,
    seen: Set<Seq<char>>,
    k: int,
) -> Seq<LevelNodeV>
    decreases k,
{
    if k <= 0 {
        Seq::empty()
    } else {
        spec_spawn_nodes(levels, want, seen, k - 1) + if want.contains(levels[k - 1].iid@) {
            seq![spec_level_node(levels[k - 1], spec_spawn_seen(levels, want, seen, k - 1))]
        } else {
            Seq::empty()
        }
    }
}

/// The tracker state after the pass has walked the first `k` described
/// levels.
pub open spec fn spec_spawn_seen(
    levels: Seq<Level>,
    want: Set<Seq<char>>,
    seen: Set<Seq<char>>,
    k: int,
) -> Set<Seq<char>>
    decreases k,
{
    if k <= 0 {
        seen
    } else {
        let s = spec_spawn_seen(levels, want, seen, k - 1);
        if want.contains(levels[k - 1].iid@) {
            spec_level_seen(levels[k - 1], s)
        } else {
            s
        }
    }
}

/// The duplicate worldly identifiers the pass suppressed while walking the
/// first `k` described levels.
pub open spec fn spec_spawn_suppressed(
    levels: Seq<Level>,
    want: Set<Seq<char>>,
    seen: Set<Seq<char>>,
    k: int,
) -> Set<Seq<char>>
    decreases k,
{
    if k <= 0 {
        Set::empty()
    } else {
        let sup = spec_spawn_suppressed(levels, want, seen, k - 1);
        if want.contains(levels[k - 1].iid@) {
            sup.union(
                spec_level_suppressed(levels[k - 1], spec_spawn_seen(levels, want, seen, k - 1)),
            )
        } else {
            sup
        }
    }
}

/// Across one whole spawn pass the tracker only grows, and the spawned
/// levels together hold exactly one live worldly node for each identifier
/// the tracker newly recorded.
pub proof fn lemma_spec_spawn_count(
    levels: Seq<Level>,
    want: Set<Seq<char>>,
    seen: Set<Seq<char>>,
    k: int,
    x: Seq<char>,
)
    requires
        0 <= k <= levels.len(),
    ensures
        seen.contains(x) ==> spec_spawn_seen(levels, want, seen, k).contains(x),
        levels_count(spec_spawn_nodes(levels, want, seen, k), x) == (
        if spec_spawn_seen(levels, want, seen, k).contains(x) && !seen.contains(x) {
            1nat
        } else {
            0nat
        }),
    decreases k,
{
    if k > 0 {
        lemma_spec_spawn_count(levels, want, seen, k - 1, x);
        let pre = spec_spawn_nodes(levels, want, seen, k - 1);
        let s = spec_spawn_seen(levels, want, seen, k - 1);
        if want.contains(levels[k - 1].iid@) {
            let node = spec_level_node(levels[k - 1], s);
            lemma_spec_level_count(levels[k - 1], s, x);
            lemma_levels_count_push(pre, node, x);
            assert(pre.push(node) =~= pre + seq![node]);
        } else {
            assert(pre + Seq::<LevelNodeV>::empty() =~= pre);
        }
    }
}

/// Splits a layer's entities: the worldly ones move to the world root, the
/// rest stay, in order.
fn drain_entities(mut es: Vec<EntityNode>, root: &mut Vec<EntityNode>) -> (kept: Vec<EntityNode>)
    ensures
        kept@ == spec_kept_entities(es@, es@.len() as int),
        final(root)@ == old(root)@ + spec_worldly_part(es@, es@.len() as int),
{
    let ghost orig = es@;
    let ghost root0 = root@;
    let mut kept: Vec<EntityNode> = Vec::new();
    let ghost mut j: int = 0;
    proof {
        assert(root@ =~= root0 + spec_worldly_part(orig, 0));
    }
    while es.len() > 0
        invariant
            0 <= j,
            j + es@.len() == orig.len(),
            es@ == orig.skip(j),
            kept@ == spec_kept_entities(orig, j),
            root@ == root0 + spec_worldly_part(orig, j),
        decreases es@.len(),
    {
        let ghost pre_kept = kept@;
        let ghost pre_root = root@;
        let e = es.remove(0);
        proof {
            assert(e == orig[j]);
            assert(es@ =~= orig.skip(j + 1));
        }
        if e.worldly {
            root.push(e);
            proof {
                assert(root@ =~= root0 + spec_worldly_part(orig, j + 1));
            }
        } else {
            kept.push(e);
            proof {
                assert(kept@ =~= spec_kept_entities(orig, j + 1));
            }
        }
        proof {
            j = j + 1;
        }
    }
    kept
}

/// Promotes one level: every worldly entity under any of its layers moves
/// to the world root; everything else is untouched.
fn promote_level(level: LevelNode, root: &mut Vec<EntityNode>) -> (r: LevelNode)
    ensures
        level_promoted(r@, level@),
        r.iid == level.iid,
        forall|x: Seq<char>| #[trigger]
            ents_count(final(root)@, x) == ents_count(old(root)@, x) + layers_count(
                level@.layers,
                x,
            ),
        forall|x: Seq<char>| #[trigger] layers_count(r@.layers, x) == 0,
        forall|i: int|
            old(root)@.len() <= i < final(root)@.len() ==> final(root)@[i].worldly,
        old(root)@.len() <= final(root)@.len(),
        forall|i: int| 0 <= i < old(root)@.len() ==> final(root)@[i] == old(root)@[i],
{
    let ghost root0 = root@;
    let ghost orig_exec = level.layers@;
    let ghost orig = level.layers@.map_values(|q: LayerNode| q@);
    let LevelNode { iid, layers } = level;
    let mut rest = layers;
    let mut out: Vec<LayerNode> = Vec::new();
    let ghost mut j: int = 0;
    proof {
        assert(orig.take(0) =~= Seq::<LayerNodeV>::empty());
    }
    while rest.len() > 0
        invariant
            0 <= j,
            j + rest@.len() == orig_exec.len(),
            rest@ == orig_exec.skip(j),
            orig == orig_exec.map_values(|q: LayerNode| q@),
            orig.len() == orig_exec.len(),
            out@.len() == j,
            forall|k: int| 0 <= k < j ==> layer_promoted(#[trigger] out@[k]@, orig[k]),
            forall|x: Seq<char>| #[trigger]
                ents_count(root@, x) == ents_count(root0, x) + layers_count(orig.take(j), x),
            forall|i: int| root0.len() <= i < root@.len() ==> root@[i].worldly,
            root0.len() <= root@.len(),
            forall|i: int| 0 <= i < root0.len() ==> root@[i] == root0[i],
        decreases rest@.len(),
    {
        let ghost pre_root = root@;
        let l = rest.remove(0);
        proof {
            assert(l == orig_exec[j]);
            assert(l@ == orig[j]);
            assert(rest@ =~= orig_exec.skip(j + 1));
        }
        let LayerNode { metadata, tiles, entities } = l;
        let ghost ev = entities@;
        let kept = drain_entities(entities, root);
        let node = LayerNode { metadata, tiles, entities: kept };
        proof {
            assert(layer_promoted(node@, orig[j]));
        }
        out.push(node);
        proof {
            assert forall|x: Seq<char>| #[trigger]
                ents_count(root@, x) == ents_count(root0, x) + layers_count(
                    orig.take(j + 1),
                    x,
                ) by {
                lemma_drain_counts(ev, ev.len() as int, x);
                assert(ev.take(ev.len() as int) =~= ev);
                lemma_ents_count_concat(pre_root, spec_worldly_part(ev, ev.len() as int), x);
                assert(orig.take(j + 1) =~= orig.take(j).push(orig[j]));
                lemma_layers_count_push(orig.take(j), orig[j], x);
            }
            assert forall|i: int|
                root0.len() <= i < root@.len() implies root@[i].worldly by {
                lemma_drain_counts(ev, ev.len() as int, Seq::<char>::empty());
                if i >= pre_root.len() {
                    assert(root@[i] == spec_worldly_part(ev, ev.len() as int)[i - pre_root.len()]);
                }
            }
            j = j + 1;
        }
    }
    proof {
        assert(orig.take(orig.len() as int) =~= orig);
        assert(j == orig.len());
    }
    let r = LevelNode { iid, layers: out };
    proof {
        assert(r@.layers.len() == orig.len());
        assert forall|k: int| 0 <= k < orig.len() implies layer_promoted(
            #[trigger] r@.layers[k],
            orig[k],
        ) by {
            assert(r@.layers[k] == out@[k]@);
        }
        assert forall|x: Seq<char>| #[trigger] layers_count(r@.layers, x) == 0 by {
            lemma_promoted_layers_zero(r@.layers, orig, x);
        }
    }
    r
}

/// A list of promoted layers counts no live worldly node: promotion left
/// only the non-worldly entities behind.
pub proof fn lemma_promoted_layers_zero(news: Seq<LayerNodeV>, olds: Seq<LayerNodeV>, x: Seq<char>)
    requires
        news.len() == olds.len(),
        forall|k: int| 0 <= k < olds.len() ==> layer_promoted(#[trigger] news[k], olds[k]),
    ensures
        layers_count(news, x) == 0,
    decreases news.len(),
{
    if news.len() > 0 {
        assert(layer_promoted(news[0], olds[0]));
        lemma_drain_counts(olds[0].entities, olds[0].entities.len() as int, x);
        assert forall|k: int| 0 <= k < olds.skip(1).len() implies layer_promoted(
            #[trigger] news.skip(1)[k],
            olds.skip(1)[k],
        ) by {
            assert(news.skip(1)[k] == news[k + 1]);
            assert(olds.skip(1)[k] == olds[k + 1]);
        }
        lemma_promoted_layers_zero(news.skip(1), olds.skip(1), x);
    }
}

/// Collects the identifiers of the spawned levels, in order.
fn collect_level_iids(levels: &Vec<LevelNode>) -> (r: Vec<String>)
    ensures
        r@.len() == levels@.len(),
        forall|i: int| 0 <= i < r@.len() ==> r@[i]@ == levels@[i].iid@,
        id_set(r@) == levels_id_set(levels@),
{
    let mut r: Vec<String> = Vec::new();
    let mut i: usize = 0;
    while i < levels.len()
        invariant
            i <= levels@.len(),
            r@.len() == i,
            forall|k: int| 0 <= k < i ==> r@[k]@ == levels@[k].iid@,
        decreases levels@.len() - i,
    {
        r.push(levels[i].iid.clone());
        i = i + 1;
    }
    proof {
        assert forall|x: Seq<char>| id_set(r@).contains(x) implies levels_id_set(
            levels@,
        ).contains(x) by {
            let k = choose|k: int| 0 <= k < r@.len() && r@[k]@ == x;
            assert(levels@[k].iid@ == x);
        }
        assert forall|x: Seq<char>| levels_id_set(levels@).contains(x) implies id_set(
            r@,
        ).contains(x) by {
            let k = choose|k: int| 0 <= k < levels@.len() && levels@[k].iid@ == x;
            assert(r@[k]@ == x);
        }
        assert(id_set(r@) =~= levels_id_set(levels@));
    }
    r
}

/// Collects the identifiers the world description declares, in order.
fn collect_desc_iids(levels: &Vec<Level>) -> (r: Vec<String>)
    ensures
        r@.len() == levels@.len(),
        forall|i: int| 0 <= i < r@.len() ==> r@[i]@ == levels@[i].iid@,
        id_set(r@) == desc_id_set(levels@),
{
    let mut r: Vec<String> = Vec::new();
    let mut i: usize = 0;
    while i < levels.len()
        invariant
            i <= levels@.len(),
            r@.len() == i,
            forall|k: int| 0 <= k < i ==> r@[k]@ == levels@[k].iid@,
        decreases levels@.len() - i,
    {
        r.push(levels[i].iid.clone());
        i = i + 1;
    }
    proof {
        assert forall|x: Seq<char>| id_set(r@).contains(x) implies desc_id_set(
            levels@,
        ).contains(x) by {
            let k = choose|k: int| 0 <= k < r@.len() && r@[k]@ == x;
            assert(levels@[k].iid@ == x);
        }
        assert forall|x: Seq<char>| desc_id_set(levels@).contains(x) implies id_set(
            r@,
        ).contains(x) by {
            let k = choose|k: int| 0 <= k < levels@.len() && levels@[k].iid@ == x;
            assert(r@[k]@ == x);
        }
        assert(id_set(r@) =~= desc_id_set(levels@));
    }
    r
}

/// What one reconciliation pass did: its decisions, the desired levels the
/// world could not satisfy yet (retried next pass), and the duplicate
/// worldly identifiers whose re-creation was suppressed.
#[derive(Clone, Debug, PartialEq)]
pub struct PassReport {
    /// Levels spawned this pass.
    pub spawned: Vec<String>,
    /// Levels despawned this pass (a respawned level stands in both lists).
    pub despawned: Vec<String>,
    /// Levels desired and realized, left untouched.
    pub unchanged: Vec<String>,
    /// Desired levels the loaded world does not describe: skipped and
    /// reported, never a failure.
    pub missing: Vec<String>,
    /// Worldly identifiers whose re-creation was suppressed.
    pub suppressed: Vec<String>,
}

/// The live scene graph of one loaded world, together with the desired
/// level set, the worldly-entity tracker and the pending respawn markers.
pub struct LdtkWorld {
    /// The desired spawn state. Mutating it is idempotent; the next pass
    /// realizes it.
    pub level_set: LevelSet,
    /// The realized levels, children of this world.
    pub levels: Vec<LevelNode>,
    /// The worldly entities re-parented to the world root. They outlive
    /// every level and die only with the world.
    pub worldly_entities: Vec<EntityNode>,
    /// The worldly identifiers ever spawned under this world. Scoped to
    /// the world's lifetime; cleared only when the world is despawned.
    pub seen_worldly: LevelSet,
    /// Levels carrying a respawn marker, forced down and up again on the
    /// next pass.
    pub respawn_marked: LevelSet,
    /// A respawn marker on the world itself: every realized level is
    /// forced down and up again on the next pass.
    pub respawn_world: bool,
}

impl LdtkWorld {
    /// The desired level identifiers.
    pub open spec fn desired_set(&self) -> Set<Seq<char>> {
        self.level_set@
    }

    /// The realized level identifiers.
    pub open spec fn realized_set(&self) -> Set<Seq<char>> {
        levels_id_set(self.levels@)
    }

    /// The identifiers treated as respawn-forced on the next pass.
    pub open spec fn respawn_set(&self) -> Set<Seq<char>> {
        if self.respawn_world {
            self.realized_set()
        } else {
            self.respawn_marked@
        }
    }

    /// How many live scene nodes carry the worldly identifier `x`: nodes
    /// re-parented to the world root plus nodes still under their birth
    /// level.
    pub open spec fn live_count(&self, x: Seq<char>) -> nat {
        ents_count(self.worldly_entities@, x) + levels_count(levels_views(self.levels@), x)
    }

    /// The world's invariant. Besides well-formed components it states the
    /// at-most-one guarantee: no worldly identifier is carried by two live
    /// scene nodes, and every live worldly identifier is tracked.
    pub open spec fn wf(&self) -> bool {
        &&& self.level_set.wf()
        &&& self.seen_worldly.wf()
        &&& self.respawn_marked.wf()
        &&& no_dup_levels(self.levels@)
        &&& forall|i: int|
            0 <= i < self.worldly_entities@.len() ==> self.worldly_entities@[i].worldly
        &&& forall|x: Seq<char>| #[trigger] self.live_count(x) <= 1
        &&& forall|x: Seq<char>| #[trigger] self.live_count(x) > 0 ==> self.seen_worldly@.contains(x)
    }

    /// An empty world: nothing desired, nothing realized, nothing tracked.
    pub fn new() -> (r: LdtkWorld)
        ensures
            r.wf(),
            r.desired_set() == Set::<Seq<char>>::empty(),
            r.realized_set() == Set::<Seq<char>>::empty(),
            r.seen_worldly@ == Set::<Seq<char>>::empty(),
            r.respawn_set() == Set::<Seq<char>>::empty(),
    {
        let r = LdtkWorld {
            level_set: LevelSet::new(),
            levels: Vec::new(),
            worldly_entities: Vec::new(),
            seen_worldly: LevelSet::new(),
            respawn_marked: LevelSet::new(),
            respawn_world: false,
        };
        proof {
            assert(levels_views(r.levels@) =~= Seq::<LevelNodeV>::empty());
            assert(r.realized_set() =~= Set::<Seq<char>>::empty());
        }
        r
    }

    /// Replaces the desired level set.
    pub fn set_desired(&mut self, desired: LevelSet)
        requires
            old(self).wf(),
            desired.wf(),
        ensures
            final(self).wf(),
            final(self).level_set == desired,
            *final(self) == (LdtkWorld { level_set: desired, ..*old(self) }),
    {
        self.level_set = desired;
        proof {
            assert forall|x: Seq<char>| #[trigger]
                self.live_count(x) == old(self).live_count(x) by {}
        }
    }

    /// Attaches a respawn marker to a level: on the next pass the level is
    /// treated as not realized, forcing its despawn-then-respawn, and the
    /// marker is cleared. Idempotent.
    pub fn mark_respawn(&mut self, iid: String)
        requires
            old(self).wf(),
        ensures
            final(self).wf(),
            final(self).respawn_marked@ == old(self).respawn_marked@.insert(iid@),
            *final(self) == (LdtkWorld {
                respawn_marked: final(self).respawn_marked,
                ..*old(self)
            }),
    {
        self.respawn_marked.insert(iid);
        proof {
            assert forall|x: Seq<char>| #[trigger]
                self.live_count(x) == old(self).live_count(x) by {}
        }
    }

    /// Attaches a respawn marker to the world itself: the next pass forces
    /// every realized level down and up again.
    pub fn mark_respawn_world(&mut self)
        requires
            old(self).wf(),
        ensures
            final(self).wf(),
            final(self).respawn_world,
            *final(self) == (LdtkWorld { respawn_world: true, ..*old(self) }),
    {
        self.respawn_world = true;
        proof {
            assert forall|x: Seq<char>| #[trigger]
                self.live_count(x) == old(self).live_count(x) by {}
        }
    }

    /// The respawn marker currently attached to the given level, if any.
    pub fn respawn_marker(&self, iid: &String) -> (r: Option<crate::components::Respawn>)
        ensures
            r is Some <==> (self.respawn_world || self.respawn_marked@.contains(iid@)),
    {
        if self.respawn_world || self.respawn_marked.contains(iid) {
            Some(crate::components::Respawn)
        } else {
            None
        }
    }

    /// The identifiers of the realized levels, in spawn order.
    pub fn realized_iids(&self) -> (r: Vec<String>)
        ensures
            id_set(r@) == self.realized_set(),
            forall|i: int| 0 <= i < r@.len() ==> r@[i]@ == self.levels@[i].iid@,
    {
        collect_level_iids(&self.levels)
    }

    /// The worldly identifiers tracked by this world.
    pub fn worldly_iids(&self) -> (r: &Vec<String>)
        ensures
            id_set(r@) == self.seen_worldly@,
    {
        &self.seen_worldly.iids
    }

    /// Destroys the world: every level, every tracked worldly entity and
    /// the whole tracking state go with it. The desired set is kept, so a
    /// later reload realizes it again.
    pub fn despawn_world(&mut self)
        requires
            old(self).wf(),
        ensures
            final(self).wf(),
            final(self).level_set == old(self).level_set,
            final(self).realized_set() == Set::<Seq<char>>::empty(),
            final(self).worldly_entities@.len() == 0,
            final(self).seen_worldly@ == Set::<Seq<char>>::empty(),
            final(self).respawn_set() == Set::<Seq<char>>::empty(),
            !final(self).respawn_world,
    {
        self.levels = Vec::new();
        self.worldly_entities = Vec::new();
        self.seen_worldly = LevelSet::new();
        self.respawn_marked = LevelSet::new();
        self.respawn_world = false;
        proof {
            assert(levels_views(self.levels@) =~= Seq::<LevelNodeV>::empty());
            assert(self.realized_set() =~= Set::<Seq<char>>::empty());
        }
    }

    /// The at-most-one law: in a well-formed world no two live scene nodes
    /// carry the same worldly identifier, whatever sequence of operations
    /// built the world — every operation of this type preserves `wf`.
    pub proof fn lemma_at_most_one_live(&self, x: Seq<char>)
        requires
            self.wf(),
        ensures
            self.live_count(x) <= 1,
    {
    }
}

/// A list of levels none of which holds a live worldly node counts none.
pub proof fn lemma_levels_all_zero(ls: Seq<LevelNodeV>, x: Seq<char>)
    requires
        forall|k: int| 0 <= k < ls.len() ==> #[trigger] layers_count(ls[k].layers, x) == 0,
    ensures
        levels_count(ls, x) == 0,
    decreases ls.len(),
{
    if ls.len() > 0 {
        assert(forall|k: int|
            0 <= k < ls.skip(1).len() ==> #[trigger] layers_count(ls.skip(1)[k].layers, x)
                == layers_count(ls[k + 1].layers, x));
        lemma_levels_all_zero(ls.skip(1), x);
    }
}

/// The levels one pass over `desc` wants to spawn.
pub open spec fn tick_want(w: LdtkWorld, desc: WorldDescription) -> Set<Seq<char>> {
    spawn_set(w.desired_set(), w.realized_set(), w.respawn_set(), desc_id_set(desc.levels@))
}

/// The level nodes one pass over `desc` spawns, in description order.
pub open spec fn tick_spawned_nodes(w: LdtkWorld, desc: WorldDescription) -> Seq<LevelNodeV> {
    spec_spawn_nodes(desc.levels@, tick_want(w, desc), w.seen_worldly@, desc.levels@.len() as int)
}

/// The tracker state after one pass over `desc`.
pub open spec fn tick_seen(w: LdtkWorld, desc: WorldDescription) -> Set<Seq<char>> {
    spec_spawn_seen(desc.levels@, tick_want(w, desc), w.seen_worldly@, desc.levels@.len() as int)
}

/// The duplicate worldly identifiers one pass over `desc` suppresses.
pub open spec fn tick_suppressed(w: LdtkWorld, desc: WorldDescription) -> Set<Seq<char>> {
    spec_spawn_suppressed(
        desc.levels@,
        tick_want(w, desc),
        w.seen_worldly@,
        desc.levels@.len() as int,
    )
}

impl LdtkWorld {
    /// One reconciliation pass against the loaded world description.
    ///
    /// In order: worldly entities spawned on an earlier pass are
    /// re-parented from their birth levels to the world root; the desired
    /// set is diffed against the realized set, with respawn-marked levels
    /// treated as not realized; despawns run before spawns, so worldly
    /// re-parenting from an old level instance completes before a new
    /// instance's entities are created; wanted levels described by the
    /// world are composed and spawned, never duplicating a tracked worldly
    /// identifier; and every respawn marker is cleared exactly once.
    ///
    /// Untouched levels are not rebuilt: each one survives merely
    /// promoted, in order. Desired levels the description lacks are
    /// skipped and reported, to be retried on the next pass.
    pub fn tick(&mut self, desc: WorldDescription) -> (r: PassReport)
        requires
            old(self).wf(),
            desc.wf(),
        ensures
            final(self).wf(),
            final(self).level_set == old(self).level_set,
            final(self).realized_set() == next_realized(
                old(self).desired_set(),
                old(self).realized_set(),
                old(self).respawn_set(),
                desc_id_set(desc.levels@),
            ),
            final(self).respawn_marked@ == Set::<Seq<char>>::empty(),
            !final(self).respawn_world,
            old(self).worldly_entities@.len() <= final(self).worldly_entities@.len(),
            forall|i: int|
                0 <= i < old(self).worldly_entities@.len() ==> final(self).worldly_entities@[i]
                    == old(self).worldly_entities@[i],
            forall|i: int|
                old(self).worldly_entities@.len() <= i < final(self).worldly_entities@.len()
                    ==> final(self).worldly_entities@[i].worldly,
            forall|x: Seq<char>| #[trigger]
                ents_count(final(self).worldly_entities@, x) == ents_count(
                    old(self).worldly_entities@,
                    x,
                ) + levels_count(levels_views(old(self).levels@), x),
            final(self).seen_worldly@ == tick_seen(*old(self), desc),
            no_dup_ids(r.spawned@),
            no_dup_ids(r.despawned@),
            no_dup_ids(r.unchanged@),
            no_dup_ids(r.missing@),
            no_dup_ids(r.suppressed@),
            id_set(r.spawned@) == tick_want(*old(self), desc),
            id_set(r.despawned@) == despawn_set(
                old(self).desired_set(),
                old(self).realized_set(),
                old(self).respawn_set(),
            ),
            id_set(r.unchanged@) == unchanged_set(
                old(self).desired_set(),
                old(self).realized_set(),
                old(self).respawn_set(),
            ),
            id_set(r.missing@) == missing_set(
                old(self).desired_set(),
                old(self).realized_set(),
                old(self).respawn_set(),
                desc_id_set(desc.levels@),
            ),
            id_set(r.suppressed@) == tick_suppressed(*old(self), desc),
            tick_spawned_nodes(*old(self), desc).len() <= final(self).levels@.len(),
            levels_views(final(self).levels@) == levels_views(final(self).levels@).take(
                final(self).levels@.len() - tick_spawned_nodes(*old(self), desc).len(),
            ) + tick_spawned_nodes(*old(self), desc),
            levels_kept_promoted(
                levels_views(old(self).levels@),
                levels_views(final(self).levels@).take(
                    final(self).levels@.len() - tick_spawned_nodes(*old(self), desc).len(),
                ),
                despawn_set(
                    old(self).desired_set(),
                    old(self).realized_set(),
                    old(self).respawn_set(),
                ),
            ),
    {
        let ghost w0 = *old(self);
        let ghost d = w0.desired_set();
        let ghost r0 = w0.realized_set();
        let ghost p = w0.respawn_set();
        let ghost a = desc_id_set(desc.levels@);
        let ghost oldviews = levels_views(w0.levels@);
        let ghost root0 = self.worldly_entities@;

        // Re-parent worldly entities spawned on an earlier pass.
        let mut work: Vec<LevelNode> = Vec::new();
        core::mem::swap(&mut self.levels, &mut work);
        let mut promoted: Vec<LevelNode> = Vec::new();
        let ghost mut j: int = 0;
        proof {
            assert(oldviews.take(0) =~= Seq::<LevelNodeV>::empty());
        }
        while work.len() > 0
            invariant
                0 <= j,
                j + work@.len() == w0.levels@.len(),
                work@ == w0.levels@.skip(j),
                promoted@.len() == j,
                oldviews == levels_views(w0.levels@),
                oldviews.len() == w0.levels@.len(),
                forall|k: int|
                    0 <= k < j ==> level_promoted(#[trigger] promoted@[k]@, oldviews[k]),
                forall|k: int| 0 <= k < j ==> (#[trigger] promoted@[k]).iid@ == w0.levels@[k].iid@,
                forall|k: int, x: Seq<char>|
                    0 <= k < j ==> #[trigger] layers_count(promoted@[k]@.layers, x) == 0,
                forall|x: Seq<char>| #[trigger]
                    ents_count(self.worldly_entities@, x) == ents_count(root0, x) + levels_count(
                        oldviews.take(j),
                        x,
                    ),
                forall|i: int|
                    0 <= i < self.worldly_entities@.len()
                        ==> (#[trigger] self.worldly_entities@[i]).worldly,
                root0.len() <= self.worldly_entities@.len(),
                forall|i: int| 0 <= i < root0.len() ==> self.worldly_entities@[i] == root0[i],
                self.level_set == w0.level_set,
                self.seen_worldly == w0.seen_worldly,
                self.respawn_marked == w0.respawn_marked,
                self.respawn_world == w0.respawn_world,
            decreases work@.len(),
        {
            let lvl = work.remove(0);
            proof {
                assert(lvl == w0.levels@[j]);
                assert(lvl@ == oldviews[j]);
                assert(work@ =~= w0.levels@.skip(j + 1));
            }
            let ghost preroot = self.worldly_entities@;
            let node = promote_level(lvl, &mut self.worldly_entities);
            promoted.push(node);
            proof {
                assert forall|x: Seq<char>| #[trigger]
                    ents_count(self.worldly_entities@, x) == ents_count(root0, x) + levels_count(
                        oldviews.take(j + 1),
                        x,
                    ) by {
                    assert(oldviews.take(j + 1) =~= oldviews.take(j).push(oldviews[j]));
                    lemma_levels_count_push(oldviews.take(j), oldviews[j], x);
                }
                j = j + 1;
            }
        }
        proof {
            assert(oldviews.take(oldviews.len() as int) =~= oldviews);
            assert(j == oldviews.len());
        }
        self.levels = promoted;
        let ghost root_p = self.worldly_entities@;

        // Diff the desired set against the realized set.
        let realized_vec = collect_level_iids(&self.levels);
        proof {
            assert forall|x: Seq<char>| id_set(realized_vec@).contains(x) implies r0.contains(
                x,
            ) by {
                let k = choose|k: int| 0 <= k < realized_vec@.len() && realized_vec@[k]@ == x;
                assert(w0.levels@[k].iid@ == x);
            }
            assert forall|x: Seq<char>| r0.contains(x) implies id_set(realized_vec@).contains(
                x,
            ) by {
                let k = choose|k: int| 0 <= k < w0.levels@.len() && w0.levels@[k].iid@ == x;
                assert(realized_vec@[k]@ == x);
            }
            assert(id_set(realized_vec@) =~= r0);
            assert(no_dup_ids(realized_vec@));
        }
        let realized = LevelSet { iids: realized_vec };
        let available_vec = collect_desc_iids(&desc.levels);
        proof {
            assert(no_dup_ids(available_vec@));
        }
        let available = LevelSet { iids: available_vec };
        let diff = if self.respawn_world {
            reconcile(&self.level_set, &realized, &realized, &available)
        } else {
            reconcile(&self.level_set, &realized, &self.respawn_marked, &available)
        };
        let ghost want = spawn_set(d, r0, p, a);
        let ghost desp = despawn_set(d, r0, p);
        proof {
            assert(id_set(diff.to_spawn@) == want);
            assert(id_set(diff.to_despawn@) == desp);
        }

        // Despawn: drop undesired and respawn-forced levels. Their worldly
        // entities were promoted above, so nothing tracked dies with them.
        let mut work2: Vec<LevelNode> = Vec::new();
        core::mem::swap(&mut self.levels, &mut work2);
        let ghost plevels = work2@;
        let mut kept: Vec<LevelNode> = Vec::new();
        let ghost mut j2: int = 0;
        proof {
            assert(levels_kept_promoted(
                oldviews.take(0),
                levels_views(kept@),
                desp,
            )) by {
                assert(oldviews.take(0) =~= Seq::<LevelNodeV>::empty());
                assert(levels_views(kept@) =~= Seq::<LevelNodeV>::empty());
            }
            assert(levels_id_set(kept@) =~= levels_id_set(w0.levels@.take(0)).difference(desp));
        }
        while work2.len() > 0
            invariant
                0 <= j2,
                j2 + work2@.len() == plevels.len(),
                work2@ == plevels.skip(j2),
                plevels.len() == w0.levels@.len(),
                oldviews == levels_views(w0.levels@),
                oldviews.len() == w0.levels@.len(),
                forall|k: int|
                    0 <= k < plevels.len() ==> level_promoted(#[trigger] plevels[k]@, oldviews[k]),
                forall|k: int|
                    0 <= k < plevels.len() ==> (#[trigger] plevels[k]).iid@ == w0.levels@[k].iid@,
                forall|k: int, x: Seq<char>|
                    0 <= k < plevels.len() ==> #[trigger] layers_count(plevels[k]@.layers, x) == 0,
                levels_kept_promoted(oldviews.take(j2), levels_views(kept@), desp),
                no_dup_levels(kept@),
                levels_id_set(kept@) == levels_id_set(w0.levels@.take(j2)).difference(desp),
                forall|k: int, x: Seq<char>|
                    0 <= k < kept@.len() ==> #[trigger] layers_count(kept@[k]@.layers, x) == 0,
                no_dup_levels(w0.levels@),
                id_set(diff.to_despawn@) == desp,
            decreases work2@.len(),
        {
            let ghost prekept = levels_views(kept@);
            let ghost prekeptv = kept@;
            let lvl = work2.remove(0);
            proof {
                assert(lvl == plevels[j2]);
                assert(work2@ =~= plevels.skip(j2 + 1));
                assert(lvl.iid@ == w0.levels@[j2].iid@);
                assert(oldviews[j2].iid == w0.levels@[j2].iid);
                assert(oldviews.take(j2 + 1) =~= oldviews.take(j2).push(oldviews[j2]));
                assert(w0.levels@.take(j2 + 1) =~= w0.levels@.take(j2).push(w0.levels@[j2]));
            }
            if ids_contain(&diff.to_despawn, &lvl.iid) {
                proof {
                    lemma_kept_promoted_snoc(
                        oldviews.take(j2),
                        prekept,
                        desp,
                        oldviews[j2],
                        lvl@,
                        false,
                    );
                    assert forall|x: Seq<char>|
                        levels_id_set(w0.levels@.take(j2 + 1)).difference(desp).contains(x)
                            implies levels_id_set(kept@).contains(x) by {
                        let k = choose|k: int|
                            #![trigger w0.levels@.take(j2 + 1)[k]]
                            0 <= k < w0.levels@.take(j2 + 1).len() && w0.levels@.take(j2 + 1)[k].iid@
                                == x;
                        assert(w0.levels@.take(j2)[k].iid@ == x);
                    }
                    assert(levels_id_set(kept@) =~= levels_id_set(w0.levels@.take(j2 + 1))
                        .difference(desp));
                }
            } else {
                proof {
                    assert(level_promoted(lvl@, oldviews[j2]));
                    lemma_kept_promoted_snoc(
                        oldviews.take(j2),
                        prekept,
                        desp,
                        oldviews[j2],
                        lvl@,
                        true,
                    );
                }
                kept.push(lvl);
                proof {
                    assert(levels_views(kept@) =~= prekept.push(lvl@));
                    assert forall|k: int|
                        0 <= k < kept@.len() && k < prekeptv.len() implies kept@[k]
                            == prekeptv[k] by {}
                    assert forall|x: Seq<char>| levels_id_set(kept@).contains(x)
                        == levels_id_set(w0.levels@.take(j2 + 1)).difference(desp).contains(
                        x,
                    ) by {
                        if levels_id_set(kept@).contains(x) {
                            let k = choose|k: int| 0 <= k < kept@.len() && kept@[k].iid@ == x;
                            if k < prekeptv.len() {
                                assert(levels_id_set(prekeptv).contains(x));
                                let k2 = choose|k2: int|
                                    #![trigger w0.levels@.take(j2)[k2]]
                                    0 <= k2 < w0.levels@.take(j2).len() && w0.levels@.take(
                                        j2,
                                    )[k2].iid@ == x;
                                assert(w0.levels@.take(j2 + 1)[k2].iid@ == x);
                            } else {
                                assert(w0.levels@.take(j2 + 1)[j2].iid@ == x);
                            }
                            assert(levels_id_set(w0.levels@.take(j2 + 1)).contains(x));
                            assert(!desp.contains(x));
                        }
                        if levels_id_set(w0.levels@.take(j2 + 1)).contains(x) && !desp.contains(
                            x,
                        ) {
                            let k = choose|k: int|
                                #![trigger w0.levels@.take(j2 + 1)[k]]
                                0 <= k < w0.levels@.take(j2 + 1).len() && w0.levels@.take(
                                    j2 + 1,
                                )[k].iid@ == x;
                            if k < j2 {
                                assert(w0.levels@.take(j2)[k].iid@ == x);
                                assert(levels_id_set(prekeptv).contains(x));
                                let k2 = choose|k2: int|
                                    0 <= k2 < prekeptv.len() && prekeptv[k2].iid@ == x;
                                assert(kept@[k2].iid@ == x);
                            } else {
                                assert(kept@[kept@.len() - 1].iid@ == x);
                            }
                            assert(levels_id_set(kept@).contains(x));
                        }
                    }
                    assert(levels_id_set(kept@) =~= levels_id_set(w0.levels@.take(j2 + 1))
                        .difference(desp));
                    assert forall|i: int, k: int|
                        0 <= i < k < kept@.len() implies kept@[i].iid@ != kept@[k].iid@ by {
                        if k == kept@.len() - 1 {
                            assert(levels_id_set(prekeptv).contains(kept@[i].iid@));
                            let k2 = choose|k2: int|
                                #![trigger w0.levels@.take(j2)[k2]]
                                0 <= k2 < w0.levels@.take(j2).len() && w0.levels@.take(j2)[k2].iid@
                                    == kept@[i].iid@;
                            assert(w0.levels@[k2].iid@ == kept@[i].iid@);
                            assert(w0.levels@[j2].iid@ == kept@[k].iid@);
                        }
                    }
                }
            }
            proof {
                j2 = j2 + 1;
            }
        }
        proof {
            assert(oldviews.take(j2) =~= oldviews);
            assert(w0.levels@.take(j2) =~= w0.levels@);
            assert(levels_id_set(w0.levels@) =~= r0);
        }
        self.levels = kept;
        let ghost keptviews = levels_views(self.levels@);
        let ghost keptset = levels_id_set(self.levels@);

        // Spawn: compose each wanted, described level, in description
        // order, threading the worldly tracker so no tracked identifier is
        // ever re-created.
        let ghost seen0 = w0.seen_worldly@;
        let WorldDescription { levels: desc_levels } = desc;
        let ghost desc0 = desc_levels@;
        let mut suppressed = LevelSet::new();
        let mut work3 = desc_levels;
        let ghost mut j3: int = 0;
        proof {
            assert(self.seen_worldly@ == spec_spawn_seen(desc0, want, seen0, 0));
            assert(suppressed@ =~= spec_spawn_suppressed(desc0, want, seen0, 0));
            assert(levels_views(self.levels@) =~= keptviews + spec_spawn_nodes(
                desc0,
                want,
                seen0,
                0,
            ));
            assert(desc_id_set(desc0.take(0)) =~= Set::<Seq<char>>::empty());
            assert(levels_id_set(self.levels@) =~= keptset.union(
                want.intersect(desc_id_set(desc0.take(0))),
            ));
        }
        while work3.len() > 0
            invariant
                0 <= j3,
                j3 + work3@.len() == desc0.len(),
                work3@ == desc0.skip(j3),
                desc0.len() == desc0.len(),
                forall|i: int, k: int| 0 <= i < k < desc0.len() ==> desc0[i].iid@ != desc0[k].iid@,
                self.seen_worldly.wf(),
                suppressed.wf(),
                self.seen_worldly@ == spec_spawn_seen(desc0, want, seen0, j3),
                suppressed@ == spec_spawn_suppressed(desc0, want, seen0, j3),
                levels_views(self.levels@) == keptviews + spec_spawn_nodes(desc0, want, seen0, j3),
                keptviews.len() <= self.levels@.len(),
                forall|k: int|
                    0 <= k < keptviews.len() ==> #[trigger] levels_views(self.levels@)[k]
                        == keptviews[k],
                levels_id_set(self.levels@) == keptset.union(
                    want.intersect(desc_id_set(desc0.take(j3))),
                ),
                no_dup_levels(self.levels@),
                keptset == levels_id_set(kept@),
                keptset.subset_of(r0.difference(desp)),
                want == spawn_set(d, r0, p, a),
                desp == despawn_set(d, r0, p),
                id_set(diff.to_spawn@) == want,
                self.worldly_entities@ == root_p,
                self.level_set == w0.level_set,
                self.respawn_marked == w0.respawn_marked,
                self.respawn_world == w0.respawn_world,
            decreases work3@.len(),
        {
            let ghost previews = levels_views(self.levels@);
            let ghost prelevels = self.levels@;
            let lvl = work3.remove(0);
            proof {
                assert(lvl == desc0[j3]);
                assert(work3@ =~= desc0.skip(j3 + 1));
                assert(desc0.take(j3 + 1) =~= desc0.take(j3).push(desc0[j3]));
            }
            let ghost lvl_iid = lvl.iid@;
            if ids_contain(&diff.to_spawn, &lvl.iid) {
                let ghost s_at = self.seen_worldly@;
                let node = compose_level(lvl, &mut self.seen_worldly, &mut suppressed);
                proof {
                    assert(node@ == spec_level_node(desc0[j3], s_at));
                    assert(node@.iid == desc0[j3].iid);
                    assert(node.iid@ == lvl_iid);
                    assert(want.contains(lvl_iid));
                    // the new identifier collides with nothing already spawned
                    assert(!levels_id_set(prelevels).contains(lvl_iid)) by {
                        if levels_id_set(prelevels).contains(lvl_iid) {
                            if keptset.contains(lvl_iid) {
                                assert(r0.difference(desp).contains(lvl_iid));
                            } else {
                                assert(want.intersect(
                                    desc_id_set(desc0.take(j3)),
                                ).contains(lvl_iid));
                                let k = choose|k: int|
                                    #![trigger desc0.take(j3)[k]]
                                    0 <= k < desc0.take(j3).len() && desc0.take(j3)[k].iid@
                                        == lvl_iid;
                                assert(desc0[k].iid@ == desc0[j3].iid@);
                            }
                        }
                    }
                }
                self.levels.push(node);
                proof {
                    assert(levels_views(self.levels@) =~= previews.push(node@));
                    assert(levels_views(self.levels@) =~= keptviews + spec_spawn_nodes(
                        desc0,
                        want,
                        seen0,
                        j3 + 1,
                    ));
                    assert forall|x: Seq<char>| levels_id_set(self.levels@).contains(x) implies
                        keptset.union(
                        want.intersect(desc_id_set(desc0.take(j3 + 1))),
                    ).contains(x) by {
                        let k = choose|k: int|
                            0 <= k < self.levels@.len() && self.levels@[k].iid@ == x;
                        if k < prelevels.len() {
                            assert(levels_id_set(prelevels).contains(x));
                            if !keptset.contains(x) {
                                let k2 = choose|k2: int|
                                    #![trigger desc0.take(j3)[k2]]
                                    0 <= k2 < desc0.take(j3).len() && desc0.take(j3)[k2].iid@ == x;
                                assert(desc0.take(j3 + 1)[k2].iid@ == x);
                            }
                        } else {
                            assert(desc0.take(j3 + 1)[j3].iid@ == x);
                        }
                    }
                    assert forall|x: Seq<char>|
                        keptset.union(want.intersect(desc_id_set(desc0.take(j3 + 1)))).contains(
                        x) implies levels_id_set(self.levels@).contains(x) by {
                        if keptset.contains(x) || want.intersect(
                            desc_id_set(desc0.take(j3)),
                        ).contains(x) {
                            assert(levels_id_set(prelevels).contains(x));
                            let k = choose|k: int|
                                0 <= k < prelevels.len() && prelevels[k].iid@ == x;
                            assert(self.levels@[k].iid@ == x);
                        } else {
                            let k2 = choose|k2: int|
                                #![trigger desc0.take(j3 + 1)[k2]]
                                0 <= k2 < desc0.take(j3 + 1).len() && desc0.take(j3 + 1)[k2].iid@
                                    == x;
                            assert(k2 == j3);
                            assert(self.levels@[self.levels@.len() - 1].iid@ == x);
                        }
                    }
                    assert(levels_id_set(self.levels@) =~= keptset.union(
                        want.intersect(desc_id_set(desc0.take(j3 + 1))),
                    ));
                    assert forall|i: int, k: int|
                        0 <= i < k < self.levels@.len() implies self.levels@[i].iid@
                            != self.levels@[k].iid@ by {
                        if k == self.levels@.len() - 1 {
                            assert(levels_id_set(prelevels).contains(self.levels@[i].iid@));
                        }
                    }
                }
            } else {
                proof {
                    assert(!want.contains(lvl_iid));
                    assert(spec_spawn_nodes(desc0, want, seen0, j3 + 1) =~= spec_spawn_nodes(
                        desc0,
                        want,
                        seen0,
                        j3,
                    ) + Seq::<LevelNodeV>::empty());
                    assert(spec_spawn_nodes(desc0, want, seen0, j3 + 1) =~= spec_spawn_nodes(
                        desc0,
                        want,
                        seen0,
                        j3,
                    ));
                    assert forall|x: Seq<char>|
                        want.intersect(desc_id_set(desc0.take(j3 + 1))).contains(x) implies
                        want.intersect(desc_id_set(desc0.take(j3))).contains(x) by {
                        let k = choose|k: int|
                            #![trigger desc0.take(j3 + 1)[k]]
                            0 <= k < desc0.take(j3 + 1).len() && desc0.take(j3 + 1)[k].iid@ == x;
                        assert(k != j3);
                        assert(desc0.take(j3)[k].iid@ == x);
                    }
                    assert(want.intersect(desc_id_set(desc0.take(j3 + 1))) =~= want.intersect(
                        desc_id_set(desc0.take(j3)),
                    ));
                }
            }
            proof {
                j3 = j3 + 1;
            }
        }
        proof {
            assert(desc0.take(j3) =~= desc0);
            assert(desc_id_set(desc0.take(j3)) =~= a);
        }

        // Every acted-on respawn marker is now cleared, exactly once.
        self.respawn_marked = LevelSet::new();
        self.respawn_world = false;

        proof {
            let spawned_nodes = spec_spawn_nodes(desc0, want, seen0, desc0.len() as int);
            // the realized set is exactly what the diff promised
            assert forall|x: Seq<char>| want.contains(x) implies a.contains(x) by {}
            assert(want.intersect(a) =~= want);
            assert(keptset =~= r0.difference(desp));
            assert(levels_id_set(self.levels@) =~= next_realized(d, r0, p, a));
            // the at-most-one invariant is preserved
            assert forall|x: Seq<char>| #[trigger] self.live_count(x) <= 1 && (self.live_count(
                x,
            ) > 0 ==> self.seen_worldly@.contains(x)) by {
                lemma_levels_count_concat(keptviews, spawned_nodes, x);
                assert forall|k: int|
                    0 <= k < keptviews.len() implies #[trigger] layers_count(
                    keptviews[k].layers,
                    x,
                ) == 0 by {
                    assert(keptviews[k] == kept@[k]@);
                }
                lemma_levels_all_zero(keptviews, x);
                lemma_spec_spawn_count(desc0, want, seen0, desc0.len() as int, x);
                assert(ents_count(root_p, x) == ents_count(root0, x) + levels_count(oldviews, x));
                assert(ents_count(root0, x) + levels_count(oldviews, x) == w0.live_count(x));
                assert(w0.live_count(x) <= 1);
                if levels_count(spawned_nodes, x) > 0 {
                    assert(!seen0.contains(x));
                    if w0.live_count(x) > 0 {
                        assert(seen0.contains(x));
                    }
                    assert(ents_count(root_p, x) == 0);
                }
                if self.live_count(x) > 0 {
                    if ents_count(root_p, x) > 0 {
                        assert(w0.live_count(x) > 0);
                        assert(seen0.contains(x));
                    }
                }
            }
            // the world-root list: old entries in place, every promoted
            // worldly node arrived, nothing lost
            assert(self.worldly_entities@ == root_p);
            assert(root0 == old(self).worldly_entities@);
            assert(oldviews == levels_views(old(self).levels@));
            assert forall|x: Seq<char>| #[trigger]
                ents_count(self.worldly_entities@, x) == ents_count(root0, x) + levels_count(
                    oldviews,
                    x,
                ) by {
                assert(ents_count(root_p, x) == ents_count(root0, x) + levels_count(oldviews, x));
            }
            // the spawned suffix and the kept prefix of the final level list
            assert(levels_views(self.levels@).len() == self.levels@.len());
            assert(levels_views(self.levels@).take(keptviews.len() as int) =~= keptviews);
            assert(self.levels@.len() - spawned_nodes.len() == keptviews.len());
            assert(levels_views(self.levels@) == levels_views(self.levels@).take(
                self.levels@.len() - spawned_nodes.len(),
            ) + spawned_nodes);
        }
        PassReport {
            spawned: diff.to_spawn,
            despawned: diff.to_despawn,
            unchanged: diff.unchanged,
            missing: diff.missing,
            suppressed: suppressed.iids,
        }
    }
}

/// Idempotence at the world level: a pass leaves the world in the state
/// that [`LdtkWorld::tick`] promises, and against that state the same
/// desired set wants nothing spawned and nothing despawned — the second
/// identical pass performs zero spawn and despawn operations.
pub proof fn lemma_tick_idempotent(w0: LdtkWorld, w1: LdtkWorld, desc: WorldDescription)
    requires
        w1.level_set == w0.level_set,
        w1.realized_set() == next_realized(
            w0.desired_set(),
            w0.realized_set(),
            w0.respawn_set(),
            desc_id_set(desc.levels@),
        ),
        w1.respawn_marked@ == Set::<Seq<char>>::empty(),
        !w1.respawn_world,
    ensures
        tick_want(w1, desc) == Set::<Seq<char>>::empty(),
        despawn_set(w1.desired_set(), w1.realized_set(), w1.respawn_set()) == Set::<
            Seq<char>,
        >::empty(),
{
    crate::reconcile::lemma_reconcile_idempotent(
        w0.desired_set(),
        w0.realized_set(),
        w0.respawn_set(),
        desc_id_set(desc.levels@),
    );
}

} // verus!
