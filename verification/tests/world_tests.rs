use ldtk_levels::components::{IntGridCell, LayerMetadata, TileEnumTags, TileMetadata, Worldly};
use ldtk_levels::coords::{GridCoords, IVec2};
use ldtk_levels::ldtk::{
    EntityInstance, LayerInstance, LayerType, Level, TileInstance, WorldDescription,
};
use ldtk_levels::level_set::LevelSet;
use ldtk_levels::world::LdtkWorld;

fn s(x: &str) -> String {
    x.to_string()
}

fn base_layer(kind: LayerType, iid: &str) -> LayerInstance {
    LayerInstance {
        c_hei: 2,
        c_wid: 2,
        grid_size: 16,
        identifier: s("Layer"),
        opacity: 1000,
        px_total_offset_x: 0,
        px_total_offset_y: 0,
        tileset_def_uid: None,
        tileset_rel_path: None,
        layer_instance_type: kind,
        iid: s(iid),
        layer_def_uid: 1,
        level_id: 10,
        optional_rules: vec![],
        override_tileset_uid: None,
        px_offset_x: 0,
        px_offset_y: 0,
        seed: 42,
        visible: true,
        int_grid_csv: vec![],
        grid_tiles: vec![],
        entity_instances: vec![],
    }
}

fn entity(iid: &str, worldly: bool, x: i32, y: i32) -> EntityInstance {
    EntityInstance {
        identifier: s("Actor"),
        iid: s(iid),
        grid: IVec2 { x, y },
        worldly,
        fields: vec![s("hp=3")],
    }
}

fn level_l1() -> Level {
    let mut int_grid = base_layer(LayerType::IntGrid, "layer-int");
    int_grid.int_grid_csv = vec![1, 0, 0, 2];
    let mut tiles = base_layer(LayerType::Tiles, "layer-tiles");
    tiles.grid_tiles = vec![TileInstance {
        grid: IVec2 { x: 0, y: 0 },
        tile_id: 7,
        metadata: Some(s("spikes")),
        enum_tags: Some(TileEnumTags { tags: vec![s("Solid")], source_enum_uid: Some(3) }),
    }];
    let mut entities = base_layer(LayerType::Entities, "layer-entities");
    entities.entity_instances = vec![entity("e-42", true, 1, 1), entity("e-7", false, 0, 0)];
    Level {
        iid: s("L1"),
        identifier: s("Level_1"),
        uid: 1,
        layer_instances: vec![int_grid, tiles, entities],
    }
}

fn level_plain(iid: &str) -> Level {
    let mut entities = base_layer(LayerType::Entities, "layer-entities-2");
    entities.entity_instances = vec![entity("e-plain", false, 0, 1)];
    Level {
        iid: s(iid),
        identifier: s("Level_plain"),
        uid: 2,
        layer_instances: vec![entities],
    }
}

fn world_desc() -> WorldDescription {
    WorldDescription { levels: vec![level_l1(), level_plain("L2")] }
}

#[test]
fn spawning_one_level_builds_its_declared_subtree() {
    let mut world = LdtkWorld::new();
    let report = world.tick(world_desc());
    assert!(report.spawned.is_empty());

    world.set_desired(LevelSet::from_iids(vec![s("L1")]));
    let report = world.tick(world_desc());
    assert_eq!(report.spawned, vec![s("L1")]);
    assert!(report.despawned.is_empty());
    assert_eq!(world.realized_iids(), vec![s("L1")]);

    let level = &world.levels[0];
    assert_eq!(level.iid, s("L1"));
    assert_eq!(level.layers.len(), 3);

    // Int-grid layer: one node per non-empty cell, flat index flipped.
    let int_layer = &level.layers[0];
    assert_eq!(int_layer.metadata.iid, s("layer-int"));
    assert_eq!(int_layer.tiles.len(), 2);
    assert_eq!(int_layer.tiles[0].grid_coords, GridCoords::new(0, 1));
    assert_eq!(int_layer.tiles[0].int_grid_cell, Some(IntGridCell { value: 1 }));
    assert_eq!(int_layer.tiles[1].grid_coords, GridCoords::new(1, 0));
    assert_eq!(int_layer.tiles[1].int_grid_cell, Some(IntGridCell { value: 2 }));
    assert!(int_layer.entities.is_empty());

    // Tile layer: metadata and enum tags carried over, y flipped.
    let tile_layer = &level.layers[1];
    assert_eq!(tile_layer.tiles.len(), 1);
    let t = &tile_layer.tiles[0];
    assert_eq!(t.grid_coords, GridCoords::new(0, 1));
    assert_eq!(t.tile_id, Some(7));
    assert_eq!(t.metadata, Some(TileMetadata { data: s("spikes") }));
    assert_eq!(
        t.enum_tags,
        Some(TileEnumTags { tags: vec![s("Solid")], source_enum_uid: Some(3) })
    );

    // Entity layer: both entities spawned under the level at first.
    let entity_layer = &level.layers[2];
    assert_eq!(entity_layer.entities.len(), 2);
    assert_eq!(entity_layer.entities[0].entity_iid, s("e-42"));
    assert!(entity_layer.entities[0].worldly);
    assert_eq!(entity_layer.entities[0].grid_coords, GridCoords::new(1, 0));
    assert_eq!(entity_layer.entities[1].entity_iid, s("e-7"));
    assert_eq!(entity_layer.entities[1].fields, vec![s("hp=3")]);
    assert_eq!(world.worldly_iids(), &vec![s("e-42")]);
}

#[test]
fn narrowing_the_desired_set_leaves_the_survivor_untouched() {
    let mut world = LdtkWorld::new();
    world.set_desired(LevelSet::from_iids(vec![s("L1"), s("L2")]));
    world.tick(world_desc());
    assert_eq!(world.levels.len(), 2);
    // One more pass so L1's worldly entity is already promoted; L2 holds
    // none, so it is bit-for-bit stable from here on.
    world.tick(world_desc());
    let l2_before = world.levels.iter().find(|l| l.iid == s("L2")).unwrap().clone();

    world.set_desired(LevelSet::from_iids(vec![s("L2")]));
    let report = world.tick(world_desc());
    assert_eq!(report.despawned, vec![s("L1")]);
    assert!(report.spawned.is_empty());
    assert_eq!(report.unchanged, vec![s("L2")]);
    assert_eq!(world.levels.len(), 1);
    assert_eq!(world.levels[0], l2_before);
}

#[test]
fn worldly_entity_survives_despawn_and_is_never_duplicated() {
    let mut world = LdtkWorld::new();
    world.set_desired(LevelSet::from_iids(vec![s("L1")]));
    world.tick(world_desc());
    assert_eq!(world.worldly_iids(), &vec![s("e-42")]);
    assert!(world.worldly_entities.is_empty());

    // The entity is re-parented to the world before the despawn takes L1.
    world.set_desired(LevelSet::new());
    let report = world.tick(world_desc());
    assert_eq!(report.despawned, vec![s("L1")]);
    assert!(world.levels.is_empty());
    assert_eq!(world.worldly_entities.len(), 1);
    assert_eq!(world.worldly_entities[0].entity_iid, s("e-42"));

    // Respawning the birth level does not re-create the entity.
    world.set_desired(LevelSet::from_iids(vec![s("L1")]));
    let report = world.tick(world_desc());
    assert_eq!(report.spawned, vec![s("L1")]);
    assert_eq!(report.suppressed, vec![s("e-42")]);
    assert_eq!(world.worldly_entities.len(), 1);
    let respawned = &world.levels[0];
    let live_e42: usize = respawned.layers.iter()
        .map(|l| l.entities.iter().filter(|e| e.entity_iid == s("e-42")).count())
        .sum();
    assert_eq!(live_e42, 0);
    assert_eq!(world.worldly_iids(), &vec![s("e-42")]);
}

#[test]
fn respawn_marker_forces_one_teardown_and_one_rebuild() {
    let mut world = LdtkWorld::new();
    world.set_desired(LevelSet::from_iids(vec![s("L2")]));
    world.tick(world_desc());
    assert_eq!(world.realized_iids(), vec![s("L2")]);

    world.mark_respawn(s("L2"));
    assert!(world.respawn_marker(&s("L2")).is_some());
    let report = world.tick(world_desc());
    assert_eq!(report.despawned, vec![s("L2")]);
    assert_eq!(report.spawned, vec![s("L2")]);
    assert_eq!(world.realized_iids(), vec![s("L2")]);
    // The marker is cleared exactly once, never left dangling.
    assert!(world.respawn_marker(&s("L2")).is_none());
    let after = world.tick(world_desc());
    assert!(after.spawned.is_empty());
    assert!(after.despawned.is_empty());
}

#[test]
fn world_respawn_marker_rebuilds_every_level() {
    let mut world = LdtkWorld::new();
    world.set_desired(LevelSet::from_iids(vec![s("L1"), s("L2")]));
    world.tick(world_desc());
    world.mark_respawn_world();
    let report = world.tick(world_desc());
    let mut despawned = report.despawned.clone();
    despawned.sort();
    let mut spawned = report.spawned.clone();
    spawned.sort();
    assert_eq!(despawned, vec![s("L1"), s("L2")]);
    assert_eq!(spawned, vec![s("L1"), s("L2")]);
    assert!(world.respawn_marker(&s("L1")).is_none());
}

#[test]
fn duplicate_worldly_identifier_is_rejected_and_reported() {
    let mut entities = base_layer(LayerType::Entities, "layer-dup");
    entities.entity_instances = vec![entity("e-dup", true, 0, 0), entity("e-dup", true, 1, 1)];
    let desc = WorldDescription {
        levels: vec![Level {
            iid: s("LD"),
            identifier: s("Level_dup"),
            uid: 9,
            layer_instances: vec![entities],
        }],
    };
    let mut world = LdtkWorld::new();
    world.set_desired(LevelSet::from_iids(vec![s("LD")]));
    let report = world.tick(desc);
    assert_eq!(report.suppressed, vec![s("e-dup")]);
    assert_eq!(world.levels[0].layers[0].entities.len(), 1);
}

#[test]
fn out_of_bounds_nodes_are_skipped_not_fatal() {
    let mut tiles = base_layer(LayerType::Tiles, "layer-oob");
    tiles.grid_tiles = vec![
        TileInstance { grid: IVec2 { x: 5, y: 0 }, tile_id: 1, metadata: None, enum_tags: None },
        TileInstance { grid: IVec2 { x: 1, y: 1 }, tile_id: 2, metadata: None, enum_tags: None },
    ];
    let desc = WorldDescription {
        levels: vec![Level {
            iid: s("LO"),
            identifier: s("Level_oob"),
            uid: 5,
            layer_instances: vec![tiles],
        }],
    };
    let mut world = LdtkWorld::new();
    world.set_desired(LevelSet::from_iids(vec![s("LO")]));
    world.tick(desc);
    let layer = &world.levels[0].layers[0];
    assert_eq!(layer.tiles.len(), 1);
    assert_eq!(layer.tiles[0].tile_id, Some(2));
}

#[test]
fn missing_level_is_retried_on_the_next_pass() {
    let mut world = LdtkWorld::new();
    world.set_desired(LevelSet::from_iids(vec![s("L9")]));
    let report = world.tick(world_desc());
    assert_eq!(report.missing, vec![s("L9")]);
    assert!(world.levels.is_empty());

    let mut richer = world_desc();
    richer.levels.push(level_plain("L9"));
    let report = world.tick(richer);
    assert_eq!(report.spawned, vec![s("L9")]);
    assert!(report.missing.is_empty());
}

#[test]
fn despawning_the_world_bounds_worldly_lifetimes() {
    let mut world = LdtkWorld::new();
    world.set_desired(LevelSet::from_iids(vec![s("L1")]));
    world.tick(world_desc());
    world.tick(world_desc());
    assert_eq!(world.worldly_entities.len(), 1);
    world.despawn_world();
    assert!(world.levels.is_empty());
    assert!(world.worldly_entities.is_empty());
    assert!(world.worldly_iids().is_empty());
}

#[test]
fn layer_metadata_snapshot_copies_every_field() {
    let mut inst = base_layer(LayerType::AutoLayer, "layer-meta");
    inst.optional_rules = vec![4, 5];
    inst.tileset_rel_path = Some(s("tiles.png"));
    inst.tileset_def_uid = Some(12);
    let meta = LayerMetadata::from_instance(&inst);
    assert_eq!(meta.c_hei, 2);
    assert_eq!(meta.c_wid, 2);
    assert_eq!(meta.grid_size, 16);
    assert_eq!(meta.identifier, s("Layer"));
    assert_eq!(meta.opacity, 1000);
    assert_eq!(meta.tileset_def_uid, Some(12));
    assert_eq!(meta.tileset_rel_path, Some(s("tiles.png")));
    assert_eq!(meta.layer_instance_type, LayerType::AutoLayer);
    assert_eq!(meta.iid, s("layer-meta"));
    assert_eq!(meta.layer_def_uid, 1);
    assert_eq!(meta.level_id, 10);
    assert_eq!(meta.optional_rules, vec![4, 5]);
    assert_eq!(meta.seed, 42);
    assert!(meta.visible);
}

#[test]
fn component_constructors_from_entity_info() {
    let e = entity("e-1", true, 1, 0);
    let w = Worldly::from_entity_info(&e);
    assert_eq!(w.entity_iid, s("e-1"));
    let layer = base_layer(LayerType::Entities, "layer-x");
    let g = GridCoords::from_entity_info(&e, &layer);
    assert_eq!(g, GridCoords::new(1, 1));
}

#[test]
fn description_distinctness_check() {
    assert!(world_desc().has_distinct_level_iids());
    let dup = WorldDescription { levels: vec![level_plain("LX"), level_plain("LX")] };
    assert!(!dup.has_distinct_level_iids());
    assert!(WorldDescription { levels: vec![] }.has_distinct_level_iids());
}

#[test]
fn world_root_entities_persist_in_place_across_passes() {
    let mut world = LdtkWorld::new();
    world.set_desired(LevelSet::from_iids(vec![s("L1")]));
    world.tick(world_desc());
    // Second pass promotes e-42 to the world root.
    world.tick(world_desc());
    assert_eq!(world.worldly_entities.len(), 1);
    let root_before = world.worldly_entities.clone();

    // Later passes that despawn and respawn levels leave the root entries
    // untouched, in place.
    world.set_desired(LevelSet::from_iids(vec![s("L2")]));
    world.tick(world_desc());
    world.set_desired(LevelSet::from_iids(vec![s("L1"), s("L2")]));
    world.tick(world_desc());
    assert_eq!(world.worldly_entities, root_before);
    assert!(world.worldly_entities.iter().all(|e| e.worldly));
}
