use ldtk_levels::coords::{
    int_grid_index_to_grid_coords, ldtk_grid_coords_to_grid_coords, GridCoords, IVec2, TilePos,
};

#[test]
fn vector_round_trip() {
    let g = GridCoords::new(-3, 7);
    let v: IVec2 = g.into();
    assert_eq!(v, IVec2::new(-3, 7));
    let back: GridCoords = v.into();
    assert_eq!(back, g);
}

#[test]
fn tile_pos_round_trip_non_negative() {
    let g = GridCoords::new(4, 9);
    let t = g.to_tile_pos().unwrap();
    assert_eq!(t, TilePos::new(4, 9));
    assert_eq!(t.to_grid_coords().unwrap(), g);
}

#[test]
fn tile_pos_conversion_is_fallible_for_negatives() {
    assert!(GridCoords::new(-1, 0).to_tile_pos().is_none());
    assert!(GridCoords::new(0, -5).to_tile_pos().is_none());
    assert!(TilePos::new(u32::MAX, 0).to_grid_coords().is_none());
}

#[test]
fn componentwise_arithmetic() {
    let a = GridCoords::new(2, 3);
    let b = GridCoords::new(-1, 10);
    assert_eq!(a + b, GridCoords::new(1, 13));
    assert_eq!(a - b, GridCoords::new(3, -7));
    assert_eq!(a * b, GridCoords::new(-2, 30));
}

#[test]
fn vertical_flip_uses_layer_height() {
    // A cell on the top row of a 6-row layer lands on the top row of the
    // bottom-left-origin grid.
    let g = ldtk_grid_coords_to_grid_coords(IVec2::new(2, 0), 6);
    assert_eq!(g, GridCoords::new(2, 5));
    // And the bottom row maps to row zero.
    let g2 = ldtk_grid_coords_to_grid_coords(IVec2::new(0, 5), 6);
    assert_eq!(g2, GridCoords::new(0, 0));
}

#[test]
fn flat_index_conversion() {
    // A 3-wide, 2-high layer, row-major from the top-left.
    assert_eq!(int_grid_index_to_grid_coords(0, 3, 2), GridCoords::new(0, 1));
    assert_eq!(int_grid_index_to_grid_coords(2, 3, 2), GridCoords::new(2, 1));
    assert_eq!(int_grid_index_to_grid_coords(3, 3, 2), GridCoords::new(0, 0));
    assert_eq!(int_grid_index_to_grid_coords(5, 3, 2), GridCoords::new(2, 0));
}

#[test]
fn default_grid_coords_is_origin() {
    assert_eq!(GridCoords::default(), GridCoords::new(0, 0));
}
