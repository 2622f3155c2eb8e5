use tes3edit::{
    Bounds, CellData, CellKey, LandData, PluginData, Record, RecordBody, RecordIdentity,
    RegionData, Rgb, WorldGrid,
};

fn s(x: &str) -> String {
    x.to_string()
}

fn cell(id: &str, x: i32, y: i32, name: &str, interior: bool) -> Record {
    Record {
        tag: s("CELL"),
        id: s(id),
        body: RecordBody::Cell(CellData {
            x,
            y,
            is_interior: interior,
            name: s(name),
            region: None,
            map_color: None,
            refs: Vec::new(),
        }),
    }
}

fn land(id: &str, x: i32, y: i32) -> Record {
    Record { tag: s("LAND"), id: s(id), body: RecordBody::Landscape(LandData { x, y, heights: vec![1, 2, 3] }) }
}

fn region(id: &str, name: &str, r: u8) -> Record {
    Record {
        tag: s("REGN"),
        id: s(id),
        body: RecordBody::Region(RegionData { id: s(id), name: s(name), map_color: Rgb { r, g: 0, b: 0 } }),
    }
}

fn plugin(id: u64, enabled: bool, records: Vec<Record>) -> PluginData {
    PluginData { id, enabled, records }
}

#[test]
fn later_plugin_overrides_cell() {
    // rank 0 defines "Village", rank 1 defines "Town" at the same key
    let a = plugin(1, true, vec![cell("Village", 0, 0, "Village", false)]);
    let b = plugin(2, true, vec![cell("Town", 0, 0, "Town", false)]);
    let grid = WorldGrid::build(&vec![a, b]);

    let key = CellKey { x: 0, y: 0 };
    let merged = grid.get_cell(&key).expect("merged cell");
    assert_eq!(merged.name, "Town");

    let conflicts = grid.get_conflicts(&key).expect("conflict list");
    assert_eq!(conflicts.as_slice(), &[1u64, 2u64]);
}

#[test]
fn single_plugin_cell_has_no_conflict_entry() {
    let a = plugin(1, true, vec![cell("Village", 0, 0, "Village", false)]);
    let grid = WorldGrid::build(&vec![a]);
    assert!(grid.get_conflicts(&CellKey { x: 0, y: 0 }).is_none());
}

#[test]
fn disabled_plugin_is_ignored() {
    let a = plugin(1, true, vec![cell("Village", 0, 0, "Village", false)]);
    let b = plugin(2, false, vec![cell("Town", 0, 0, "Town", false)]);
    let grid = WorldGrid::build(&vec![a, b]);
    let merged = grid.get_cell(&CellKey { x: 0, y: 0 }).expect("cell");
    assert_eq!(merged.name, "Village");
    assert!(grid.get_conflicts(&CellKey { x: 0, y: 0 }).is_none());
}

#[test]
fn interior_cells_are_excluded() {
    let a = plugin(1, true, vec![cell("Tavern", 3, 4, "Tavern", true)]);
    let grid = WorldGrid::build(&vec![a]);
    assert!(grid.get_cell(&CellKey { x: 3, y: 4 }).is_none());
    assert_eq!(grid.bounds(), Bounds::Empty);
}

#[test]
fn wrong_shape_record_is_skipped() {
    // a record tagged CELL whose payload is not a cell is skipped, not fatal
    let bad = Record { tag: s("CELL"), id: s("broken"), body: RecordBody::Other(vec![1]) };
    let a = plugin(1, true, vec![bad, cell("Village", 0, 0, "Village", false)]);
    let grid = WorldGrid::build(&vec![a]);
    assert!(grid.get_cell(&CellKey { x: 0, y: 0 }).is_some());
    assert!(grid.cell_key_for(&RecordIdentity { tag: s("CELL"), id: s("broken") }).is_none());
}

#[test]
fn bounds_enclose_all_inserted_cells() {
    let a = plugin(
        1,
        true,
        vec![cell("A", 2, 3, "A", false), cell("B", -1, -2, "B", false)],
    );
    let grid = WorldGrid::build(&vec![a]);
    assert_eq!(grid.bounds(), Bounds::Box { min_x: -1, max_x: 2, min_y: -2, max_y: 3 });
}

#[test]
fn bounds_do_not_shrink_for_inner_cells() {
    let a = plugin(
        1,
        true,
        vec![
            cell("A", -5, -5, "A", false),
            cell("B", 5, 5, "B", false),
            cell("C", 0, 0, "C", false),
        ],
    );
    let grid = WorldGrid::build(&vec![a]);
    assert_eq!(grid.bounds(), Bounds::Box { min_x: -5, max_x: 5, min_y: -5, max_y: 5 });
}

#[test]
fn landscape_and_cell_maps_are_independent() {
    // landscape-only data at one key, cell-only data at another
    let a = plugin(1, true, vec![land("L", 7, 7), cell("C", 8, 8, "C", false)]);
    let grid = WorldGrid::build(&vec![a]);
    assert!(grid.get_landscape(&CellKey { x: 7, y: 7 }).is_some());
    assert!(grid.get_cell(&CellKey { x: 7, y: 7 }).is_none());
    assert!(grid.get_cell(&CellKey { x: 8, y: 8 }).is_some());
    assert!(grid.get_landscape(&CellKey { x: 8, y: 8 }).is_none());
}

#[test]
fn regions_merge_by_region_id() {
    let a = plugin(1, true, vec![region("Coast", "Coast Region", 10)]);
    let b = plugin(2, true, vec![region("Coast", "Coast Region", 99)]);
    let grid = WorldGrid::build(&vec![a, b]);
    let merged = grid.get_region(&s("Coast")).expect("region");
    assert_eq!(merged.map_color, Rgb { r: 99, g: 0, b: 0 });
}

#[test]
fn identity_indexes_resolve_to_keys() {
    let a = plugin(1, true, vec![cell("Village", 4, -4, "Village", false), land("Patch", 4, -4)]);
    let grid = WorldGrid::build(&vec![a]);
    let ck = grid
        .cell_key_for(&RecordIdentity { tag: s("CELL"), id: s("Village") })
        .expect("cell key");
    assert_eq!(*ck, CellKey { x: 4, y: -4 });
    let lk = grid
        .land_key_for(&RecordIdentity { tag: s("LAND"), id: s("Patch") })
        .expect("land key");
    assert_eq!(*lk, CellKey { x: 4, y: -4 });
}

#[test]
fn landscape_without_cell_keeps_bounds_untouched() {
    // LAND records feed the landscape map but never the bounds
    let a = plugin(1, true, vec![land("L", 100, 100)]);
    let grid = WorldGrid::build(&vec![a]);
    assert!(grid.get_landscape(&CellKey { x: 100, y: 100 }).is_some());
    assert_eq!(grid.bounds(), Bounds::Empty);
}
