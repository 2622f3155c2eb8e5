use tes3edit::{
    dest_cell_key, CellData, CellKey, EdgePair, NpcData, PluginData, Record, RecordBody,
    TravelDest, TravelGraph,
};

fn s(x: &str) -> String {
    x.to_string()
}

fn npc(id: &str, class: &str, dests: Vec<(i64, i64)>) -> Record {
    Record {
        tag: s("NPC_"),
        id: s(id),
        body: RecordBody::Npc(NpcData {
            class: s(class),
            travel_destinations: dests.into_iter().map(|(x, y)| TravelDest { x, y }).collect(),
        }),
    }
}

fn cell_with_refs(id: &str, x: i32, y: i32, refs: Vec<&str>) -> Record {
    Record {
        tag: s("CELL"),
        id: s(id),
        body: RecordBody::Cell(CellData {
            x,
            y,
            is_interior: false,
            name: s(id),
            region: None,
            map_color: None,
            refs: refs.into_iter().map(|r| r.to_string()).collect(),
        }),
    }
}

#[test]
fn guide_offers_one_caravaner_edge() {
    // one plugin: an exterior cell (0,0) hosting "Guide", whose single
    // destination lies at world translation (16384, 8192)
    let p = PluginData {
        id: 1,
        enabled: true,
        records: vec![
            npc("Guide", "Caravaner", vec![(16384, 8192)]),
            cell_with_refs("Seyda", 0, 0, vec!["Guide"]),
        ],
    };
    let graph = TravelGraph::build(&vec![p]);
    let edges = graph.get_edges(&s("Caravaner")).expect("caravaner edges");
    assert_eq!(edges.len(), 1);
    assert_eq!(edges[0].a, CellKey { x: 0, y: 0 });
    assert_eq!(edges[0].b, CellKey { x: 2, y: 1 });
    assert_eq!(graph.class_count(), 1);
}

#[test]
fn reverse_edges_are_deduplicated() {
    // two characters of one class travelling in opposite directions
    let p = PluginData {
        id: 1,
        enabled: true,
        records: vec![
            npc("There", "Shipmaster", vec![(8192, 8192)]),
            npc("Back", "Shipmaster", vec![(0, 0)]),
            cell_with_refs("Origin", 0, 0, vec!["There"]),
            cell_with_refs("Target", 1, 1, vec!["Back"]),
        ],
    };
    let graph = TravelGraph::build(&vec![p]);
    let edges = graph.get_edges(&s("Shipmaster")).expect("edges");
    assert_eq!(edges.len(), 1);
    assert_eq!(edges[0], EdgePair { a: CellKey { x: 0, y: 0 }, b: CellKey { x: 1, y: 1 } });
}

#[test]
fn classes_are_partitioned() {
    let p = PluginData {
        id: 1,
        enabled: true,
        records: vec![
            npc("Sailor", "Shipmaster", vec![(8192, 0)]),
            npc("Driver", "Caravaner", vec![(8192, 0)]),
            cell_with_refs("Port", 0, 0, vec!["Sailor", "Driver"]),
        ],
    };
    let graph = TravelGraph::build(&vec![p]);
    assert_eq!(graph.class_count(), 2);
    assert_eq!(graph.get_edges(&s("Shipmaster")).expect("ship").len(), 1);
    assert_eq!(graph.get_edges(&s("Caravaner")).expect("caravan").len(), 1);
}

#[test]
fn npc_without_host_cell_adds_no_edge() {
    let p = PluginData {
        id: 1,
        enabled: true,
        records: vec![
            npc("Wanderer", "Caravaner", vec![(8192, 0)]),
            cell_with_refs("Empty", 0, 0, vec![]),
        ],
    };
    let graph = TravelGraph::build(&vec![p]);
    assert!(graph.get_edges(&s("Caravaner")).is_none());
}

#[test]
fn npc_without_destinations_is_ignored() {
    let p = PluginData {
        id: 1,
        enabled: true,
        records: vec![
            npc("Settled", "Caravaner", vec![]),
            cell_with_refs("Home", 0, 0, vec!["Settled"]),
        ],
    };
    let graph = TravelGraph::build(&vec![p]);
    assert_eq!(graph.class_count(), 0);
}

#[test]
fn destination_cell_math_floors_toward_negative_infinity() {
    // positive translations land in the cell below them
    assert_eq!(dest_cell_key(&TravelDest { x: 16384, y: 8192 }), CellKey { x: 2, y: 1 });
    assert_eq!(dest_cell_key(&TravelDest { x: 8191, y: 0 }), CellKey { x: 0, y: 0 });
    // negative translations floor toward negative infinity
    assert_eq!(dest_cell_key(&TravelDest { x: -1, y: -4096 }), CellKey { x: -1, y: -1 });
    // an exact negative multiple is its own cell's corner
    assert_eq!(dest_cell_key(&TravelDest { x: -8192, y: -8193 }), CellKey { x: -1, y: -2 });
    assert_eq!(dest_cell_key(&TravelDest { x: -16384, y: 16384 }), CellKey { x: -2, y: 2 });
}

#[test]
fn host_cell_from_second_plugin_counts() {
    // the character and its host cell may come from different plugins
    let a = PluginData {
        id: 1,
        enabled: true,
        records: vec![npc("Guide", "Gondolier", vec![(0, 16384)])],
    };
    let b = PluginData {
        id: 2,
        enabled: true,
        records: vec![cell_with_refs("Canal", 3, 3, vec!["Guide"])],
    };
    let graph = TravelGraph::build(&vec![a, b]);
    let edges = graph.get_edges(&s("Gondolier")).expect("edges");
    assert_eq!(edges.len(), 1);
    assert_eq!(edges[0].a, CellKey { x: 3, y: 3 });
    assert_eq!(edges[0].b, CellKey { x: 0, y: 2 });
}

#[test]
fn last_hosting_cell_wins() {
    let p = PluginData {
        id: 1,
        enabled: true,
        records: vec![
            npc("Guide", "Caravaner", vec![(16384, 16384)]),
            cell_with_refs("First", 0, 0, vec!["Guide"]),
            cell_with_refs("Second", 1, 0, vec!["Guide"]),
        ],
    };
    let graph = TravelGraph::build(&vec![p]);
    let edges = graph.get_edges(&s("Caravaner")).expect("edges");
    assert_eq!(edges.len(), 1);
    assert_eq!(edges[0].a, CellKey { x: 1, y: 0 });
}
