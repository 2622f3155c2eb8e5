use tes3edit::{
    CellData, HeaderPolicy, Record, RecordBody, RecordIdentity, RecordStore, SaveError,
};

fn s(x: &str) -> String {
    x.to_string()
}

fn misc(id: &str, data: &[u8]) -> Record {
    Record { tag: s("MISC"), id: s(id), body: RecordBody::Other(data.to_vec()) }
}

fn header() -> Record {
    Record { tag: s("TES3"), id: s(""), body: RecordBody::Other(Vec::new()) }
}

fn ident(tag: &str, id: &str) -> RecordIdentity {
    RecordIdentity { tag: s(tag), id: s(id) }
}

#[test]
fn begin_edit_then_prune_leaves_overlay_empty() {
    // a store with base[("MISC","potion")] and no overlay entry
    let mut store = RecordStore::new();
    store.load_records(&vec![misc("potion", b"payload")]);
    let key = ident("MISC", "potion");
    assert!(!store.is_dirty(&key));

    // copy-on-write entry, no field change, then prune
    store.begin_edit(&key);
    assert!(store.is_dirty(&key));
    store.commit_prune();

    assert!(!store.is_dirty(&key));
    assert_eq!(store.dirty_count(), 0);
    // the base record is still effective
    let eff = store.get_effective(&key).expect("base record");
    assert_eq!(eff.id, "potion");
}

#[test]
fn prune_twice_equals_prune_once() {
    let mut store = RecordStore::new();
    store.load_records(&vec![misc("potion", b"a"), misc("sword", b"b")]);
    let potion = ident("MISC", "potion");
    let sword = ident("MISC", "sword");

    // one reverted edit, one real edit
    store.begin_edit(&potion);
    store.put_overlay(misc("sword", b"changed"));
    store.commit_prune();
    assert!(!store.is_dirty(&potion));
    assert!(store.is_dirty(&sword));
    let once = store.dirty_count();

    store.commit_prune();
    assert!(store.is_dirty(&sword));
    assert_eq!(store.dirty_count(), once);
}

#[test]
fn effective_prefers_overlay() {
    let mut store = RecordStore::new();
    store.load_records(&vec![misc("potion", b"old")]);
    let key = ident("MISC", "potion");
    store.put_overlay(misc("potion", b"new"));
    let eff = store.get_effective(&key).expect("record");
    match &eff.body {
        RecordBody::Other(bytes) => assert_eq!(bytes.as_slice(), b"new"),
        _ => panic!("wrong body"),
    }
}

#[test]
fn get_effective_absent_is_none() {
    let mut store = RecordStore::new();
    store.load_records(&vec![misc("potion", b"x")]);
    assert!(store.get_effective(&ident("MISC", "missing")).is_none());
}

#[test]
fn load_records_last_write_wins() {
    let mut store = RecordStore::new();
    store.load_records(&vec![misc("potion", b"first"), misc("potion", b"second")]);
    let eff = store.get_effective(&ident("MISC", "potion")).expect("record");
    match &eff.body {
        RecordBody::Other(bytes) => assert_eq!(bytes.as_slice(), b"second"),
        _ => panic!("wrong body"),
    }
}

#[test]
fn rekey_moves_entry_and_selection() {
    let mut store = RecordStore::new();
    store.load_records(&vec![misc("old", b"x")]);
    let old_id = ident("MISC", "old");
    let new_id = ident("MISC", "new");
    // the record is opened for editing and selected
    store.begin_edit(&old_id);
    store.select(Some(ident("MISC", "old")));
    // an edit shifted the fields that derive the editor id
    store.rekey(&old_id, &new_id);

    assert!(!store.is_dirty(&old_id));
    assert!(store.is_dirty(&new_id));
    // the stale base entry is gone: the old identity resolves to nothing
    assert!(store.get_effective(&old_id).is_none());
    let moved = store.get_effective(&new_id).expect("moved record");
    assert_eq!(moved.id, "new");
    let sel = store.selected_id().expect("selection");
    assert_eq!(sel.id, "new");
}

#[test]
fn rekey_without_overlay_entry_is_noop() {
    let mut store = RecordStore::new();
    store.load_records(&vec![misc("potion", b"x")]);
    store.rekey(&ident("MISC", "absent"), &ident("MISC", "other"));
    assert!(store.get_effective(&ident("MISC", "potion")).is_some());
    assert_eq!(store.dirty_count(), 0);
}

#[test]
fn revert_drops_pending_edit() {
    let mut store = RecordStore::new();
    store.load_records(&vec![misc("potion", b"old")]);
    let key = ident("MISC", "potion");
    store.put_overlay(misc("potion", b"new"));
    store.revert(&key);
    let eff = store.get_effective(&key).expect("record");
    match &eff.body {
        RecordBody::Other(bytes) => assert_eq!(bytes.as_slice(), b"old"),
        _ => panic!("wrong body"),
    }
}

#[test]
fn assemble_full_puts_header_first() {
    let mut store = RecordStore::new();
    store.load_records(&vec![misc("potion", b"old"), header()]);
    store.put_overlay(misc("potion", b"new"));
    let out = store.assemble_full().expect("assembled");
    assert_eq!(out.len(), 2);
    assert_eq!(out[0].tag, "TES3");
    assert_eq!(out[1].id, "potion");
    match &out[1].body {
        RecordBody::Other(bytes) => assert_eq!(bytes.as_slice(), b"new"),
        _ => panic!("wrong body"),
    }
}

#[test]
fn assemble_full_without_header_is_error() {
    let mut store = RecordStore::new();
    store.load_records(&vec![misc("potion", b"x")]);
    assert!(matches!(store.assemble_full(), Err(SaveError::MissingHeader)));
}

#[test]
fn assemble_patch_takes_base_header() {
    let mut store = RecordStore::new();
    store.load_records(&vec![header(), misc("potion", b"old")]);
    store.put_overlay(misc("potion", b"new"));
    let out = store.assemble_patch(HeaderPolicy::RequireHeader).expect("patch");
    assert_eq!(out.len(), 2);
    assert_eq!(out[0].tag, "TES3");
    assert_eq!(out[1].id, "potion");
}

#[test]
fn assemble_patch_policy_decides_when_header_missing() {
    let mut store = RecordStore::new();
    store.load_records(&vec![misc("potion", b"old")]);
    store.put_overlay(misc("potion", b"new"));
    assert!(matches!(store.assemble_patch(HeaderPolicy::RequireHeader), Err(SaveError::MissingHeader)));
    let out = store.assemble_patch(HeaderPolicy::SynthesizeHeader).expect("patch");
    assert_eq!(out.len(), 2);
    assert_eq!(out[0].tag, "TES3");
    assert_eq!(out[0].id, "");
}

#[test]
fn delete_removes_both_entries() {
    let mut store = RecordStore::new();
    store.load_records(&vec![misc("potion", b"old")]);
    let key = ident("MISC", "potion");
    store.put_overlay(misc("potion", b"new"));
    store.delete(&key);
    assert!(store.get_effective(&key).is_none());
    assert!(!store.is_dirty(&key));
}

#[test]
fn effective_ids_cover_base_and_overlay_once() {
    let mut store = RecordStore::new();
    store.load_records(&vec![misc("potion", b"x"), misc("sword", b"y")]);
    store.begin_edit(&ident("MISC", "potion"));
    store.put_overlay(misc("scroll", b"z"));
    let mut ids: Vec<String> = store
        .effective_ids()
        .iter()
        .map(|k| format!("{},{}", k.tag, k.id))
        .collect();
    ids.sort();
    assert_eq!(ids, vec![s("MISC,potion"), s("MISC,scroll"), s("MISC,sword")]);
}

#[test]
fn id_cache_flow_filters_and_sorts() {
    // the record list cache: effective ids, search-filtered, sorted
    let mut store = RecordStore::new();
    store.load_records(&vec![misc("Sword", b"a"), misc("shield", b"b"), misc("cup", b"c")]);
    let uids: Vec<String> = store
        .effective_ids()
        .iter()
        .map(tes3edit::unique_id_of_identity)
        .collect();
    let hits = tes3edit::filter_ids(&uids, "s");
    let cache = tes3edit::sort_ids(&hits);
    assert_eq!(cache, vec![s("MISC,Sword"), s("MISC,cup"), s("MISC,shield")]);
}

#[test]
fn id_cache_groups_by_tag() {
    // the tag-grouped cache: filtered ids land under their own tag, sorted
    let mut store = RecordStore::new();
    store.load_records(&vec![
        misc("Sword", b"a"),
        misc("cup", b"b"),
        Record { tag: s("WEAP"), id: s("axe_storm"), body: RecordBody::Other(Vec::new()) },
        Record { tag: s("WEAP"), id: s("Axe_iron"), body: RecordBody::Other(Vec::new()) },
    ]);
    let cache = tes3edit::group_ids_by_tag(&store.effective_ids(), "a");
    let weapons = cache.get(&s("WEAP")).expect("weapon bucket");
    assert_eq!(weapons, &vec![s("WEAP,Axe_iron"), s("WEAP,axe_storm")]);
    // "MISC,Sword" and "MISC,cup" both carry no letter a
    let items = cache.get(&s("MISC")).expect("item bucket");
    assert!(items.is_empty());
    // unknown tags have no bucket at all
    assert!(cache.get(&s("????")).is_none());
    // an empty search line keeps everything
    let all = tes3edit::group_ids_by_tag(&store.effective_ids(), "");
    assert_eq!(all.get(&s("MISC")).expect("items").len(), 2);
}

#[test]
fn cell_data_equality_drives_pruning() {
    // an edit that changes a field survives pruning
    let mut store = RecordStore::new();
    let cell = Record {
        tag: s("CELL"),
        id: s("Village"),
        body: RecordBody::Cell(CellData {
            x: 0,
            y: 0,
            is_interior: false,
            name: s("Village"),
            region: None,
            map_color: None,
            refs: vec![s("Guide")],
        }),
    };
    let mut changed = Record {
        tag: s("CELL"),
        id: s("Village"),
        body: RecordBody::Cell(CellData {
            x: 0,
            y: 0,
            is_interior: false,
            name: s("Town"),
            region: None,
            map_color: None,
            refs: vec![s("Guide")],
        }),
    };
    store.load_records(&vec![cell]);
    let key = ident("CELL", "Village");
    store.put_overlay(changed);
    store.commit_prune();
    assert!(store.is_dirty(&key));

    // and an identical copy does not
    changed = Record {
        tag: s("CELL"),
        id: s("Village"),
        body: RecordBody::Cell(CellData {
            x: 0,
            y: 0,
            is_interior: false,
            name: s("Village"),
            region: None,
            map_color: None,
            refs: vec![s("Guide")],
        }),
    };
    store.put_overlay(changed);
    store.commit_prune();
    assert!(!store.is_dirty(&key));
}
