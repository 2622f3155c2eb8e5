use tes3edit::{generate_conflict_map, PluginRecordIds};

fn s(x: &str) -> String {
    x.to_string()
}

fn plugin(id: u64, enabled: bool, ids: Vec<&str>) -> PluginRecordIds {
    PluginRecordIds { id, enabled, record_ids: ids.into_iter().map(|x| x.to_string()).collect() }
}

#[test]
fn three_plugins_report_in_scan_order() {
    // three plugins all define ("GMST","fDamage") with differing values
    let plugins = vec![
        plugin(11, true, vec!["GMST,fDamage", "MISC,potion"]),
        plugin(22, true, vec!["GMST,fDamage"]),
        plugin(33, true, vec!["GMST,fDamage"]),
    ];
    let index = generate_conflict_map(&plugins);
    let list = index.get(&s("GMST,fDamage")).expect("conflict entry");
    assert_eq!(list.as_slice(), &[11u64, 22u64, 33u64]);
}

#[test]
fn singletons_never_appear() {
    let plugins = vec![
        plugin(1, true, vec!["GMST,fDamage", "MISC,potion"]),
        plugin(2, true, vec!["GMST,fDamage"]),
    ];
    let index = generate_conflict_map(&plugins);
    assert!(index.get(&s("MISC,potion")).is_none());
    assert!(index.get(&s("GMST,fDamage")).is_some());
    assert_eq!(index.len(), 1);
}

#[test]
fn disabled_plugins_contribute_nothing() {
    let plugins = vec![
        plugin(1, true, vec!["GMST,fDamage"]),
        plugin(2, false, vec!["GMST,fDamage"]),
    ];
    let index = generate_conflict_map(&plugins);
    assert!(index.get(&s("GMST,fDamage")).is_none());
    assert_eq!(index.len(), 0);
}

#[test]
fn duplicate_id_within_one_plugin_counts_once() {
    // a malformed plugin repeating an identity still contributes only once
    let plugins = vec![
        plugin(1, true, vec!["MISC,potion", "MISC,potion"]),
        plugin(2, true, vec!["MISC,potion"]),
    ];
    let index = generate_conflict_map(&plugins);
    let list = index.get(&s("MISC,potion")).expect("conflict entry");
    assert_eq!(list.as_slice(), &[1u64, 2u64]);
}

#[test]
fn every_listed_plugin_truly_contains_the_record() {
    let plugins = vec![
        plugin(7, true, vec!["BOOK,a", "BOOK,b"]),
        plugin(8, true, vec!["BOOK,b", "BOOK,c"]),
        plugin(9, true, vec!["BOOK,c", "BOOK,a"]),
    ];
    let index = generate_conflict_map(&plugins);
    for (key, expect) in [("BOOK,a", [7u64, 9u64]), ("BOOK,b", [7, 8]), ("BOOK,c", [8, 9])] {
        let list = index.get(&key.to_string()).expect("entry");
        assert_eq!(list.as_slice(), &expect);
        for id in list.iter() {
            let carrier = plugins.iter().find(|p| p.id == *id).expect("listed plugin");
            assert!(carrier.enabled);
            assert!(carrier.record_ids.iter().any(|r| r == key));
        }
    }
}

#[test]
fn empty_input_gives_empty_index() {
    let index = generate_conflict_map(&Vec::new());
    assert_eq!(index.len(), 0);
    assert!(index.is_empty());
}
