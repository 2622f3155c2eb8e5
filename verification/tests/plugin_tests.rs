use tes3edit::{get_path_hash, is_plugin_file, note_recent, PluginSet};

fn s(x: &str) -> String {
    x.to_string()
}

#[test]
fn path_hash_is_deterministic() {
    let a = get_path_hash(&s("mods/Example.esp"));
    let b = get_path_hash(&s("mods/Example.esp"));
    assert_eq!(a, b);
}

#[test]
fn extension_filter_accepts_plugins() {
    assert!(is_plugin_file("Morrowind.esm", false));
    assert!(is_plugin_file("Example.esp", false));
    assert!(is_plugin_file("SHOUTED.ESP", false));
    assert!(is_plugin_file("mixed.EsM", false));
    assert!(is_plugin_file("a.tar.esp", false));
}

#[test]
fn extension_filter_rejects_non_plugins() {
    assert!(!is_plugin_file("readme.txt", true));
    assert!(!is_plugin_file("esp", false));
    assert!(!is_plugin_file(".esp", false));
    assert!(!is_plugin_file("example.esp.bak", true));
    assert!(!is_plugin_file("examplesp", false));
}

#[test]
fn addon_extensions_are_opt_in() {
    assert!(is_plugin_file("mod.omwaddon", true));
    assert!(is_plugin_file("script.omwscripts", true));
    assert!(!is_plugin_file("mod.omwaddon", false));
    assert!(!is_plugin_file("script.omwscripts", false));
}

#[test]
fn scan_assigns_ranks_in_listing_order() {
    let paths = vec![s("older.esp"), s("newer.esp"), s("newest.esm")];
    let set = PluginSet::from_sorted_paths(&paths);
    assert_eq!(set.len(), 3);
    for i in 0..3 {
        let h = set.handle_at(i);
        assert_eq!(h.load_order_rank, i);
        assert_eq!(h.path, paths[i]);
        assert!(!h.enabled);
        assert_eq!(h.id, get_path_hash(&paths[i]));
    }
}

#[test]
fn toggle_flips_only_the_matching_handle() {
    let paths = vec![s("a.esp"), s("b.esp")];
    let set_id = get_path_hash(&s("b.esp"));
    let mut set = PluginSet::from_sorted_paths(&paths);
    set.toggle(set_id, true);
    assert!(!set.handle_at(0).enabled || get_path_hash(&s("a.esp")) == set_id);
    assert!(set.handle_at(1).enabled);
    set.toggle(set_id, false);
    assert!(!set.handle_at(1).enabled);
}

#[test]
fn recents_dedup_and_cap_at_ten() {
    let mut recents: Vec<String> = Vec::new();
    note_recent(&mut recents, &s("one.esp"));
    note_recent(&mut recents, &s("two.esp"));
    note_recent(&mut recents, &s("one.esp"));
    assert_eq!(recents.len(), 2);
    assert_eq!(recents[0], "one.esp");

    for i in 0..9 {
        note_recent(&mut recents, &format!("extra{}.esp", i));
    }
    assert_eq!(recents.len(), 10);
    // the oldest entry was dropped to make room
    assert_eq!(recents[0], "two.esp");
    assert_eq!(recents[9], "extra8.esp");
}
