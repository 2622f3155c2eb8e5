use tes3edit::{
    conflicting_ids, generate_conflict_map, sort_by_modified, sort_ids, str_le, PluginRecordIds,
};

fn s(x: &str) -> String {
    x.to_string()
}

#[test]
fn code_point_order_is_the_usual_one() {
    assert!(str_le("abc", "abd"));
    assert!(str_le("abc", "abc"));
    assert!(str_le("ab", "abc"));
    assert!(!str_le("abc", "ab"));
    assert!(str_le("", "a"));
    assert!(str_le("ARMO", "MISC"));
    // upper case sorts before lower case, as byte order does
    assert!(str_le("Zed", "apple"));
}

#[test]
fn sorting_orders_and_keeps_every_id() {
    let ids = vec![s("MISC,cup"), s("ARMO,helm"), s("WEAP,axe"), s("ARMO,helm")];
    let sorted = sort_ids(&ids);
    assert_eq!(
        sorted,
        vec![s("ARMO,helm"), s("ARMO,helm"), s("MISC,cup"), s("WEAP,axe")]
    );
    assert!(sort_ids(&Vec::new()).is_empty());
}

#[test]
fn load_order_follows_modification_time() {
    let entries = vec![
        (300u64, s("newest.esp")),
        (100u64, s("oldest.esm")),
        (200u64, s("middle.esp")),
    ];
    let sorted = sort_by_modified(&entries);
    assert_eq!(
        sorted,
        vec![
            (100u64, s("oldest.esm")),
            (200u64, s("middle.esp")),
            (300u64, s("newest.esp")),
        ]
    );
    assert!(sort_by_modified(&Vec::new()).is_empty());
}

#[test]
fn conflict_browser_ids_come_out_sorted() {
    let plugins = vec![
        PluginRecordIds {
            id: 1,
            enabled: true,
            record_ids: vec![s("WEAP,axe"), s("ARMO,helm")],
        },
        PluginRecordIds {
            id: 2,
            enabled: true,
            record_ids: vec![s("ARMO,helm"), s("WEAP,axe")],
        },
    ];
    let index = generate_conflict_map(&plugins);
    let listed = conflicting_ids(&index);
    assert_eq!(listed, vec![s("ARMO,helm"), s("WEAP,axe")]);
}
