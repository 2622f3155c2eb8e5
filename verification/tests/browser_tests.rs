use tes3edit::{build_records_index, NamedRecords, Record, RecordBody, RecordIdentity};

fn s(x: &str) -> String {
    x.to_string()
}

fn rec(tag: &str, id: &str) -> Record {
    Record { tag: s(tag), id: s(id), body: RecordBody::Other(Vec::new()) }
}

fn ident(tag: &str, id: &str) -> RecordIdentity {
    RecordIdentity { tag: s(tag), id: s(id) }
}

#[test]
fn browser_lists_carrying_plugins_in_scan_order() {
    let plugins = vec![
        NamedRecords { name: s("base.esm"), records: vec![rec("GMST", "fDamage"), rec("MISC", "cup")] },
        NamedRecords { name: s("patch.esp"), records: vec![rec("GMST", "fDamage")] },
    ];
    let index = build_records_index(&plugins);
    let damage = index.get(&ident("GMST", "fDamage")).expect("entry");
    assert_eq!(damage, &vec![s("base.esm"), s("patch.esp")]);
    let cup = index.get(&ident("MISC", "cup")).expect("entry");
    assert_eq!(cup, &vec![s("base.esm")]);
}

#[test]
fn browser_skips_unknown_record_types() {
    let plugins = vec![NamedRecords {
        name: s("odd.esp"),
        records: vec![rec("????", "thing"), rec("BOOK", "tome")],
    }];
    let index = build_records_index(&plugins);
    assert!(index.get(&ident("????", "thing")).is_none());
    assert!(index.get(&ident("BOOK", "tome")).is_some());
    assert_eq!(index.len(), 1);
}
