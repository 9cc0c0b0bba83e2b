use vhsichdl::registry::Registry;

#[test]
fn open_appends_and_classifies() {
    let mut reg = Registry::new();
    let idx = reg.open(
        "adder_tb.vhd".to_string(),
        Some("entity adder_tb is end;\nassert false;\n".to_string()),
    );
    assert_eq!(idx, Some(0));
    assert_eq!(reg.len(), 1);
    let doc = reg.get(0).expect("document should exist");
    assert_eq!(doc.path, Some("adder_tb.vhd".to_string()));
    assert_eq!(doc.text, "entity adder_tb is end;\nassert false;\n");
    assert_eq!(doc.units, vec!["adder_tb".to_string()]);
    assert!(doc.testbench);
}

#[test]
fn failed_read_leaves_registry_unchanged() {
    let mut reg = Registry::new();
    reg.open("first.vhd".to_string(), Some("signal x : bit;".to_string()));
    let before = reg.len();
    let idx = reg.open("missing.vhd".to_string(), None);
    assert_eq!(idx, None);
    assert_eq!(reg.len(), before);
    assert!(reg.get(1).is_none());
}

#[test]
fn get_out_of_range_is_none() {
    let reg = Registry::new();
    assert!(reg.get(0).is_none());
}

#[test]
fn positions_are_stable_and_ordered() {
    let mut reg = Registry::new();
    let a = reg.open("a.vhd".to_string(), Some("entity a is x".to_string()));
    let b = reg.open("b.vhd".to_string(), Some("entity b is x".to_string()));
    assert_eq!(a, Some(0));
    assert_eq!(b, Some(1));
    let all = reg.all();
    assert_eq!(all.len(), 2);
    assert_eq!(all[0].path, Some("a.vhd".to_string()));
    assert_eq!(all[1].path, Some("b.vhd".to_string()));
    assert_eq!(reg.get(0).unwrap().units, vec!["a".to_string()]);
}

#[test]
fn non_testbench_document_is_flagged_false() {
    let mut reg = Registry::new();
    reg.open("plain.vhd".to_string(), Some("signal x : bit;".to_string()));
    let doc = reg.get(0).unwrap();
    assert!(!doc.testbench);
    assert!(doc.units.is_empty());
}
