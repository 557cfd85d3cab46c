use nix_bindings_store::outputs::{name_lt, OutputMap};
use nix_bindings_store::path::StorePath;

fn path(n: u8, name: &str) -> StorePath {
    StorePath::from_parts(&[n; 20], name).unwrap()
}

#[test]
fn output_map_orders_names() {
    // Declared in a scrambled order; the map lists them sorted.
    let declared = [
        "outd", "outf", "outg", "outb", "outc", "outi", "outj", "outh", "outa", "oute",
    ];
    let deliveries: Vec<(String, StorePath)> = declared
        .iter()
        .enumerate()
        .map(|(i, n)| (n.to_string(), path(i as u8, &format!("multi-{}", n))))
        .collect();
    let outputs = OutputMap::from_deliveries(deliveries);
    let expected_order = vec![
        "outa", "outb", "outc", "outd", "oute", "outf", "outg", "outh", "outi", "outj",
    ];
    assert_eq!(outputs.keys(), expected_order);
    assert_eq!(outputs.len(), 10);
}

#[test]
fn output_map_get_and_replace() {
    let mut outputs = OutputMap::new();
    outputs.insert("out".to_string(), path(1, "myname"));
    outputs.insert("dev".to_string(), path(2, "myname-dev"));
    assert!(outputs.contains_key("out"));
    assert!(!outputs.contains_key("doc"));
    assert_eq!(outputs.get("out").unwrap().name().unwrap(), "myname");
    outputs.insert("out".to_string(), path(3, "other"));
    assert_eq!(outputs.len(), 2);
    assert_eq!(outputs.get("out").unwrap().name().unwrap(), "other");
    assert_eq!(outputs.keys(), vec!["dev", "out"]);
    let entries = outputs.into_entries();
    assert_eq!(entries[0].0, "dev");
    assert_eq!(entries[1].1.hash().unwrap(), [3u8; 20]);
}

#[test]
fn output_map_order_independent_of_arrival() {
    let a = OutputMap::from_deliveries(vec![
        ("b".to_string(), path(1, "b")),
        ("a".to_string(), path(2, "a")),
        ("ab".to_string(), path(3, "ab")),
    ]);
    let b = OutputMap::from_deliveries(vec![
        ("ab".to_string(), path(3, "ab")),
        ("b".to_string(), path(1, "b")),
        ("a".to_string(), path(2, "a")),
    ]);
    assert_eq!(a.keys(), b.keys());
    assert_eq!(a.keys(), vec!["a", "ab", "b"]);
}

#[test]
fn empty_output_map() {
    let m = OutputMap::from_deliveries(Vec::new());
    assert_eq!(m.len(), 0);
    assert!(m.keys().is_empty());
    assert!(m.get("out").is_none());
}

#[test]
fn name_order_is_lexicographic() {
    assert!(name_lt("a", "b"));
    assert!(name_lt("", "a"));
    assert!(name_lt("out", "outa"));
    assert!(!name_lt("outa", "out"));
    assert!(!name_lt("same", "same"));
    assert!(name_lt("Z", "a"));
}

#[test]
fn deliver_decodes_names() {
    let mut outputs = OutputMap::new();
    outputs.deliver(b"out", &path(1, "myname"));
    outputs.deliver(&[b'd', 0xff, b'v'], &path(2, "myname-dev"));
    assert_eq!(outputs.keys(), vec!["d\u{fffd}v", "out"]);
    assert_eq!(outputs.get("out").unwrap().name().unwrap(), "myname");
    assert_eq!(outputs.get("d\u{fffd}v").unwrap().hash().unwrap(), [2u8; 20]);
}
