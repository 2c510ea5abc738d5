use sigscan::builder::{build, Derivation, Diagnostic, RegistryEntry};
use sigscan::compile::compile;
use sigscan::offset_map::OffsetMap;
use sigscan::registry::entry;

fn plain_entry(name: &str, text: &str) -> RegistryEntry {
    entry(name, text).unwrap()
}

#[test]
fn map_insert_and_get() {
    let mut m = OffsetMap::new();
    assert_eq!(m.get(&"dwA".to_string()), None);
    m.insert("dwA".to_string(), 7);
    m.insert("dwB".to_string(), 9);
    assert_eq!(m.get(&"dwA".to_string()), Some(7));
    assert_eq!(m.get(&"dwB".to_string()), Some(9));
    assert_eq!(m.num_entries(), 2);
}

#[test]
fn map_never_overwrites() {
    let mut m = OffsetMap::new();
    m.insert("dwA".to_string(), 7);
    m.insert("dwA".to_string(), 100);
    assert_eq!(m.get(&"dwA".to_string()), Some(7));
    assert_eq!(m.num_entries(), 1);
}

#[test]
fn matched_entry_records_first_capture() {
    let entries = vec![plain_entry("dwThing", "aa${'}")];
    let mut image = vec![0u8; 12];
    image[2] = 0xaa;
    image[3] = 0x10;
    let (map, diags) = build(&entries, &image);
    // position after the field is 7; 7 + 0x10 = 0x17
    assert_eq!(map.get(&"dwThing".to_string()), Some(0x17));
    assert_eq!(diags.len(), 1);
    assert!(matches!(&diags[0], Diagnostic::Matched { name, rva } if name == "dwThing" && *rva == 0x17));
}

#[test]
fn stale_entry_is_isolated_and_reported() {
    let entries = vec![
        plain_entry("dwGone", "deadbeef${'}"),
        plain_entry("dwHere", "bb${'}"),
    ];
    let mut image = vec![0u8; 12];
    image[0] = 0xbb;
    let (map, diags) = build(&entries, &image);
    assert_eq!(map.get(&"dwGone".to_string()), None);
    assert_eq!(map.get(&"dwHere".to_string()), Some(5));
    assert_eq!(diags.len(), 2);
    assert!(matches!(&diags[0], Diagnostic::Stale { name } if name == "dwGone"));
    assert!(matches!(&diags[1], Diagnostic::Matched { name, rva } if name == "dwHere" && *rva == 5));
}

#[test]
fn read_adjacent_derivation_inserts_embedded_value() {
    // the pattern captures the raw value 6; the rule reads the 32-bit field
    // 2 bytes past that address
    let mut e = plain_entry("dwBase", "aa u4");
    e.derivation = Derivation::ReadAdjacent { name: "dwExtra".to_string(), delta: 2 };
    let entries = vec![e];
    let mut image = vec![0u8; 16];
    image[0] = 0xaa;
    image[1] = 0x06;
    image[8] = 0x99;
    image[9] = 0x02;
    let (map, _diags) = build(&entries, &image);
    assert_eq!(map.get(&"dwBase".to_string()), Some(6));
    assert_eq!(map.get(&"dwExtra".to_string()), Some(0x0299));
}

#[test]
fn read_adjacent_out_of_bounds_is_skipped() {
    let mut e = plain_entry("dwBase", "aa u4");
    e.derivation = Derivation::ReadAdjacent { name: "dwExtra".to_string(), delta: 1000 };
    let entries = vec![e];
    let mut image = vec![0u8; 16];
    image[0] = 0xaa;
    image[1] = 0x06;
    let (map, _diags) = build(&entries, &image);
    assert_eq!(map.get(&"dwBase".to_string()), Some(6));
    assert_eq!(map.get(&"dwExtra".to_string()), None);
}

#[test]
fn from_earlier_derivation_reads_prior_result() {
    let first = plain_entry("dwFirst", "aa${'}");
    let mut second = plain_entry("dwSecond", "bb${'}");
    second.derivation = Derivation::FromEarlier {
        name: "dwDerived".to_string(),
        source: "dwFirst".to_string(),
        addend: 8,
    };
    let entries = vec![first, second];
    let mut image = vec![0u8; 16];
    image[0] = 0xaa;
    image[5] = 0xbb;
    let (map, _diags) = build(&entries, &image);
    assert_eq!(map.get(&"dwFirst".to_string()), Some(5));
    assert_eq!(map.get(&"dwSecond".to_string()), Some(10));
    assert_eq!(map.get(&"dwDerived".to_string()), Some(13));
}

#[test]
fn missing_prerequisite_is_tolerated() {
    // the first entry goes stale; the second still matches, and its rule,
    // which reads the first entry's result, quietly does nothing
    let first = plain_entry("dwFirst", "deadbeef${'}");
    let mut second = plain_entry("dwSecond", "bb${'}");
    second.derivation = Derivation::FromEarlier {
        name: "dwDerived".to_string(),
        source: "dwFirst".to_string(),
        addend: 8,
    };
    let entries = vec![first, second];
    let mut image = vec![0u8; 16];
    image[5] = 0xbb;
    let (map, diags) = build(&entries, &image);
    assert_eq!(map.get(&"dwFirst".to_string()), None);
    assert_eq!(map.get(&"dwSecond".to_string()), Some(10));
    assert_eq!(map.get(&"dwDerived".to_string()), None);
    assert_eq!(diags.len(), 2);
    assert!(matches!(&diags[0], Diagnostic::Stale { name } if name == "dwFirst"));
    assert!(matches!(&diags[1], Diagnostic::Matched { name, .. } if name == "dwSecond"));
}

#[test]
fn entries_are_processed_in_registration_order() {
    let entries = vec![
        plain_entry("dwOne", "aa${'}"),
        plain_entry("dwTwo", "bb${'}"),
        plain_entry("dwThree", "cc${'}"),
    ];
    let mut image = vec![0u8; 32];
    image[0] = 0xcc;
    image[8] = 0xbb;
    image[16] = 0xaa;
    let (map, diags) = build(&entries, &image);
    assert_eq!(map.num_entries(), 3);
    assert_eq!(map.entry_at(0).0, "dwOne");
    assert_eq!(map.entry_at(1).0, "dwTwo");
    assert_eq!(map.entry_at(2).0, "dwThree");
    assert_eq!(diags.len(), 3);
    assert!(matches!(&diags[0], Diagnostic::Matched { name, .. } if name == "dwOne"));
}
