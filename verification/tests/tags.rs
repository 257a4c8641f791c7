use rustymon_server::codec::Feature;
use rustymon_server::tags::{OSMTags, TagGroup, TagResolutionError};

const DEFINITION: &str = r#"{
    "building": ["yes", "house", "church"],
    "highway": ["primary", "footway"],
    "empty": [],
    "amenity": ["bench"]
}"#;

fn group(key_index: u32, key: &str, values: &[&str]) -> TagGroup {
    TagGroup {
        key_index,
        key: key.to_string(),
        values: values.iter().map(|v| v.to_string()).collect(),
    }
}

#[test]
fn the_definition_is_read_in_order() {
    let tags = OSMTags::new(DEFINITION).unwrap();
    assert_eq!(tags.len(), 4);
    assert_eq!(tags.lookup(&[Feature::new(0, 0)]), Ok(vec![group(0, "building", &["yes"])]));
    assert_eq!(tags.lookup(&[Feature::new(1, 1)]), Ok(vec![group(1, "highway", &["footway"])]));
    assert_eq!(tags.lookup(&[Feature::new(3, 0)]), Ok(vec![group(3, "amenity", &["bench"])]));
}

#[test]
fn what_is_no_definition_is_refused() {
    assert!(OSMTags::new("").is_none());
    assert!(OSMTags::new("not json").is_none());
    assert!(OSMTags::new("[]").is_none());
    assert!(OSMTags::new(r#"{"building": "yes"}"#).is_none());
    assert!(OSMTags::new(r#"{"building": [1, 2]}"#).is_none());
    assert!(OSMTags::new(r#"{"building": ["yes"]"#).is_none());
    assert!(OSMTags::new(r#"{"building": ["yes"]} trailing"#).is_none());
}

#[test]
fn the_empty_definition_is_the_empty_dictionary() {
    let tags = OSMTags::new("{}").unwrap();
    assert_eq!(tags.len(), 0);
    assert_eq!(tags.lookup(&[]), Ok(vec![]));
    assert_eq!(
        tags.lookup(&[Feature::new(0, 0)]),
        Err(TagResolutionError { position: 0, feature: Feature::new(0, 0) })
    );
}

#[test]
fn a_repeated_key_keeps_its_first_place_and_its_last_values() {
    let tags = OSMTags::new(r#"{"a": ["x"], "b": ["y"], "a": ["z", "w"]}"#).unwrap();
    assert_eq!(tags.len(), 2);
    assert_eq!(
        tags.lookup(&[Feature::new(0, 1), Feature::new(1, 0)]),
        Ok(vec![group(0, "a", &["w"]), group(1, "b", &["y"])])
    );
}

#[test]
fn a_dictionary_from_entries() {
    let tags = OSMTags::from_entries(vec![
        ("natural".to_string(), vec!["wood".to_string(), "water".to_string()]),
        ("shop".to_string(), vec![]),
    ])
    .unwrap();
    assert_eq!(tags.len(), 2);
    assert_eq!(tags.lookup(&[Feature::new(0, 1)]), Ok(vec![group(0, "natural", &["water"])]));
    assert!(OSMTags::from_entries(vec![]).is_some());
}

#[test]
fn two_keys_with_one_label_are_refused() {
    assert!(OSMTags::from_entries(vec![
        ("shop".to_string(), vec!["bakery".to_string()]),
        ("natural".to_string(), vec![]),
        ("shop".to_string(), vec!["butcher".to_string()]),
    ])
    .is_none());
}

#[test]
fn values_are_grouped_by_key_in_their_order() {
    let tags = OSMTags::new(DEFINITION).unwrap();
    let features = [
        Feature::new(1, 1),
        Feature::new(0, 2),
        Feature::new(1, 0),
        Feature::new(3, 0),
        Feature::new(0, 0),
        Feature::new(0, 2),
    ];
    assert_eq!(
        tags.lookup(&features),
        Ok(vec![
            group(1, "highway", &["footway", "primary"]),
            group(0, "building", &["church", "yes", "church"]),
            group(3, "amenity", &["bench"]),
        ])
    );
}

#[test]
fn nothing_looked_up_gives_nothing() {
    let tags = OSMTags::new(DEFINITION).unwrap();
    assert_eq!(tags.lookup(&[]), Ok(vec![]));
}

#[test]
fn a_key_out_of_bounds_fails_the_lookup() {
    let tags = OSMTags::new(DEFINITION).unwrap();
    assert_eq!(
        tags.lookup(&[Feature::new(0, 0), Feature::new(4, 0), Feature::new(9, 9)]),
        Err(TagResolutionError { position: 1, feature: Feature::new(4, 0) })
    );
    assert_eq!(
        tags.lookup(&[Feature::new(u32::MAX, 0)]),
        Err(TagResolutionError { position: 0, feature: Feature::new(u32::MAX, 0) })
    );
}

#[test]
fn a_value_out_of_bounds_fails_the_lookup() {
    let tags = OSMTags::new(DEFINITION).unwrap();
    assert_eq!(
        tags.lookup(&[Feature::new(0, 0), Feature::new(1, 1), Feature::new(1, 2)]),
        Err(TagResolutionError { position: 2, feature: Feature::new(1, 2) })
    );
    assert_eq!(
        tags.lookup(&[Feature::new(2, 0)]),
        Err(TagResolutionError { position: 0, feature: Feature::new(2, 0) })
    );
    assert_eq!(
        tags.lookup(&[Feature::new(0, u32::MAX)]),
        Err(TagResolutionError { position: 0, feature: Feature::new(0, u32::MAX) })
    );
}

#[test]
fn a_label_with_an_escape_is_refused() {
    assert!(OSMTags::new(r#"{"caf\u00e9": ["x"]}"#).is_none());
    assert!(OSMTags::new(r#"{"shop": ["a\nb"]}"#).is_none());
    assert!(OSMTags::new("{\"caf\u{e9}\": [\"x\"]}").is_some());
}
