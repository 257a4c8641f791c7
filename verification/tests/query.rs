use rustymon_server::codec::{encode_features, Feature, MalformedBlobError, Point};
use rustymon_server::query::{
    get_osm_tags, get_tags, is_tile_selected, select_tiles, Candidate, QueryError,
};
use rustymon_server::store::{Area, Node, Tile, Way};
use rustymon_server::tags::{OSMTags, TagGroup, TagResolutionError};

fn point(x: f64, y: f64) -> Point {
    Point::new(x.to_bits(), y.to_bits())
}

fn tile(id: i64, min_x: f64, min_y: f64, max_x: f64, max_y: f64) -> Tile {
    Tile {
        id,
        min_x: min_x.to_bits(),
        max_x: max_x.to_bits(),
        min_y: min_y.to_bits(),
        max_y: max_y.to_bits(),
    }
}

fn candidate(tile: i64, hit: bool, features: &[(u32, u32)]) -> Candidate {
    let features: Vec<Feature> = features.iter().map(|&(k, v)| Feature::new(k, v)).collect();
    Candidate { tile, hit, features: encode_features(&features) }
}

fn sorted(mut features: Vec<Feature>) -> Vec<(u32, u32)> {
    features.sort_by_key(|f| (f.key, f.value));
    features.iter().map(|f| (f.key, f.value)).collect()
}

fn dictionary() -> OSMTags {
    OSMTags::new(r#"{"building": ["yes", "house"], "highway": ["primary", "footway"]}"#).unwrap()
}

fn group(key_index: u32, key: &str, values: &[&str]) -> TagGroup {
    TagGroup {
        key_index,
        key: key.to_string(),
        values: values.iter().map(|v| v.to_string()).collect(),
    }
}

#[test]
fn only_rows_of_tiles_that_hold_the_point_count() {
    let tiles = [tile(1, 0.0, 0.0, 10.0, 10.0), tile(2, 20.0, 0.0, 30.0, 10.0)];
    let candidates = [
        candidate(1, true, &[(0, 0)]),
        candidate(2, true, &[(1, 1)]),
        candidate(1, true, &[(1, 0)]),
        candidate(2, true, &[(0, 1)]),
    ];
    let tags = get_tags(&tiles, &candidates, point(5.0, 5.0)).unwrap();
    assert_eq!(sorted(tags), vec![(0, 0), (1, 0)]);
    let tags = get_tags(&tiles, &candidates, point(25.0, 5.0)).unwrap();
    assert_eq!(sorted(tags), vec![(0, 1), (1, 1)]);
}

#[test]
fn only_rows_that_passed_their_test_count() {
    let tiles = [tile(1, 0.0, 0.0, 10.0, 10.0)];
    let candidates = [
        candidate(1, false, &[(0, 0)]),
        candidate(1, true, &[(1, 1)]),
        candidate(1, false, &[(1, 0)]),
    ];
    assert_eq!(get_tags(&tiles, &candidates, point(5.0, 5.0)), Ok(vec![Feature::new(1, 1)]));
}

#[test]
fn a_tag_carried_by_area_way_and_node_applies_once() {
    let tiles = [tile(1, 0.0, 0.0, 10.0, 10.0)];
    let shared = encode_features(&[Feature::new(0, 0)]);
    let area = Area { id: 1, tile: 1, points: vec![0; 64], features: shared.clone() };
    let way = Way { id: 1, tile: 1, points: vec![0; 32], features: shared.clone() };
    let node = Node { id: 1, tile: 1, x: 5.0f64.to_bits(), y: 5.0f64.to_bits(), features: shared };
    let candidates =
        [Candidate::area(area, true), Candidate::way(way, true), Candidate::node(node, true)];
    assert_eq!(get_tags(&tiles, &candidates, point(5.0, 5.0)), Ok(vec![Feature::new(0, 0)]));
    assert_eq!(
        get_osm_tags(&dictionary(), &tiles, &candidates, point(5.0, 5.0)),
        Ok(vec![group(0, "building", &["yes"])])
    );
}

#[test]
fn a_tag_repeated_within_and_across_rows_applies_once() {
    let tiles = [tile(1, 0.0, 0.0, 10.0, 10.0), tile(2, 10.0, 0.0, 20.0, 10.0)];
    let candidates = [
        candidate(1, true, &[(1, 1), (0, 0), (1, 1)]),
        candidate(2, true, &[(0, 0), (0, 1)]),
        candidate(1, true, &[(0, 1), (1, 1)]),
    ];
    let tags = get_tags(&tiles, &candidates, point(10.0, 5.0)).unwrap();
    assert_eq!(tags.len(), 3);
    assert_eq!(sorted(tags), vec![(0, 0), (0, 1), (1, 1)]);
}

#[test]
fn the_order_of_the_scans_does_not_change_the_tags() {
    let tiles = [tile(1, 0.0, 0.0, 10.0, 10.0), tile(2, 10.0, 0.0, 20.0, 10.0)];
    let a = candidate(1, true, &[(1, 1), (0, 0)]);
    let b = candidate(2, true, &[(0, 0), (0, 1)]);
    let c = candidate(1, false, &[(1, 0)]);
    let d = candidate(1, true, &[(1, 0), (1, 1)]);
    let p = point(10.0, 5.0);
    let first = get_tags(&tiles, &[a.clone(), b.clone(), c.clone(), d.clone()], p).unwrap();
    let second = get_tags(&tiles, &[d.clone(), c.clone(), b.clone(), a.clone()], p).unwrap();
    let third = get_tags(&tiles, &[b.clone(), d, a.clone(), c, b, a], p).unwrap();
    assert_eq!(sorted(first.clone()), vec![(0, 0), (0, 1), (1, 0), (1, 1)]);
    assert_eq!(sorted(first.clone()), sorted(second));
    assert_eq!(sorted(first), sorted(third));
}

#[test]
fn a_point_on_a_shared_edge_gets_the_tags_of_both_tiles() {
    let tiles = [tile(1, 0.0, 0.0, 10.0, 10.0), tile(2, 10.0, 0.0, 20.0, 10.0)];
    let candidates = [candidate(1, true, &[(0, 0)]), candidate(2, true, &[(1, 0)])];
    assert_eq!(sorted(get_tags(&tiles, &candidates, point(10.0, 3.0)).unwrap()), vec![(0, 0), (1, 0)]);
    assert_eq!(sorted(get_tags(&tiles, &candidates, point(9.9, 3.0)).unwrap()), vec![(0, 0)]);
    assert_eq!(sorted(get_tags(&tiles, &candidates, point(10.1, 3.0)).unwrap()), vec![(1, 0)]);
}

#[test]
fn nothing_matching_is_an_empty_answer() {
    let tiles = [tile(1, 0.0, 0.0, 10.0, 10.0)];
    let candidates = [candidate(1, true, &[(0, 0)])];
    assert_eq!(get_tags(&tiles, &candidates, point(50.0, 50.0)), Ok(vec![]));
    assert_eq!(get_osm_tags(&dictionary(), &tiles, &candidates, point(50.0, 50.0)), Ok(vec![]));
    assert_eq!(get_tags(&tiles, &[], point(5.0, 5.0)), Ok(vec![]));
    assert_eq!(get_tags(&[], &candidates, point(5.0, 5.0)), Ok(vec![]));
    assert_eq!(get_osm_tags(&dictionary(), &[], &[], point(5.0, 5.0)), Ok(vec![]));
}

#[test]
fn a_row_of_an_unknown_tile_does_not_count() {
    let tiles = [tile(1, 0.0, 0.0, 10.0, 10.0)];
    let candidates = [candidate(7, true, &[(0, 0)])];
    assert_eq!(get_tags(&tiles, &candidates, point(5.0, 5.0)), Ok(vec![]));
    assert!(is_tile_selected(&tiles, 1, point(5.0, 5.0)));
    assert!(!is_tile_selected(&tiles, 7, point(5.0, 5.0)));
    assert!(!is_tile_selected(&tiles, 1, point(15.0, 5.0)));
}

#[test]
fn a_broken_blob_fails_the_lookup_only_where_the_row_counts() {
    let tiles = [tile(1, 0.0, 0.0, 10.0, 10.0), tile(2, 20.0, 0.0, 30.0, 10.0)];
    let broken = |tile: i64, hit: bool, length: usize| Candidate { tile, hit, features: vec![0; length] };
    let p = point(5.0, 5.0);
    let candidates = [candidate(1, true, &[(0, 0)]), broken(1, true, 13), broken(1, true, 7)];
    assert_eq!(get_tags(&tiles, &candidates, p), Err(MalformedBlobError { length: 13, width: 8 }));
    assert_eq!(
        get_osm_tags(&dictionary(), &tiles, &candidates, p),
        Err(QueryError::MalformedBlob(MalformedBlobError { length: 13, width: 8 }))
    );
    let candidates = [broken(1, false, 13), broken(2, true, 7), candidate(1, true, &[(0, 0)])];
    assert_eq!(get_tags(&tiles, &candidates, p), Ok(vec![Feature::new(0, 0)]));
}

#[test]
fn a_tag_that_the_dictionary_lacks_fails_the_lookup() {
    let tiles = [tile(1, 0.0, 0.0, 10.0, 10.0)];
    let candidates = [candidate(1, true, &[(0, 0), (1, 2), (5, 0)])];
    assert_eq!(
        get_osm_tags(&dictionary(), &tiles, &candidates, point(5.0, 5.0)),
        Err(QueryError::TagResolution(TagResolutionError { position: 1, feature: Feature::new(1, 2) }))
    );
    let candidates = [candidate(1, false, &[(1, 2)]), candidate(1, true, &[(1, 1)])];
    assert_eq!(
        get_osm_tags(&dictionary(), &tiles, &candidates, point(5.0, 5.0)),
        Ok(vec![group(1, "highway", &["footway"])])
    );
}

#[test]
fn labels_are_grouped_by_key() {
    let tiles = [tile(1, 0.0, 0.0, 10.0, 10.0)];
    let candidates = [
        candidate(1, true, &[(1, 1), (0, 0)]),
        candidate(1, true, &[(0, 1), (1, 1), (1, 0)]),
    ];
    assert_eq!(
        get_osm_tags(&dictionary(), &tiles, &candidates, point(5.0, 5.0)),
        Ok(vec![
            group(1, "highway", &["footway", "primary"]),
            group(0, "building", &["yes", "house"]),
        ])
    );
}

#[test]
fn the_tiles_that_hold_a_point_are_selected_in_order() {
    let tiles = [
        tile(1, 0.0, 0.0, 10.0, 10.0),
        tile(2, 10.0, 0.0, 20.0, 10.0),
        tile(3, 0.0, 10.0, 10.0, 20.0),
        tile(4, 10.0, 10.0, 20.0, 20.0),
    ];
    assert_eq!(select_tiles(&tiles, point(5.0, 5.0)), vec![tiles[0]]);
    assert_eq!(select_tiles(&tiles, point(10.0, 5.0)), vec![tiles[0], tiles[1]]);
    assert_eq!(select_tiles(&tiles, point(10.0, 10.0)), tiles.to_vec());
    assert_eq!(select_tiles(&tiles, point(20.0, 20.0)), vec![tiles[3]]);
    assert_eq!(select_tiles(&tiles, point(20.1, 20.0)), vec![]);
    assert_eq!(select_tiles(&[], point(1.0, 1.0)), vec![]);
}
