use rustymon_server::codec::{Feature, MalformedBlobError, Point};
use rustymon_server::dataset::{ParsedArea, ParsedNode, ParsedTile, ParsedWay};
use rustymon_server::store::{
    is_at_most, tile_condition, Area, AreaInsert, Node, NodeInsert, Tile, TileCondition,
    TileInsert, Way, WayInsert,
};

fn point(x: f64, y: f64) -> Point {
    Point::new(x.to_bits(), y.to_bits())
}

fn tile(id: i64, min_x: f64, min_y: f64, max_x: f64, max_y: f64) -> Tile {
    Tile {
        id,
        min_x: min_x.to_bits(),
        max_x: max_x.to_bits(),
        min_y: min_y.to_bits(),
        max_y: max_y.to_bits(),
    }
}

fn samples() -> Vec<f64> {
    vec![
        f64::NEG_INFINITY,
        f64::MIN,
        -1.0e300,
        -2.5,
        -1.0,
        -f64::MIN_POSITIVE,
        -5.0e-324,
        -0.0,
        0.0,
        5.0e-324,
        f64::MIN_POSITIVE,
        0.0000003,
        1.0,
        1.0000000000000002,
        2.5,
        10.0,
        1113194.9079327357,
        1.0e300,
        f64::MAX,
        f64::INFINITY,
        f64::NAN,
        -f64::NAN,
    ]
}

#[test]
fn ordinates_compare_as_numbers() {
    for a in samples() {
        for b in samples() {
            assert_eq!(is_at_most(a.to_bits(), b.to_bits()), a <= b, "{a} <= {b}");
        }
    }
}

#[test]
fn the_two_zeros_are_equal() {
    assert!(is_at_most(0.0f64.to_bits(), (-0.0f64).to_bits()));
    assert!(is_at_most((-0.0f64).to_bits(), 0.0f64.to_bits()));
}

#[test]
fn a_nan_is_never_in_order() {
    let nan = f64::NAN.to_bits();
    assert!(!is_at_most(nan, nan));
    assert!(!is_at_most(nan, 1.0f64.to_bits()));
    assert!(!is_at_most(1.0f64.to_bits(), nan));
    assert!(!is_at_most(0x7ff0_0000_0000_0001, f64::INFINITY.to_bits()));
    assert!(is_at_most(f64::INFINITY.to_bits(), f64::INFINITY.to_bits()));
}

#[test]
fn a_tile_contains_its_inside_and_not_its_outside() {
    let t = tile(1, 0.0, 0.0, 10.0, 10.0);
    assert!(t.contains(point(5.0, 5.0)));
    assert!(t.contains(point(0.1, 9.9)));
    assert!(!t.contains(point(50.0, 50.0)));
    assert!(!t.contains(point(-0.1, 5.0)));
    assert!(!t.contains(point(5.0, 10.1)));
    assert!(!t.contains(point(10.000000000000002, 5.0)));
    assert!(!t.contains(point(f64::NAN, 5.0)));
}

#[test]
fn the_four_edges_belong_to_the_tile() {
    let t = tile(1, -3.0, 2.0, 10.0, 20.0);
    assert!(t.contains(point(10.0, 7.0)));
    assert!(t.contains(point(-3.0, 7.0)));
    assert!(t.contains(point(1.0, 20.0)));
    assert!(t.contains(point(1.0, 2.0)));
    assert!(t.contains(point(10.0, 20.0)));
    assert!(t.contains(point(-3.0, 2.0)));
}

#[test]
fn a_shared_edge_matches_both_tiles() {
    let left = tile(1, 0.0, 0.0, 10.0, 10.0);
    let right = tile(2, 10.0, 0.0, 20.0, 10.0);
    let on_edge = point(10.0, 4.0);
    assert!(left.contains(on_edge));
    assert!(right.contains(on_edge));
    assert!(left.contains(point(9.0, 4.0)));
    assert!(!right.contains(point(9.0, 4.0)));
}

#[test]
fn the_condition_selects_the_tiles_that_contain_the_point() {
    let p = point(10.0, 4.0);
    let condition = tile_condition(p);
    assert_eq!(
        condition,
        TileCondition {
            min_x_at_most: p.x,
            max_x_at_least: p.x,
            min_y_at_most: p.y,
            max_y_at_least: p.y,
        }
    );
    let tiles = [
        tile(1, 0.0, 0.0, 10.0, 10.0),
        tile(2, 10.0, 0.0, 20.0, 10.0),
        tile(3, 0.0, 10.0, 10.0, 20.0),
        tile(4, 10.0, 10.0, 20.0, 20.0),
    ];
    for t in &tiles {
        assert_eq!(condition.matches(t), t.contains(p));
    }
    let matched: Vec<i64> = tiles.iter().filter(|t| condition.matches(t)).map(|t| t.id).collect();
    assert_eq!(matched, vec![1, 2]);
}

#[test]
fn a_tile_row_is_the_bounding_box() {
    let parsed = ParsedTile {
        min: point(1.0, 2.0),
        max: point(3.0, 4.0),
        areas: vec![],
        nodes: vec![],
        ways: vec![],
    };
    let row = TileInsert::new(&parsed);
    assert_eq!(
        row,
        TileInsert {
            min_x: 1.0f64.to_bits(),
            max_x: 3.0f64.to_bits(),
            min_y: 2.0f64.to_bits(),
            max_y: 4.0f64.to_bits(),
        }
    );
    assert_eq!(row.stored(9), tile(9, 1.0, 2.0, 3.0, 4.0));
}

#[test]
fn a_way_row_holds_the_encoded_way() {
    let way = ParsedWay {
        points: vec![point(1.0, 2.0), point(3.0, 4.0), point(5.0, 6.0)],
        features: vec![Feature::new(2, 1), Feature::new(0, 3)],
    };
    let row = WayInsert::new(42, &way);
    assert_eq!(row.tile, 42);
    assert_eq!(row.points.len(), 48);
    assert_eq!(row.features, vec![2, 0, 0, 0, 1, 0, 0, 0, 0, 0, 0, 0, 3, 0, 0, 0]);
    let stored: Way = row.stored(7);
    assert_eq!(stored.id, 7);
    assert_eq!(stored.tile, 42);
    assert_eq!(stored.points(), Ok(way.points.clone()));
    assert_eq!(stored.features(), Ok(way.features.clone()));
}

#[test]
fn an_area_row_holds_the_encoded_area() {
    let area = ParsedArea {
        points: vec![point(1.0, 1.0), point(9.0, 1.0), point(9.0, 9.0), point(1.0, 9.0)],
        features: vec![Feature::new(0, 0)],
    };
    let row = AreaInsert::new(-5, &area);
    assert_eq!(row.tile, -5);
    assert_eq!(row.points.len(), 64);
    let stored: Area = row.stored(1);
    assert_eq!(stored.points(), Ok(area.points.clone()));
    assert_eq!(stored.features(), Ok(area.features.clone()));
}

#[test]
fn a_node_row_holds_the_position_and_the_encoded_tags() {
    let node = ParsedNode { point: point(2.5, -7.0), features: vec![Feature::new(4, 5)] };
    let row = NodeInsert::new(3, &node);
    assert_eq!(
        row,
        NodeInsert {
            tile: 3,
            x: 2.5f64.to_bits(),
            y: (-7.0f64).to_bits(),
            features: vec![4, 0, 0, 0, 5, 0, 0, 0],
        }
    );
    let stored: Node = row.stored(11);
    assert_eq!(stored.point(), point(2.5, -7.0));
    assert_eq!(stored.features(), Ok(vec![Feature::new(4, 5)]));
}

#[test]
fn a_stored_row_with_a_broken_blob_is_not_decoded() {
    let way = Way { id: 1, tile: 1, points: vec![0; 20], features: vec![0; 12] };
    assert_eq!(way.points(), Err(MalformedBlobError { length: 20, width: 16 }));
    assert_eq!(way.features(), Err(MalformedBlobError { length: 12, width: 8 }));
    let area = Area { id: 1, tile: 1, points: vec![0; 1], features: vec![0; 3] };
    assert_eq!(area.points(), Err(MalformedBlobError { length: 1, width: 16 }));
    assert_eq!(area.features(), Err(MalformedBlobError { length: 3, width: 8 }));
    let node = Node { id: 1, tile: 1, x: 0, y: 0, features: vec![0; 9] };
    assert_eq!(node.features(), Err(MalformedBlobError { length: 9, width: 8 }));
}
