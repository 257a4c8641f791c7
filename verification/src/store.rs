//! The tile store's four tables as plain rows, the rows that ingestion
//! inserts, and the bounding-box test that selects tiles for a position.
//!
//! Ordinates are binary64 bit patterns. They are compared as the numbers they
//! stand for: a NaN is neither below nor above anything, and the two zeros are
//! equal.

use vstd::prelude::*;
use crate::codec::{
    blob_features, blob_points, decode_features, decode_points, encode_features, encode_points,
    features_blob, points_blob, Feature, MalformedBlobError, Point,
};
use crate::dataset::{ParsedArea, ParsedNode, ParsedTile, ParsedWay};

verus! {

/// The bit pattern of negative zero: the sign bit alone.
pub const SIGN_BIT: u64 = 0x8000_0000_0000_0000;

/// The bit pattern of positive infinity. Magnitudes above it are NaNs.
pub const INFINITY_BITS: u64 = 0x7ff0_0000_0000_0000;

/// Whether `bits` is the pattern of a NaN.
pub open spec fn is_nan(bits: u64) -> bool {
    bits % SIGN_BIT > INFINITY_BITS
}

/// Where the number with pattern `bits` stands among all that are no NaN:
/// its magnitude, negated when the sign bit is set.
pub open spec fn rank(bits: u64) -> int {
    if bits < SIGN_BIT {
        bits as int
    } else {
        SIGN_BIT - bits
    }
}

/// `a <= b` for the numbers with these patterns.
pub open spec fn at_most(a: u64, b: u64) -> bool {
    !is_nan(a) && !is_nan(b) && rank(a) <= rank(b)
}

/// Compares two ordinates as numbers.
pub fn is_at_most(a: u64, b: u64) -> (r: bool)
    ensures
        r == at_most(a, b),
{
    let a_magnitude: u64 = a % SIGN_BIT;
    let b_magnitude: u64 = b % SIGN_BIT;
    if a_magnitude > INFINITY_BITS || b_magnitude > INFINITY_BITS {
        return false;
    }
    let a_negative: bool = a >= SIGN_BIT;
    let b_negative: bool = b >= SIGN_BIT;
    if a_negative {
        if b_negative {
            a_magnitude >= b_magnitude
        } else {
            true
        }
    } else {
        if b_negative {
            a_magnitude == 0 && b_magnitude == 0
        } else {
            a_magnitude <= b_magnitude
        }
    }
}

/// A stored tile: an axis-aligned bounding box with its identifier.
#[derive(Clone, Copy, Debug, PartialEq, Eq, Structural)]
pub struct Tile {
    pub id: i64,
    pub min_x: u64,
    pub max_x: u64,
    pub min_y: u64,
    pub max_y: u64,
}

/// A tile before the store has given it an identifier.
#[derive(Clone, Copy, Debug, PartialEq, Eq, Structural)]
pub struct TileInsert {
    pub min_x: u64,
    pub max_x: u64,
    pub min_y: u64,
    pub max_y: u64,
}

impl Tile {
    /// The box is not inverted on either axis.
    pub open spec fn wf(&self) -> bool {
        at_most(self.min_x, self.max_x) && at_most(self.min_y, self.max_y)
    }

    /// `point` lies in the box, the four edges included.
    pub open spec fn covers(&self, point: Point) -> bool {
        &&& at_most(self.min_x, point.x)
        &&& at_most(point.x, self.max_x)
        &&& at_most(self.min_y, point.y)
        &&& at_most(point.y, self.max_y)
    }

    /// Whether `point` lies in the box, the four edges included.
    pub fn contains(&self, point: Point) -> (r: bool)
        ensures
            r == self.covers(point),
    {
        is_at_most(self.min_x, point.x) && is_at_most(point.x, self.max_x) && is_at_most(
            self.min_y,
            point.y,
        ) && is_at_most(point.y, self.max_y)
    }
}

impl TileInsert {
    /// The row for a parsed tile: its bounding box.
    pub fn new(tile: &ParsedTile) -> (row: TileInsert)
        ensures
            row == (TileInsert {
                min_x: tile.min.x,
                max_x: tile.max.x,
                min_y: tile.min.y,
                max_y: tile.max.y,
            }),
    {
        TileInsert { min_x: tile.min.x, max_x: tile.max.x, min_y: tile.min.y, max_y: tile.max.y }
    }

    /// The stored tile that this row becomes under the identifier `id`.
    pub fn stored(&self, id: i64) -> (tile: Tile)
        ensures
            tile == (Tile {
                id,
                min_x: self.min_x,
                max_x: self.max_x,
                min_y: self.min_y,
                max_y: self.max_y,
            }),
    {
        Tile { id, min_x: self.min_x, max_x: self.max_x, min_y: self.min_y, max_y: self.max_y }
    }
}

/// The four comparisons, all of which must hold, that select the tiles whose
/// box holds one position.
#[derive(Clone, Copy, Debug, PartialEq, Eq, Structural)]
pub struct TileCondition {
    /// `min_x` of the tile is at most this.
    pub min_x_at_most: u64,
    /// `max_x` of the tile is at least this.
    pub max_x_at_least: u64,
    /// `min_y` of the tile is at most this.
    pub min_y_at_most: u64,
    /// `max_y` of the tile is at least this.
    pub max_y_at_least: u64,
}

impl TileCondition {
    /// The tile meets all four comparisons.
    pub open spec fn admits(&self, tile: Tile) -> bool {
        &&& at_most(tile.min_x, self.min_x_at_most)
        &&& at_most(self.max_x_at_least, tile.max_x)
        &&& at_most(tile.min_y, self.min_y_at_most)
        &&& at_most(self.max_y_at_least, tile.max_y)
    }

    /// Whether the tile meets all four comparisons.
    pub fn matches(&self, tile: &Tile) -> (r: bool)
        ensures
            r == self.admits(*tile),
    {
        is_at_most(tile.min_x, self.min_x_at_most) && is_at_most(self.max_x_at_least, tile.max_x)
            && is_at_most(tile.min_y, self.min_y_at_most) && is_at_most(
            self.max_y_at_least,
            tile.max_y,
        )
    }
}

/// The condition that selects the tiles containing `point`.
pub fn tile_condition(point: Point) -> (condition: TileCondition)
    ensures
        condition == (TileCondition {
            min_x_at_most: point.x,
            max_x_at_least: point.x,
            min_y_at_most: point.y,
            max_y_at_least: point.y,
        }),
        forall|tile: Tile| condition.admits(tile) == tile.covers(point),
{
    TileCondition {
        min_x_at_most: point.x,
        max_x_at_least: point.x,
        min_y_at_most: point.y,
        max_y_at_least: point.y,
    }
}

/// A position on an edge of a well-formed tile's box lies in the box: each
/// of the four bounds is inclusive.
pub proof fn lemma_edges_inclusive(tile: Tile, x: u64, y: u64)
    requires
        tile.wf(),
    ensures
        at_most(tile.min_y, y) && at_most(y, tile.max_y) ==> tile.covers(
            Point { x: tile.max_x, y },
        ) && tile.covers(Point { x: tile.min_x, y }),
        at_most(tile.min_x, x) && at_most(x, tile.max_x) ==> tile.covers(
            Point { x, y: tile.max_y },
        ) && tile.covers(Point { x, y: tile.min_y }),
{
}

/// Two tiles that share an edge both contain a position on it.
pub proof fn lemma_shared_edge(left: Tile, right: Tile, y: u64)
    requires
        left.wf(),
        right.wf(),
        left.max_x == right.min_x,
        at_most(left.min_y, y) && at_most(y, left.max_y),
        at_most(right.min_y, y) && at_most(y, right.max_y),
    ensures
        left.covers(Point { x: left.max_x, y }),
        right.covers(Point { x: left.max_x, y }),
{
}


/// A stored way: a polyline and its tags, kept as blobs, in one tile.
#[derive(Clone, Debug, PartialEq, Eq)]
pub struct Way {
    pub id: i64,
    /// Identifier of the owning tile.
    pub tile: i64,
    pub points: Vec<u8>,
    pub features: Vec<u8>,
}

/// A way before the store has given it an identifier.
#[derive(Clone, Debug, PartialEq, Eq)]
pub struct WayInsert {
    /// Identifier of the owning tile.
    pub tile: i64,
    pub points: Vec<u8>,
    pub features: Vec<u8>,
}

impl Way {
    /// Both blobs hold whole records, and there are at least two points.
    pub open spec fn wf(&self) -> bool {
        &&& self.points@.len() % 16 == 0
        &&& self.points@.len() >= 32
        &&& self.features@.len() % 8 == 0
    }

    /// The polyline of this way, decoded.
    pub fn points(&self) -> (r: Result<Vec<Point>, MalformedBlobError>)
        ensures
            self.points@.len() % 16 == 0 ==> r is Ok && r->Ok_0@ == blob_points(self.points@),
            self.points@.len() % 16 != 0 ==> r == Err::<Vec<Point>, MalformedBlobError>(
                (MalformedBlobError { length: self.points.len(), width: 16 }),
            ),
    {
        decode_points(self.points.as_slice())
    }

    /// The tags of this way, decoded.
    pub fn features(&self) -> (r: Result<Vec<Feature>, MalformedBlobError>)
        ensures
            self.features@.len() % 8 == 0 ==> r is Ok && r->Ok_0@ == blob_features(
                self.features@,
            ),
            self.features@.len() % 8 != 0 ==> r == Err::<Vec<Feature>, MalformedBlobError>(
                (MalformedBlobError { length: self.features.len(), width: 8 }),
            ),
    {
        decode_features(self.features.as_slice())
    }
}

impl WayInsert {
    /// This row is the parsed way `source`, encoded, in the tile `tile`.
    pub open spec fn is_row_of(&self, tile: i64, source: ParsedWay) -> bool {
        &&& self.tile == tile
        &&& self.points@ == points_blob(source.points@)
        &&& self.features@ == features_blob(source.features@)
    }

    /// Both blobs hold whole records, and there are at least two points.
    pub open spec fn wf(&self) -> bool {
        &&& self.points@.len() % 16 == 0
        &&& self.points@.len() >= 32
        &&& self.features@.len() % 8 == 0
    }

    /// The row for a parsed way that lies in the tile `tile`.
    pub fn new(tile: i64, source: &ParsedWay) -> (row: WayInsert)
        ensures
            row.is_row_of(tile, *source),
            source.points@.len() >= 2 ==> row.wf(),
    {
        WayInsert {
            tile,
            points: encode_points(source.points.as_slice()),
            features: encode_features(source.features.as_slice()),
        }
    }

    /// The stored way that this row becomes under the identifier `id`.
    pub fn stored(self, id: i64) -> (row: Way)
        ensures
            row.id == id,
            row.tile == self.tile,
            row.points == self.points,
            row.features == self.features,
    {
        Way { id, tile: self.tile, points: self.points, features: self.features }
    }
}

/// A stored area: a polygon ring and its tags, kept as blobs, in one tile.
#[derive(Clone, Debug, PartialEq, Eq)]
pub struct Area {
    pub id: i64,
    /// Identifier of the owning tile.
    pub tile: i64,
    pub points: Vec<u8>,
    pub features: Vec<u8>,
}

/// A area before the store has given it an identifier.
#[derive(Clone, Debug, PartialEq, Eq)]
pub struct AreaInsert {
    /// Identifier of the owning tile.
    pub tile: i64,
    pub points: Vec<u8>,
    pub features: Vec<u8>,
}

impl Area {
    /// Both blobs hold whole records, and there are at least two points.
    pub open spec fn wf(&self) -> bool {
        &&& self.points@.len() % 16 == 0
        &&& self.points@.len() >= 32
        &&& self.features@.len() % 8 == 0
    }

    /// The ring of this area, decoded.
    pub fn points(&self) -> (r: Result<Vec<Point>, MalformedBlobError>)
        ensures
            self.points@.len() % 16 == 0 ==> r is Ok && r->Ok_0@ == blob_points(self.points@),
            self.points@.len() % 16 != 0 ==> r == Err::<Vec<Point>, MalformedBlobError>(
                (MalformedBlobError { length: self.points.len(), width: 16 }),
            ),
    {
        decode_points(self.points.as_slice())
    }

    /// The tags of this area, decoded.
    pub fn features(&self) -> (r: Result<Vec<Feature>, MalformedBlobError>)
        ensures
            self.features@.len() % 8 == 0 ==> r is Ok && r->Ok_0@ == blob_features(
                self.features@,
            ),
            self.features@.len() % 8 != 0 ==> r == Err::<Vec<Feature>, MalformedBlobError>(
                (MalformedBlobError { length: self.features.len(), width: 8 }),
            ),
    {
        decode_features(self.features.as_slice())
    }
}

impl AreaInsert {
    /// This row is the parsed area `source`, encoded, in the tile `tile`.
    pub open spec fn is_row_of(&self, tile: i64, source: ParsedArea) -> bool {
        &&& self.tile == tile
        &&& self.points@ == points_blob(source.points@)
        &&& self.features@ == features_blob(source.features@)
    }

    /// Both blobs hold whole records, and there are at least two points.
    pub open spec fn wf(&self) -> bool {
        &&& self.points@.len() % 16 == 0
        &&& self.points@.len() >= 32
        &&& self.features@.len() % 8 == 0
    }

    /// The row for a parsed area that lies in the tile `tile`.
    pub fn new(tile: i64, source: &ParsedArea) -> (row: AreaInsert)
        ensures
            row.is_row_of(tile, *source),
            source.points@.len() >= 2 ==> row.wf(),
    {
        AreaInsert {
            tile,
            points: encode_points(source.points.as_slice()),
            features: encode_features(source.features.as_slice()),
        }
    }

    /// The stored area that this row becomes under the identifier `id`.
    pub fn stored(self, id: i64) -> (row: Area)
        ensures
            row.id == id,
            row.tile == self.tile,
            row.points == self.points,
            row.features == self.features,
    {
        Area { id, tile: self.tile, points: self.points, features: self.features }
    }
}

/// A stored node: a position and its tags, in one tile.
#[derive(Clone, Debug, PartialEq, Eq)]
pub struct Node {
    pub id: i64,
    /// Identifier of the owning tile.
    pub tile: i64,
    pub x: u64,
    pub y: u64,
    pub features: Vec<u8>,
}

/// A node before the store has given it an identifier.
#[derive(Clone, Debug, PartialEq, Eq)]
pub struct NodeInsert {
    /// Identifier of the owning tile.
    pub tile: i64,
    pub x: u64,
    pub y: u64,
    pub features: Vec<u8>,
}

impl Node {
    /// The tag blob holds whole records.
    pub open spec fn wf(&self) -> bool {
        self.features@.len() % 8 == 0
    }

    /// The position of this node.
    pub fn point(&self) -> (p: Point)
        ensures
            p == (Point { x: self.x, y: self.y }),
    {
        Point { x: self.x, y: self.y }
    }

    /// The tags of this node, decoded.
    pub fn features(&self) -> (r: Result<Vec<Feature>, MalformedBlobError>)
        ensures
            self.features@.len() % 8 == 0 ==> r is Ok && r->Ok_0@ == blob_features(
                self.features@,
            ),
            self.features@.len() % 8 != 0 ==> r == Err::<Vec<Feature>, MalformedBlobError>(
                (MalformedBlobError { length: self.features.len(), width: 8 }),
            ),
    {
        decode_features(self.features.as_slice())
    }
}

impl NodeInsert {
    /// This row is the parsed node `source`, encoded, in the tile `tile`.
    pub open spec fn is_row_of(&self, tile: i64, source: ParsedNode) -> bool {
        &&& self.tile == tile
        &&& self.x == source.point.x
        &&& self.y == source.point.y
        &&& self.features@ == features_blob(source.features@)
    }

    /// The tag blob holds whole records.
    pub open spec fn wf(&self) -> bool {
        self.features@.len() % 8 == 0
    }

    /// The row for a parsed node that lies in the tile `tile`.
    pub fn new(tile: i64, source: &ParsedNode) -> (row: NodeInsert)
        ensures
            row.is_row_of(tile, *source),
            row.wf(),
    {
        NodeInsert {
            tile,
            x: source.point.x,
            y: source.point.y,
            features: encode_features(source.features.as_slice()),
        }
    }

    /// The stored node that this row becomes under the identifier `id`.
    pub fn stored(self, id: i64) -> (row: Node)
        ensures
            row.id == id,
            row.tile == self.tile,
            row.x == self.x,
            row.y == self.y,
            row.features == self.features,
    {
        Node { id, tile: self.tile, x: self.x, y: self.y, features: self.features }
    }
}

} // verus!
