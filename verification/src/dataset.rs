//! The parsed dataset that ingestion starts from: an ordered sequence of tile
//! descriptors, each with the geometry that lies in it.

use vstd::prelude::*;
use crate::codec::{Feature, Point};

verus! {

/// A polyline with its tags.
#[derive(Clone, Debug, PartialEq, Eq)]
pub struct ParsedWay {
    pub points: Vec<Point>,
    pub features: Vec<Feature>,
}

/// A polygon ring with its tags.
#[derive(Clone, Debug, PartialEq, Eq)]
pub struct ParsedArea {
    pub points: Vec<Point>,
    pub features: Vec<Feature>,
}

/// A single point with its tags.
#[derive(Clone, Debug, PartialEq, Eq)]
pub struct ParsedNode {
    pub point: Point,
    pub features: Vec<Feature>,
}

/// One tile of the grid: its bounding box and the geometry inside it.
#[derive(Clone, Debug, PartialEq, Eq)]
pub struct ParsedTile {
    pub min: Point,
    pub max: Point,
    pub areas: Vec<ParsedArea>,
    pub nodes: Vec<ParsedNode>,
    pub ways: Vec<ParsedWay>,
}

} // verus!
