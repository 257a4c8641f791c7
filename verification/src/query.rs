//! Coordinate lookups: which tags apply at a position.
//!
//! A lookup selects the tiles whose box holds the position, scans the
//! geometry of those tiles, and collects the tags of every area that contains
//! the position, every node near it and every way near it. The geometric
//! tests are the caller's: a lookup is handed each scanned row together with
//! the outcome of its test. What it collects is a set, so that neither the
//! order of the scans nor a row met twice changes the answer.

use vstd::prelude::*;
use crate::codec::{blob_features, decode_features, Feature, MalformedBlobError, Point};
use crate::store::{Area, Node, Tile, Way};
use crate::tags::{groups_of, resolvable, OSMTags, TagGroup, TagResolutionError};

verus! {

/// A scanned geometry row with the outcome of its geometric test.
#[derive(Clone, Debug, PartialEq, Eq)]
pub struct Candidate {
    /// Identifier of the tile that owns the row.
    pub tile: i64,
    /// Whether the position passed the row's test: inside the area, near
    /// enough to the node, near enough to the way.
    pub hit: bool,
    /// The row's tags, as stored.
    pub features: Vec<u8>,
}

impl Candidate {
    /// A scanned area; `inside` says whether its ring contains the position.
    pub fn area(area: Area, inside: bool) -> (c: Candidate)
        ensures
            c.tile == area.tile,
            c.hit == inside,
            c.features == area.features,
    {
        Candidate { tile: area.tile, hit: inside, features: area.features }
    }

    /// A scanned node; `near` says whether it lies within the node distance
    /// of the position.
    pub fn node(node: Node, near: bool) -> (c: Candidate)
        ensures
            c.tile == node.tile,
            c.hit == near,
            c.features == node.features,
    {
        Candidate { tile: node.tile, hit: near, features: node.features }
    }

    /// A scanned way; `near` says whether it passes within the way distance
    /// of the position.
    pub fn way(way: Way, near: bool) -> (c: Candidate)
        ensures
            c.tile == way.tile,
            c.hit == near,
            c.features == way.features,
    {
        Candidate { tile: way.tile, hit: near, features: way.features }
    }
}

/// Some tile with the identifier `id` holds `point` in its box.
pub open spec fn tile_selected(tiles: Seq<Tile>, id: i64, point: Point) -> bool {
    exists|t: int| 0 <= t < tiles.len() && (#[trigger] tiles[t]).id == id && tiles[t].covers(point)
}

/// The row counts for a lookup at `point`: it passed its test and its tile
/// is selected.
pub open spec fn counts(tiles: Seq<Tile>, candidate: Candidate, point: Point) -> bool {
    candidate.hit && tile_selected(tiles, candidate.tile, point)
}

/// The tags that apply at `point`: those of every row that counts.
pub open spec fn tag_set(tiles: Seq<Tile>, candidates: Seq<Candidate>, point: Point) -> Set<
    Feature,
> {
    Set::new(
        |f: Feature|
            exists|i: int|
                0 <= i < candidates.len() && counts(tiles, #[trigger] candidates[i], point)
                    && blob_features(candidates[i].features@).contains(f),
    )
}

/// The tag blob of the row holds whole records.
pub open spec fn readable(candidate: Candidate) -> bool {
    candidate.features@.len() % 8 == 0
}

/// The tiles whose box holds `point`, in the order of `tiles`.
pub open spec fn covering(tiles: Seq<Tile>, point: Point) -> Seq<Tile>
    decreases tiles.len(),
{
    if tiles.len() == 0 {
        Seq::empty()
    } else if tiles.last().covers(point) {
        covering(tiles.drop_last(), point).push(tiles.last())
    } else {
        covering(tiles.drop_last(), point)
    }
}

/// Selects the tiles whose box holds `point`, the edges of the box included,
/// so that a position on an edge that two tiles share selects both.
pub fn select_tiles(tiles: &[Tile], point: Point) -> (selected: Vec<Tile>)
    ensures
        selected@ == covering(tiles@, point),
{
    let mut selected: Vec<Tile> = Vec::new();
    let mut t: usize = 0;
    while t < tiles.len()
        invariant
            t <= tiles@.len(),
            selected@ == covering(tiles@.take(t as int), point),
        decreases tiles.len() - t,
    {
        proof {
            assert(tiles@.take(t + 1).drop_last() =~= tiles@.take(t as int));
            assert(tiles@.take(t + 1).last() == tiles@[t as int]);
        }
        if tiles[t].contains(point) {
            selected.push(tiles[t]);
        }
        t += 1;
    }
    proof {
        assert(tiles@.take(t as int) =~= tiles@);
    }
    selected
}

/// A tile is selected exactly if it is one of the tiles and holds the
/// position.
pub proof fn lemma_covering_members(tiles: Seq<Tile>, point: Point, tile: Tile)
    ensures
        covering(tiles, point).contains(tile) <==> tiles.contains(tile) && tile.covers(point),
    decreases tiles.len(),
{
    if tiles.len() > 0 {
        let front = tiles.drop_last();
        let last = tiles.last();
        lemma_covering_members(front, point, tile);
        let chosen = covering(tiles, point);
        if tiles.contains(tile) && tile.covers(point) {
            let i = choose|i: int| 0 <= i < tiles.len() && tiles[i] == tile;
            if i == tiles.len() - 1 {
                assert(chosen[chosen.len() - 1] == tile);
            } else {
                assert(front[i] == tile);
                assert(front.contains(tile));
                let j = choose|j: int|
                    0 <= j < covering(front, point).len() && covering(front, point)[j] == tile;
                assert(chosen[j] == tile);
            }
        }
        if chosen.contains(tile) {
            let j = choose|j: int| 0 <= j < chosen.len() && chosen[j] == tile;
            if last.covers(point) && j == chosen.len() - 1 {
                assert(tiles[tiles.len() - 1] == tile);
            } else {
                assert(covering(front, point)[j] == tile);
                assert(covering(front, point).contains(tile));
                let i = choose|i: int| 0 <= i < front.len() && front[i] == tile;
                assert(tiles[i] == tile);
            }
        }
    }
}

/// Whether some tile with the identifier `id` holds `point` in its box.
pub fn is_tile_selected(tiles: &[Tile], id: i64, point: Point) -> (r: bool)
    ensures
        r == tile_selected(tiles@, id, point),
{
    let mut t: usize = 0;
    while t < tiles.len()
        invariant
            t <= tiles@.len(),
            forall|k: int| 0 <= k < t ==> !((#[trigger] tiles@[k]).id == id && tiles@[k].covers(point)),
        decreases tiles.len() - t,
    {
        if tiles[t].id == id && tiles[t].contains(point) {
            return true;
        }
        t += 1;
    }
    false
}

/// `collected` with those of `features` added that it does not hold yet.
fn union_into(collected: Vec<Feature>, features: &Vec<Feature>) -> (tags: Vec<Feature>)
    requires
        collected@.no_duplicates(),
    ensures
        tags@.no_duplicates(),
        forall|f: Feature|
            #[trigger] tags@.contains(f) <==> collected@.contains(f) || features@.contains(f),
{
    let ghost before = collected@;
    let mut tags = collected;
    let mut k: usize = 0;
    while k < features.len()
        invariant
            k <= features@.len(),
            tags@.no_duplicates(),
            forall|f: Feature|
                #[trigger] tags@.contains(f) <==> before.contains(f) || features@.take(
                    k as int,
                ).contains(f),
        decreases features.len() - k,
    {
        let feature = features[k];
        let ghost seen = features@.take(k as int);
        let ghost so_far = tags@;
        let mut m: usize = 0;
        while m < tags.len() && tags[m] != feature
            invariant
                m <= tags@.len(),
                tags@ == so_far,
                forall|h: int| 0 <= h < m ==> tags@[h] != feature,
            decreases tags.len() - m,
        {
            m += 1;
        }
        if m == tags.len() {
            tags.push(feature);
            proof {
                assert(!so_far.contains(feature));
                assert forall|f: Feature| tags@.contains(f) implies so_far.contains(f) || f
                    == feature by {
                    let h = choose|h: int| 0 <= h < tags@.len() && tags@[h] == f;
                    if h < so_far.len() {
                        assert(so_far[h] == f);
                    }
                }
                assert forall|f: Feature| so_far.contains(f) implies tags@.contains(f) by {
                    let h = choose|h: int| 0 <= h < so_far.len() && so_far[h] == f;
                    assert(tags@[h] == f);
                }
                assert(tags@[so_far.len() as int] == feature);
                assert(tags@.contains(feature));
            }
        } else {
            proof {
                assert(so_far[m as int] == feature);
                assert(tags@.contains(feature));
            }
        }
        proof {
            let next = features@.take(k + 1);
            assert(next =~= seen.push(feature));
            assert forall|f: Feature| next.contains(f) <==> seen.contains(f) || f == feature by {
                if next.contains(f) {
                    let h = choose|h: int| 0 <= h < next.len() && next[h] == f;
                    if h < seen.len() {
                        assert(seen[h] == f);
                    }
                }
                if seen.contains(f) {
                    let h = choose|h: int| 0 <= h < seen.len() && seen[h] == f;
                    assert(next[h] == f);
                }
                assert(next[seen.len() as int] == feature);
                assert(next.contains(feature));
            }
            assert forall|f: Feature|
                #[trigger] tags@.contains(f) <==> before.contains(f) || next.contains(f) by {
                assert(tags@.contains(f) <==> so_far.contains(f) || f == feature);
                assert(next.contains(f) <==> seen.contains(f) || f == feature);
            }
        }
        k += 1;
    }
    proof {
        assert(features@.take(k as int) =~= features@);
        assert(before == collected@);
        assert forall|f: Feature|
            #[trigger] tags@.contains(f) <==> before.contains(f) || features@.contains(f) by {
            assert(tags@.contains(f) <==> before.contains(f) || features@.take(k as int).contains(
                f,
            ));
        }
    }
    tags
}


/// Why a lookup gave no answer.
#[derive(Clone, Copy, Debug, PartialEq, Eq, Structural)]
pub enum QueryError {
    /// A row that counts has a tag blob that holds no whole records.
    MalformedBlob(MalformedBlobError),
    /// A tag that applies is not in the dictionary.
    TagResolution(TagResolutionError),
}

/// The feature pairs that apply at `point`, each once. Only the rows that
/// count are decoded; the first of them whose tags cannot be decoded fails the
/// lookup.
pub fn get_tags(tiles: &[Tile], candidates: &[Candidate], point: Point) -> (r: Result<
    Vec<Feature>,
    MalformedBlobError,
>)
    ensures
        match r {
            Ok(tags) => {
                &&& tags@.no_duplicates()
                &&& tags@.to_set() == tag_set(tiles@, candidates@, point)
                &&& forall|i: int|
                    0 <= i < candidates@.len() && counts(tiles@, #[trigger] candidates@[i], point)
                        ==> readable(candidates@[i])
            },
            Err(e) => exists|i: int|
                {
                    &&& 0 <= i < candidates@.len()
                    &&& counts(tiles@, #[trigger] candidates@[i], point)
                    &&& !readable(candidates@[i])
                    &&& e == (MalformedBlobError {
                        length: candidates@[i].features.len(),
                        width: 8,
                    })
                    &&& forall|j: int|
                        0 <= j < i && counts(tiles@, #[trigger] candidates@[j], point)
                            ==> readable(candidates@[j])
                },
        },
{
    let mut tags: Vec<Feature> = Vec::new();
    let mut i: usize = 0;
    while i < candidates.len()
        invariant
            i <= candidates@.len(),
            tags@.no_duplicates(),
            forall|j: int|
                0 <= j < i && counts(tiles@, #[trigger] candidates@[j], point) ==> readable(
                    candidates@[j],
                ),
            forall|f: Feature|
                tags@.contains(f) <==> exists|j: int|
                    0 <= j < i && counts(tiles@, #[trigger] candidates@[j], point)
                        && blob_features(candidates@[j].features@).contains(f),
        decreases candidates.len() - i,
    {
        let candidate = &candidates[i];
        let ghost before = tags@;
        if candidate.hit && is_tile_selected(tiles, candidate.tile, point) {
            match decode_features(candidate.features.as_slice()) {
                Ok(features) => {
                    tags = union_into(tags, &features);
                    proof {
                        assert forall|f: Feature| tags@.contains(f) <==> exists|j: int|
                            0 <= j < i + 1 && counts(tiles@, #[trigger] candidates@[j], point)
                                && blob_features(candidates@[j].features@).contains(f) by {
                            if before.contains(f) {
                                let j = choose|j: int|
                                    0 <= j < i && counts(tiles@, #[trigger] candidates@[j], point)
                                        && blob_features(candidates@[j].features@).contains(f);
                                assert(0 <= j < i + 1);
                            }
                            if features@.contains(f) {
                                assert(counts(tiles@, candidates@[i as int], point));
                            }
                        }
                    }
                },
                Err(e) => {
                    proof {
                        assert(counts(tiles@, candidates@[i as int], point));
                    }
                    return Err(e);
                },
            }
        } else {
            proof {
                assert forall|f: Feature| tags@.contains(f) <==> exists|j: int|
                    0 <= j < i + 1 && counts(tiles@, #[trigger] candidates@[j], point)
                        && blob_features(candidates@[j].features@).contains(f) by {
                    if tags@.contains(f) {
                        let j = choose|j: int|
                            0 <= j < i && counts(tiles@, #[trigger] candidates@[j], point)
                                && blob_features(candidates@[j].features@).contains(f);
                        assert(0 <= j < i + 1);
                    }
                }
            }
        }
        i += 1;
    }
    proof {
        assert(tags@.to_set() =~= tag_set(tiles@, candidates@, point));
    }
    Ok(tags)
}

/// The tags that apply at `point`, as labels grouped by key. A tag that the
/// dictionary does not hold fails the lookup: no answer is given in part.
pub fn get_osm_tags(dictionary: &OSMTags, tiles: &[Tile], candidates: &[Candidate], point: Point)
    -> (r: Result<Vec<TagGroup>, QueryError>)
    ensures
        r is Ok ==> {
            &&& forall|i: int|
                0 <= i < candidates@.len() && counts(tiles@, #[trigger] candidates@[i], point)
                    ==> readable(candidates@[i])
            &&& forall|f: Feature|
                #[trigger] tag_set(tiles@, candidates@, point).contains(f) ==> resolvable(
                    dictionary@,
                    f,
                )
            &&& exists|tags: Seq<Feature>|
                {
                    &&& tags.no_duplicates()
                    &&& tags.to_set() == tag_set(tiles@, candidates@, point)
                    &&& #[trigger] groups_of(r->Ok_0@, dictionary@, tags)
                }
        },
        r matches Err(QueryError::MalformedBlob(e)) ==> exists|i: int|
            {
                &&& 0 <= i < candidates@.len()
                &&& counts(tiles@, #[trigger] candidates@[i], point)
                &&& !readable(candidates@[i])
                &&& e == (MalformedBlobError { length: candidates@[i].features.len(), width: 8 })
                &&& forall|j: int|
                    0 <= j < i && counts(tiles@, #[trigger] candidates@[j], point) ==> readable(
                        candidates@[j],
                    )
            },
        r matches Err(QueryError::TagResolution(e)) ==> {
            &&& forall|i: int|
                0 <= i < candidates@.len() && counts(tiles@, #[trigger] candidates@[i], point)
                    ==> readable(candidates@[i])
            &&& tag_set(tiles@, candidates@, point).contains(e.feature)
            &&& !resolvable(dictionary@, e.feature)
        },
{
    match get_tags(tiles, candidates, point) {
        Err(e) => {
            proof {
                let i = choose|i: int|
                    {
                        &&& 0 <= i < candidates@.len()
                        &&& counts(tiles@, #[trigger] candidates@[i], point)
                        &&& !readable(candidates@[i])
                        &&& e == (MalformedBlobError {
                            length: candidates@[i].features.len(),
                            width: 8,
                        })
                        &&& forall|j: int|
                            0 <= j < i && counts(tiles@, #[trigger] candidates@[j], point)
                                ==> readable(candidates@[j])
                    };
                assert(counts(tiles@, candidates@[i], point));
            }
            Err(QueryError::MalformedBlob(e))
        },
        Ok(tags) => match dictionary.lookup(tags.as_slice()) {
            Ok(groups) => {
                let r: Result<Vec<TagGroup>, QueryError> = Ok(groups);
                proof {
                    assert forall|f: Feature| #[trigger]
                        tag_set(tiles@, candidates@, point).contains(f) implies resolvable(
                        dictionary@,
                        f,
                    ) by {
                        assert(tags@.to_set().contains(f));
                        let k = choose|k: int| 0 <= k < tags@.len() && tags@[k] == f;
                        assert(resolvable(dictionary@, tags@[k]));
                    }
                    assert(groups_of(r->Ok_0@, dictionary@, tags@));
                }
                r
            },
            Err(e) => {
                proof {
                    assert(tags@.contains(tags@[e.position as int]));
                    assert(tags@.to_set().contains(e.feature));
                }
                Err(QueryError::TagResolution(e))
            },
        },
    }
}

/// Tags come only from rows of tiles that hold the position: with the
/// position inside the box of `inside` and outside that of `outside`, every
/// tag that applies is carried by a row that passed its test and is not owned
/// by `outside`; where these two are all the tiles, by a row of `inside`.
pub proof fn lemma_tags_from_covering_tiles(
    tiles: Seq<Tile>,
    candidates: Seq<Candidate>,
    point: Point,
    inside: Tile,
    outside: Tile,
    f: Feature,
)
    requires
        forall|a: int, b: int| 0 <= a < b < tiles.len() ==> tiles[a].id != tiles[b].id,
        tiles.contains(inside),
        tiles.contains(outside),
        inside.covers(point),
        !outside.covers(point),
        tag_set(tiles, candidates, point).contains(f),
    ensures
        exists|i: int|
            {
                &&& 0 <= i < candidates.len()
                &&& (#[trigger] candidates[i]).hit
                &&& candidates[i].tile != outside.id
                &&& blob_features(candidates[i].features@).contains(f)
                &&& (tiles.len() == 2 ==> candidates[i].tile == inside.id)
            },
{
    let i = choose|i: int|
        0 <= i < candidates.len() && counts(tiles, #[trigger] candidates[i], point)
            && blob_features(candidates[i].features@).contains(f);
    let t = choose|t: int|
        0 <= t < tiles.len() && (#[trigger] tiles[t]).id == candidates[i].tile && tiles[t].covers(
            point,
        );
    let o = choose|o: int| 0 <= o < tiles.len() && tiles[o] == outside;
    let n = choose|n: int| 0 <= n < tiles.len() && tiles[n] == inside;
    assert(t != o);
    assert(o != n);
    if tiles.len() == 2 {
        assert(t == n);
    }
}

/// A tag that several rows carry applies once: in a duplicate-free answer it
/// stands at exactly one place, however many areas, ways and nodes that count
/// carry it.
pub proof fn lemma_shared_tag_once(
    tiles: Seq<Tile>,
    candidates: Seq<Candidate>,
    point: Point,
    tags: Seq<Feature>,
    f: Feature,
    row: int,
)
    requires
        tags.no_duplicates(),
        tags.to_set() == tag_set(tiles, candidates, point),
        0 <= row < candidates.len(),
        counts(tiles, candidates[row], point),
        blob_features(candidates[row].features@).contains(f),
    ensures
        exists|k: int|
            0 <= k < tags.len() && #[trigger] tags[k] == f && forall|m: int|
                0 <= m < tags.len() && tags[m] == f ==> m == k,
{
    assert(tag_set(tiles, candidates, point).contains(f));
    assert(tags.to_set().contains(f));
    let k = choose|k: int| 0 <= k < tags.len() && tags[k] == f;
    assert(tags[k] == f);
}

/// The answer does not depend on the order of the scans, nor on a row being
/// met more than once: two scans that hold the same rows give the same tags.
pub proof fn lemma_scan_order_irrelevant(
    tiles: Seq<Tile>,
    first: Seq<Candidate>,
    second: Seq<Candidate>,
    point: Point,
)
    requires
        forall|c: Candidate| first.contains(c) <==> second.contains(c),
    ensures
        tag_set(tiles, first, point) == tag_set(tiles, second, point),
{
    assert forall|f: Feature| tag_set(tiles, first, point).contains(f) implies tag_set(
        tiles,
        second,
        point,
    ).contains(f) by {
        let i = choose|i: int|
            0 <= i < first.len() && counts(tiles, #[trigger] first[i], point) && blob_features(
                first[i].features@,
            ).contains(f);
        assert(first.contains(first[i]));
        let j = choose|j: int| 0 <= j < second.len() && second[j] == first[i];
        assert(counts(tiles, second[j], point));
    }
    assert forall|f: Feature| tag_set(tiles, second, point).contains(f) implies tag_set(
        tiles,
        first,
        point,
    ).contains(f) by {
        let i = choose|i: int|
            0 <= i < second.len() && counts(tiles, #[trigger] second[i], point) && blob_features(
                second[i].features@,
            ).contains(f);
        assert(second.contains(second[i]));
        let j = choose|j: int| 0 <= j < first.len() && first[j] == second[i];
        assert(counts(tiles, first[j], point));
    }
    assert(tag_set(tiles, first, point) =~= tag_set(tiles, second, point));
}

/// Where nothing counts, nothing applies: the answer is empty, and no error.
pub proof fn lemma_no_match_is_empty(tiles: Seq<Tile>, candidates: Seq<Candidate>, point: Point)
    requires
        forall|i: int| 0 <= i < candidates.len() ==> !counts(tiles, #[trigger] candidates[i], point),
    ensures
        tag_set(tiles, candidates, point) == Set::<Feature>::empty(),
{
    assert(tag_set(tiles, candidates, point) =~= Set::<Feature>::empty());
}

} // verus!
