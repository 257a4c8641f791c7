//! Geometry blob codec: fixed-width little-endian records.
//!
//! A point is stored as sixteen bytes: the IEEE-754 binary64 bit pattern of
//! `x`, then that of `y`, each least significant byte first. A feature pair is
//! stored as eight bytes: the key index, then the value index, each as a
//! little-endian `u32`. Records follow one another without padding.

use vstd::prelude::*;

verus! {

/// Bytes per stored point.
pub const POINT_WIDTH: usize = 16;

/// Bytes per stored feature pair.
pub const FEATURE_WIDTH: usize = 8;

/// `256` to the power `width`: the number of values that `width` bytes hold.
pub open spec fn radix(width: nat) -> nat
    decreases width,
{
    if width == 0 {
        1
    } else {
        256 * radix((width - 1) as nat)
    }
}

/// The `width` low bytes of `x`, least significant first.
pub open spec fn le_bytes(x: nat, width: nat) -> Seq<u8>
    decreases width,
{
    if width == 0 {
        Seq::empty()
    } else {
        seq![(x % 256) as u8] + le_bytes(x / 256, (width - 1) as nat)
    }
}

/// The number that the bytes of `s` spell, least significant first.
pub open spec fn le_value(s: Seq<u8>) -> nat
    decreases s.len(),
{
    if s.len() == 0 {
        0
    } else {
        s[0] as nat + 256 * le_value(s.drop_first())
    }
}

/// `le_bytes` yields exactly `width` bytes.
pub proof fn lemma_le_bytes_len(x: nat, width: nat)
    ensures
        le_bytes(x, width).len() == width,
    decreases width,
{
    if width > 0 {
        lemma_le_bytes_len(x / 256, (width - 1) as nat);
    }
}

/// Reading back what `le_bytes` wrote gives the number again, when it fits.
pub proof fn lemma_le_value_of_bytes(x: nat, width: nat)
    requires
        x < radix(width),
    ensures
        le_value(le_bytes(x, width)) == x,
    decreases width,
{
    if width > 0 {
        let rest = le_bytes(x / 256, (width - 1) as nat);
        let s = le_bytes(x, width);
        lemma_le_bytes_len(x / 256, (width - 1) as nat);
        assert(s.drop_first() =~= rest);
        lemma_le_value_of_bytes(x / 256, (width - 1) as nat);
    }
}

/// Every byte string spells a number that fits its length, and `le_bytes`
/// writes that number as the same bytes.
pub proof fn lemma_le_bytes_of_value(s: Seq<u8>)
    ensures
        le_value(s) < radix(s.len()),
        le_bytes(le_value(s), s.len()) == s,
    decreases s.len(),
{
    if s.len() > 0 {
        let tail = s.drop_first();
        lemma_le_bytes_of_value(tail);
        let v = le_value(s);
        assert(v == s[0] as nat + 256 * le_value(tail));
        assert(v % 256 == s[0] as nat);
        assert(v / 256 == le_value(tail));
        assert(le_bytes(v, s.len()) =~= s);
    } else {
        assert(le_bytes(0, 0) =~= s);
    }
}


/// Eight bytes hold exactly the values of a `u64`, four those of a `u32`.
pub proof fn lemma_radix_values()
    ensures
        radix(4) == 0x1_0000_0000,
        radix(8) == 0x1_0000_0000_0000_0000,
{
    reveal_with_fuel(radix, 9);
}

/// Appends the `width` low bytes of `x` to `out`, least significant first.
fn push_le(out: &mut Vec<u8>, x: u64, width: usize)
    requires
        width <= 8,
    ensures
        final(out)@ == old(out)@ + le_bytes(x as nat, width as nat),
{
    let ghost target = out@ + le_bytes(x as nat, width as nat);
    let mut rest: u64 = x;
    let mut i: usize = 0;
    proof {
        assert(out@ + le_bytes(rest as nat, (width - i) as nat) =~= target);
    }
    while i < width
        invariant
            i <= width,
            out@ + le_bytes(rest as nat, (width - i) as nat) == target,
        decreases width - i,
    {
        let ghost before = out@;
        let ghost tail = le_bytes((rest / 256) as nat, (width - i - 1) as nat);
        let low: u8 = (rest % 256) as u8;
        out.push(low);
        proof {
            assert(le_bytes(rest as nat, (width - i) as nat) == seq![low] + tail);
            assert(before.push(low) + tail =~= before + (seq![low] + tail));
        }
        rest = rest / 256;
        i += 1;
    }
    proof {
        assert(out@ + le_bytes(rest as nat, 0) =~= out@);
    }
}

/// Reads the `width` bytes of `bytes` that start at `at` as one number.
fn read_le(bytes: &[u8], at: usize, width: usize) -> (v: u64)
    requires
        width <= 8,
        at + width <= bytes.len(),
    ensures
        v as nat == le_value(bytes@.subrange(at as int, at + width)),
{
    let mut v: u64 = 0;
    let mut i: usize = width;
    while i > 0
        invariant
            i <= width <= 8,
            at + width <= bytes.len(),
            v as nat == le_value(bytes@.subrange(at + i, at + width)),
        decreases i,
    {
        let ghost seen = bytes@.subrange(at + i, at + width);
        i -= 1;
        let ghost next = bytes@.subrange(at + i, at + width);
        proof {
            assert(next.drop_first() =~= seen);
            lemma_le_bytes_of_value(seen);
            lemma_le_bytes_of_value(next);
            reveal_with_fuel(radix, 9);
        }
        v = v * 256 + bytes[at + i] as u64;
    }
    v
}


/// A planar position. Each ordinate is held as the bit pattern of an IEEE-754
/// binary64 number, so that storing and loading it never changes it.
#[derive(Clone, Copy, Debug, PartialEq, Eq, Structural)]
pub struct Point {
    pub x: u64,
    pub y: u64,
}

/// A tag as two positions in the tag dictionary: that of its key, and that of
/// its value among the key's values.
#[derive(Clone, Copy, Debug, PartialEq, Eq, Structural, Hash)]
pub struct Feature {
    pub key: u32,
    pub value: u32,
}

/// A blob whose length is no whole number of records.
#[derive(Clone, Copy, Debug, PartialEq, Eq, Structural)]
pub struct MalformedBlobError {
    /// Length of the rejected blob in bytes.
    pub length: usize,
    /// Width of one record in bytes.
    pub width: usize,
}

/// The sixteen bytes that store `p`.
pub open spec fn point_record(p: Point) -> Seq<u8> {
    le_bytes(p.x as nat, 8) + le_bytes(p.y as nat, 8)
}

/// The point that sixteen bytes store.
pub open spec fn record_point(r: Seq<u8>) -> Point {
    Point { x: le_value(r.subrange(0, 8)) as u64, y: le_value(r.subrange(8, 16)) as u64 }
}

/// The eight bytes that store `f`.
pub open spec fn feature_record(f: Feature) -> Seq<u8> {
    le_bytes(f.key as nat, 4) + le_bytes(f.value as nat, 4)
}

/// The feature pair that eight bytes store.
pub open spec fn record_feature(r: Seq<u8>) -> Feature {
    Feature { key: le_value(r.subrange(0, 4)) as u32, value: le_value(r.subrange(4, 8)) as u32 }
}

/// The blob of a point sequence: its records one after another, in order.
pub open spec fn points_blob(points: Seq<Point>) -> Seq<u8>
    decreases points.len(),
{
    if points.len() == 0 {
        Seq::empty()
    } else {
        points_blob(points.drop_last()) + point_record(points.last())
    }
}

/// The blob of a feature sequence: its records one after another, in order.
pub open spec fn features_blob(features: Seq<Feature>) -> Seq<u8>
    decreases features.len(),
{
    if features.len() == 0 {
        Seq::empty()
    } else {
        features_blob(features.drop_last()) + feature_record(features.last())
    }
}

/// The points that a blob stores: one for each full sixteen bytes.
pub open spec fn blob_points(bytes: Seq<u8>) -> Seq<Point> {
    Seq::new(bytes.len() / 16, |i: int| record_point(bytes.subrange(16 * i, 16 * i + 16)))
}

/// The feature pairs that a blob stores: one for each full eight bytes.
pub open spec fn blob_features(bytes: Seq<u8>) -> Seq<Feature> {
    Seq::new(bytes.len() / 8, |i: int| record_feature(bytes.subrange(8 * i, 8 * i + 8)))
}

impl Point {
    /// A point from the bit patterns of its two ordinates.
    pub fn new(x: u64, y: u64) -> (p: Point)
        ensures
            p == (Point { x, y }),
    {
        Point { x, y }
    }
}

impl Feature {
    /// A feature pair from its two indices.
    pub fn new(key: u32, value: u32) -> (f: Feature)
        ensures
            f == (Feature { key, value }),
    {
        Feature { key, value }
    }
}

/// Packs points into a blob of sixteen bytes each.
pub fn encode_points(points: &[Point]) -> (blob: Vec<u8>)
    ensures
        blob@ == points_blob(points@),
        blob@.len() == points@.len() * 16,
{
    let mut blob: Vec<u8> = Vec::new();
    let mut i: usize = 0;
    while i < points.len()
        invariant
            i <= points.len(),
            blob@ == points_blob(points@.take(i as int)),
        decreases points.len() - i,
    {
        let p = points[i];
        push_le(&mut blob, p.x, 8);
        push_le(&mut blob, p.y, 8);
        proof {
            let done = points@.take(i as int);
            let next = points@.take(i + 1);
            assert(next.drop_last() =~= done);
            assert(next.last() == p);
            assert(blob@ =~= points_blob(done) + point_record(p));
        }
        i += 1;
    }
    proof {
        assert(points@.take(i as int) =~= points@);
        lemma_points_blob_len(points@);
    }
    blob
}

/// Packs feature pairs into a blob of eight bytes each.
pub fn encode_features(features: &[Feature]) -> (blob: Vec<u8>)
    ensures
        blob@ == features_blob(features@),
        blob@.len() == features@.len() * 8,
{
    let mut blob: Vec<u8> = Vec::new();
    let mut i: usize = 0;
    while i < features.len()
        invariant
            i <= features.len(),
            blob@ == features_blob(features@.take(i as int)),
        decreases features.len() - i,
    {
        let f = features[i];
        push_le(&mut blob, f.key as u64, 4);
        push_le(&mut blob, f.value as u64, 4);
        proof {
            let done = features@.take(i as int);
            let next = features@.take(i + 1);
            assert(next.drop_last() =~= done);
            assert(next.last() == f);
            assert(blob@ =~= features_blob(done) + feature_record(f));
        }
        i += 1;
    }
    proof {
        assert(features@.take(i as int) =~= features@);
        lemma_features_blob_len(features@);
    }
    blob
}

/// A point blob is sixteen bytes for each point.
pub proof fn lemma_points_blob_len(points: Seq<Point>)
    ensures
        points_blob(points).len() == points.len() * 16,
    decreases points.len(),
{
    if points.len() > 0 {
        lemma_points_blob_len(points.drop_last());
        lemma_le_bytes_len(points.last().x as nat, 8);
        lemma_le_bytes_len(points.last().y as nat, 8);
    }
}

/// A feature blob is eight bytes for each pair.
pub proof fn lemma_features_blob_len(features: Seq<Feature>)
    ensures
        features_blob(features).len() == features.len() * 8,
    decreases features.len(),
{
    if features.len() > 0 {
        lemma_features_blob_len(features.drop_last());
        lemma_le_bytes_len(features.last().key as nat, 4);
        lemma_le_bytes_len(features.last().value as nat, 4);
    }
}


/// Unpacks a blob of sixteen-byte records into points. A blob whose length is
/// no multiple of sixteen is rejected whole.
pub fn decode_points(bytes: &[u8]) -> (r: Result<Vec<Point>, MalformedBlobError>)
    ensures
        bytes@.len() % 16 == 0 ==> r is Ok && r->Ok_0@ == blob_points(bytes@),
        bytes@.len() % 16 != 0 ==> r == Err::<Vec<Point>, MalformedBlobError>(
            (MalformedBlobError { length: bytes.len(), width: POINT_WIDTH }),
        ),
{
    let n: usize = bytes.len();
    if n % POINT_WIDTH != 0 {
        return Err(MalformedBlobError { length: n, width: POINT_WIDTH });
    }
    let count: usize = n / POINT_WIDTH;
    let mut points: Vec<Point> = Vec::new();
    let mut i: usize = 0;
    while i < count
        invariant
            i <= count,
            n == bytes.len(),
            count * 16 == n,
            points@.len() == i,
            forall|k: int|
                0 <= k < i ==> points@[k] == record_point(
                    #[trigger] bytes@.subrange(16 * k, 16 * k + 16),
                ),
        decreases count - i,
    {
        let at: usize = i * POINT_WIDTH;
        let x: u64 = read_le(bytes, at, 8);
        let y: u64 = read_le(bytes, at + 8, 8);
        proof {
            let record = bytes@.subrange(16 * i, 16 * i + 16);
            assert(record.subrange(0, 8) =~= bytes@.subrange(at as int, at + 8));
            assert(record.subrange(8, 16) =~= bytes@.subrange(at + 8, at + 16));
        }
        points.push(Point { x, y });
        i += 1;
    }
    proof {
        assert(points@ =~= blob_points(bytes@));
    }
    Ok(points)
}

/// Unpacks a blob of eight-byte records into feature pairs. A blob whose
/// length is no multiple of eight is rejected whole.
pub fn decode_features(bytes: &[u8]) -> (r: Result<Vec<Feature>, MalformedBlobError>)
    ensures
        bytes@.len() % 8 == 0 ==> r is Ok && r->Ok_0@ == blob_features(bytes@),
        bytes@.len() % 8 != 0 ==> r == Err::<Vec<Feature>, MalformedBlobError>(
            (MalformedBlobError { length: bytes.len(), width: FEATURE_WIDTH }),
        ),
{
    let n: usize = bytes.len();
    if n % FEATURE_WIDTH != 0 {
        return Err(MalformedBlobError { length: n, width: FEATURE_WIDTH });
    }
    let count: usize = n / FEATURE_WIDTH;
    let mut features: Vec<Feature> = Vec::new();
    let mut i: usize = 0;
    while i < count
        invariant
            i <= count,
            n == bytes.len(),
            count * 8 == n,
            features@.len() == i,
            forall|k: int|
                0 <= k < i ==> features@[k] == record_feature(
                    #[trigger] bytes@.subrange(8 * k, 8 * k + 8),
                ),
        decreases count - i,
    {
        let at: usize = i * FEATURE_WIDTH;
        let key: u64 = read_le(bytes, at, 4);
        let value: u64 = read_le(bytes, at + 4, 4);
        proof {
            let record = bytes@.subrange(8 * i, 8 * i + 8);
            assert(record.subrange(0, 4) =~= bytes@.subrange(at as int, at + 4));
            assert(record.subrange(4, 8) =~= bytes@.subrange(at + 4, at + 8));
            lemma_le_bytes_of_value(record.subrange(0, 4));
            lemma_le_bytes_of_value(record.subrange(4, 8));
            lemma_radix_values();
        }
        features.push(Feature { key: key as u32, value: value as u32 });
        i += 1;
    }
    proof {
        assert(features@ =~= blob_features(bytes@));
    }
    Ok(features)
}


/// A record read back is the point that was written.
pub proof fn lemma_point_record_roundtrip(p: Point)
    ensures
        point_record(p).len() == 16,
        record_point(point_record(p)) == p,
{
    let lo = le_bytes(p.x as nat, 8);
    let hi = le_bytes(p.y as nat, 8);
    lemma_le_bytes_len(p.x as nat, 8);
    lemma_le_bytes_len(p.y as nat, 8);
    lemma_radix_values();
    lemma_le_value_of_bytes(p.x as nat, 8);
    lemma_le_value_of_bytes(p.y as nat, 8);
    assert((lo + hi).subrange(0, 8) =~= lo);
    assert((lo + hi).subrange(8, 16) =~= hi);
}

/// A record read back is the feature pair that was written.
pub proof fn lemma_feature_record_roundtrip(f: Feature)
    ensures
        feature_record(f).len() == 8,
        record_feature(feature_record(f)) == f,
{
    let lo = le_bytes(f.key as nat, 4);
    let hi = le_bytes(f.value as nat, 4);
    lemma_le_bytes_len(f.key as nat, 4);
    lemma_le_bytes_len(f.value as nat, 4);
    lemma_radix_values();
    lemma_le_value_of_bytes(f.key as nat, 4);
    lemma_le_value_of_bytes(f.value as nat, 4);
    assert((lo + hi).subrange(0, 4) =~= lo);
    assert((lo + hi).subrange(4, 8) =~= hi);
}

/// Sixteen bytes written back are the bytes that were read.
pub proof fn lemma_record_point_roundtrip(r: Seq<u8>)
    requires
        r.len() == 16,
    ensures
        point_record(record_point(r)) == r,
{
    lemma_le_bytes_of_value(r.subrange(0, 8));
    lemma_le_bytes_of_value(r.subrange(8, 16));
    lemma_radix_values();
    assert(r.subrange(0, 8) + r.subrange(8, 16) =~= r);
}

/// Eight bytes written back are the bytes that were read.
pub proof fn lemma_record_feature_roundtrip(r: Seq<u8>)
    requires
        r.len() == 8,
    ensures
        feature_record(record_feature(r)) == r,
{
    lemma_le_bytes_of_value(r.subrange(0, 4));
    lemma_le_bytes_of_value(r.subrange(4, 8));
    lemma_radix_values();
    assert(r.subrange(0, 4) + r.subrange(4, 8) =~= r);
}

/// The `i`-th sixteen bytes of a point blob are the record of the `i`-th point.
pub proof fn lemma_points_blob_record(points: Seq<Point>, i: int)
    requires
        0 <= i < points.len(),
    ensures
        points_blob(points).subrange(16 * i, 16 * i + 16) == point_record(points[i]),
    decreases points.len(),
{
    let front = points.drop_last();
    lemma_points_blob_len(front);
    lemma_point_record_roundtrip(points.last());
    if i == points.len() - 1 {
        assert(points_blob(points).subrange(16 * i, 16 * i + 16) =~= point_record(
            points.last(),
        ));
    } else {
        lemma_points_blob_record(front, i);
        assert(points_blob(points).subrange(16 * i, 16 * i + 16) =~= points_blob(
            front,
        ).subrange(16 * i, 16 * i + 16));
    }
}

/// The `i`-th eight bytes of a feature blob are the record of the `i`-th pair.
pub proof fn lemma_features_blob_record(features: Seq<Feature>, i: int)
    requires
        0 <= i < features.len(),
    ensures
        features_blob(features).subrange(8 * i, 8 * i + 8) == feature_record(features[i]),
    decreases features.len(),
{
    let front = features.drop_last();
    lemma_features_blob_len(front);
    lemma_feature_record_roundtrip(features.last());
    if i == features.len() - 1 {
        assert(features_blob(features).subrange(8 * i, 8 * i + 8) =~= feature_record(
            features.last(),
        ));
    } else {
        lemma_features_blob_record(front, i);
        assert(features_blob(features).subrange(8 * i, 8 * i + 8) =~= features_blob(
            front,
        ).subrange(8 * i, 8 * i + 8));
    }
}

/// Decoding an encoded point sequence gives the sequence back: same length,
/// same order, same bit patterns.
pub proof fn lemma_decode_encode_points(points: Seq<Point>)
    ensures
        points_blob(points).len() % 16 == 0,
        blob_points(points_blob(points)) == points,
{
    lemma_points_blob_len(points);
    let back = blob_points(points_blob(points));
    assert(back.len() == points.len());
    assert forall|i: int| 0 <= i < points.len() implies back[i] == points[i] by {
        lemma_points_blob_record(points, i);
        lemma_point_record_roundtrip(points[i]);
    }
    assert(back =~= points);
}

/// Decoding an encoded feature sequence gives the sequence back.
pub proof fn lemma_decode_encode_features(features: Seq<Feature>)
    ensures
        features_blob(features).len() % 8 == 0,
        blob_features(features_blob(features)) == features,
{
    lemma_features_blob_len(features);
    let back = blob_features(features_blob(features));
    assert(back.len() == features.len());
    assert forall|i: int| 0 <= i < features.len() implies back[i] == features[i] by {
        lemma_features_blob_record(features, i);
        lemma_feature_record_roundtrip(features[i]);
    }
    assert(back =~= features);
}

/// Encoding what a well-formed point blob decodes to gives the same bytes:
/// stored data is read and written back unchanged.
pub proof fn lemma_encode_decode_points(bytes: Seq<u8>)
    requires
        bytes.len() % 16 == 0,
    ensures
        points_blob(blob_points(bytes)) == bytes,
{
    let points = blob_points(bytes);
    let again = points_blob(points);
    lemma_points_blob_len(points);
    assert forall|j: int| 0 <= j < bytes.len() implies again[j] == bytes[j] by {
        let i = j / 16;
        lemma_points_blob_record(points, i);
        lemma_record_point_roundtrip(bytes.subrange(16 * i, 16 * i + 16));
        assert(again[j] == again.subrange(16 * i, 16 * i + 16)[j - 16 * i]);
        assert(bytes[j] == bytes.subrange(16 * i, 16 * i + 16)[j - 16 * i]);
    }
    assert(again =~= bytes);
}

/// Encoding what a well-formed feature blob decodes to gives the same bytes.
pub proof fn lemma_encode_decode_features(bytes: Seq<u8>)
    requires
        bytes.len() % 8 == 0,
    ensures
        features_blob(blob_features(bytes)) == bytes,
{
    let features = blob_features(bytes);
    let again = features_blob(features);
    lemma_features_blob_len(features);
    assert forall|j: int| 0 <= j < bytes.len() implies again[j] == bytes[j] by {
        let i = j / 8;
        lemma_features_blob_record(features, i);
        lemma_record_feature_roundtrip(bytes.subrange(8 * i, 8 * i + 8));
        assert(again[j] == again.subrange(8 * i, 8 * i + 8)[j - 8 * i]);
        assert(bytes[j] == bytes.subrange(8 * i, 8 * i + 8)[j - 8 * i]);
    }
    assert(again =~= bytes);
}

} // verus!
