//! Bulk ingestion: a parsed dataset becomes store rows, batch by batch.
//!
//! The tiles are cut into batches of a fixed size. Each batch is one
//! transaction of the store: first the tile rows, in input order; then, with
//! the identifiers that the store gave them, the way, node and area rows;
//! then the commit. Whatever fails, the batch is rolled back whole and is not
//! tried again. The caller talks to the store; `advance` says what to do
//! next.

use vstd::prelude::*;
use crate::dataset::ParsedTile;
use crate::store::{AreaInsert, NodeInsert, TileInsert, WayInsert};

verus! {

/// The tiles of one batch: those at positions `start..end` of the dataset.
#[derive(Clone, Copy, Debug, PartialEq, Eq, Structural)]
pub struct Batch {
    pub start: usize,
    pub end: usize,
}

/// Why a batch, or the plan, could not go on.
#[derive(Clone, Copy, Debug, PartialEq, Eq, Structural)]
pub enum IngestionError {
    /// Batches of no tiles were asked for.
    ZeroBatchSize,
    /// The batch does not lie within the dataset.
    BatchOutOfRange,
    /// The store returned another number of identifiers than tiles were
    /// inserted.
    IdentifierCount { expected: usize, got: usize },
    /// The store reported that a step of the transaction failed.
    StoreFailure,
    /// The store reported something that the batch was not waiting for.
    OutOfTurn,
}

impl Batch {
    /// The batch is a range of positions in a dataset of `total` tiles.
    pub open spec fn within(&self, total: nat) -> bool {
        self.start <= self.end <= total
    }

    /// Number of tiles in the batch.
    pub fn len(&self) -> (n: usize)
        ensures
            n == if self.start <= self.end {
                self.end - self.start
            } else {
                0
            },
    {
        if self.start <= self.end {
            self.end - self.start
        } else {
            0
        }
    }
}

/// Number of batches of at most `size` tiles that `total` tiles make.
pub open spec fn batch_count(total: nat, size: nat) -> nat
    recommends
        size > 0,
{
    ((total + size - 1) / (size as int)) as nat
}

/// `plan` cuts `total` tiles into consecutive batches of `size` tiles, the
/// last of which holds what is left.
pub open spec fn is_plan(plan: Seq<Batch>, total: nat, size: nat) -> bool {
    &&& plan.len() == batch_count(total, size)
    &&& forall|k: int|
        0 <= k < plan.len() ==> (#[trigger] plan[k]).start == k * size && plan[k].end == if (k
            + 1) * size <= total {
            (k + 1) * size
        } else {
            total as int
        }
}

proof fn lemma_count_from_bounds(total: nat, size: nat, k: nat)
    requires
        size > 0,
        k == 0 ==> total == 0,
        k > 0 ==> (k - 1) * size < total <= k * size,
    ensures
        batch_count(total, size) == k,
{
    let q = (total + size - 1) / (size as int);
    let r = (total + size - 1) % (size as int);
    assert(total + size - 1 == q * size + r && 0 <= r < size) by (nonlinear_arith)
        requires
            size > 0,
            q == (total + size - 1) / (size as int),
            r == (total + size - 1) % (size as int),
    ;
    assert(q == k) by (nonlinear_arith)
        requires
            size > 0,
            total + size - 1 == q * size + r,
            0 <= r < size,
            k == 0 ==> total == 0,
            k > 0 ==> (k - 1) * size < total <= k * size,
    ;
}

/// Cuts a dataset of `total` tiles into batches of `batch_size` tiles.
pub fn plan_batches(total: usize, batch_size: usize) -> (r: Result<Vec<Batch>, IngestionError>)
    ensures
        batch_size == 0 ==> r == Err::<Vec<Batch>, IngestionError>(IngestionError::ZeroBatchSize),
        batch_size > 0 ==> r is Ok && is_plan(r->Ok_0@, total as nat, batch_size as nat),
{
    if batch_size == 0 {
        return Err(IngestionError::ZeroBatchSize);
    }
    let mut plan: Vec<Batch> = Vec::new();
    let mut start: usize = 0;
    proof {
        assert(0 * batch_size == 0) by (nonlinear_arith);
    }
    while start < total
        invariant
            batch_size > 0,
            start <= total,
            plan@.len() == 0 ==> start == 0,
            plan@.len() > 0 ==> (plan@.len() - 1) * batch_size < total,
            start < total ==> start == plan@.len() * batch_size,
            start == total ==> total <= plan@.len() * batch_size,
            forall|k: int|
                0 <= k < plan@.len() ==> (#[trigger] plan@[k]).start == k * batch_size
                    && plan@[k].end == if (k + 1) * batch_size <= total {
                    (k + 1) * batch_size
                } else {
                    total as int
                },
        decreases total - start,
    {
        let ghost k = plan@.len() as int;
        let end: usize = if total - start > batch_size {
            start + batch_size
        } else {
            total
        };
        proof {
            assert((k + 1) * batch_size == k * batch_size + batch_size) by (nonlinear_arith);
            assert((k + 1 - 1) * batch_size == k * batch_size) by (nonlinear_arith);
        }
        plan.push(Batch { start, end });
        start = end;
    }
    proof {
        lemma_count_from_bounds(total as nat, batch_size as nat, plan@.len());
    }
    Ok(plan)
}


/// The way, node and area rows of one batch.
#[derive(Clone, Debug, PartialEq, Eq)]
pub struct BatchRows {
    pub ways: Vec<WayInsert>,
    pub nodes: Vec<NodeInsert>,
    pub areas: Vec<AreaInsert>,
}

/// `rows` are the tile rows of `tiles`, one for one and in order.
pub open spec fn tile_rows_of(rows: Seq<TileInsert>, tiles: Seq<ParsedTile>) -> bool {
    &&& rows.len() == tiles.len()
    &&& forall|i: int|
        0 <= i < rows.len() ==> #[trigger] rows[i] == (TileInsert {
            min_x: tiles[i].min.x,
            max_x: tiles[i].max.x,
            min_y: tiles[i].min.y,
            max_y: tiles[i].max.y,
        })
}

/// `rows` are the ways of `tiles`, tile after tile and within a tile in
/// order, each owned by the identifier at its tile's position in `ids`.
pub open spec fn way_rows_of(rows: Seq<WayInsert>, tiles: Seq<ParsedTile>, ids: Seq<i64>) -> bool
    decreases tiles.len(),
{
    if tiles.len() == 0 {
        rows.len() == 0
    } else {
        let own = tiles.last().ways@;
        let before = rows.len() - own.len();
        &&& before >= 0
        &&& way_rows_of(rows.take(before), tiles.drop_last(), ids)
        &&& forall|j: int|
            0 <= j < own.len() ==> (#[trigger] rows[before + j]).is_row_of(
                ids[tiles.len() - 1],
                own[j],
            )
    }
}

/// `rows` are the nodes of `tiles`, tile after tile and within a tile in
/// order, each owned by the identifier at its tile's position in `ids`.
pub open spec fn node_rows_of(rows: Seq<NodeInsert>, tiles: Seq<ParsedTile>, ids: Seq<i64>) -> bool
    decreases tiles.len(),
{
    if tiles.len() == 0 {
        rows.len() == 0
    } else {
        let own = tiles.last().nodes@;
        let before = rows.len() - own.len();
        &&& before >= 0
        &&& node_rows_of(rows.take(before), tiles.drop_last(), ids)
        &&& forall|j: int|
            0 <= j < own.len() ==> (#[trigger] rows[before + j]).is_row_of(
                ids[tiles.len() - 1],
                own[j],
            )
    }
}

/// `rows` are the areas of `tiles`, tile after tile and within a tile in
/// order, each owned by the identifier at its tile's position in `ids`.
pub open spec fn area_rows_of(rows: Seq<AreaInsert>, tiles: Seq<ParsedTile>, ids: Seq<i64>) -> bool
    decreases tiles.len(),
{
    if tiles.len() == 0 {
        rows.len() == 0
    } else {
        let own = tiles.last().areas@;
        let before = rows.len() - own.len();
        &&& before >= 0
        &&& area_rows_of(rows.take(before), tiles.drop_last(), ids)
        &&& forall|j: int|
            0 <= j < own.len() ==> (#[trigger] rows[before + j]).is_row_of(
                ids[tiles.len() - 1],
                own[j],
            )
    }
}

impl BatchRows {
    /// These are the geometry rows of `tiles` under the identifiers `ids`.
    pub open spec fn rows_of(&self, tiles: Seq<ParsedTile>, ids: Seq<i64>) -> bool {
        &&& way_rows_of(self.ways@, tiles, ids)
        &&& node_rows_of(self.nodes@, tiles, ids)
        &&& area_rows_of(self.areas@, tiles, ids)
    }
}

/// The tile rows of a batch: the bounding box of each of its tiles, in input
/// order.
pub fn tile_rows(tiles: &[ParsedTile], batch: Batch) -> (r: Result<Vec<TileInsert>, IngestionError>)
    ensures
        !batch.within(tiles@.len()) ==> r == Err::<Vec<TileInsert>, IngestionError>(
            IngestionError::BatchOutOfRange,
        ),
        batch.within(tiles@.len()) ==> r is Ok && tile_rows_of(
            r->Ok_0@,
            tiles@.subrange(batch.start as int, batch.end as int),
        ),
{
    if !(batch.start <= batch.end && batch.end <= tiles.len()) {
        return Err(IngestionError::BatchOutOfRange);
    }
    let ghost own = tiles@.subrange(batch.start as int, batch.end as int);
    let mut rows: Vec<TileInsert> = Vec::new();
    let mut i: usize = batch.start;
    while i < batch.end
        invariant
            batch.start <= i <= batch.end <= tiles.len(),
            own == tiles@.subrange(batch.start as int, batch.end as int),
            rows@.len() == i - batch.start,
            forall|k: int|
                0 <= k < rows@.len() ==> #[trigger] rows@[k] == (TileInsert {
                    min_x: own[k].min.x,
                    max_x: own[k].max.x,
                    min_y: own[k].min.y,
                    max_y: own[k].max.y,
                }),
        decreases batch.end - i,
    {
        rows.push(TileInsert::new(&tiles[i]));
        i += 1;
    }
    Ok(rows)
}

/// The geometry rows of a batch, each with the identifier that the store gave
/// its tile: `ids` holds them in the order of the batch's tiles.
pub fn geometry_rows(tiles: &[ParsedTile], batch: Batch, ids: &[i64]) -> (r: Result<
    BatchRows,
    IngestionError,
>)
    ensures
        !batch.within(tiles@.len()) ==> r == Err::<BatchRows, IngestionError>(
            IngestionError::BatchOutOfRange,
        ),
        batch.within(tiles@.len()) && ids@.len() != batch.end - batch.start ==> r == Err::<
            BatchRows,
            IngestionError,
        >(
            (IngestionError::IdentifierCount {
                expected: (batch.end - batch.start) as usize,
                got: ids.len(),
            }),
        ),
        batch.within(tiles@.len()) && ids@.len() == batch.end - batch.start ==> r is Ok
            && r->Ok_0.rows_of(tiles@.subrange(batch.start as int, batch.end as int), ids@),
{
    if !(batch.start <= batch.end && batch.end <= tiles.len()) {
        return Err(IngestionError::BatchOutOfRange);
    }
    let count: usize = batch.end - batch.start;
    if ids.len() != count {
        return Err(IngestionError::IdentifierCount { expected: count, got: ids.len() });
    }
    let ghost own = tiles@.subrange(batch.start as int, batch.end as int);
    let mut ways: Vec<WayInsert> = Vec::new();
    let mut nodes: Vec<NodeInsert> = Vec::new();
    let mut areas: Vec<AreaInsert> = Vec::new();
    let mut t: usize = 0;
    while t < count
        invariant
            t <= count,
            count == batch.end - batch.start,
            batch.start <= batch.end <= tiles.len(),
            ids@.len() == count,
            own == tiles@.subrange(batch.start as int, batch.end as int),
            way_rows_of(ways@, own.take(t as int), ids@),
            node_rows_of(nodes@, own.take(t as int), ids@),
            area_rows_of(areas@, own.take(t as int), ids@),
        decreases count - t,
    {
        let tile = &tiles[batch.start + t];
        let id: i64 = ids[t];
        let ghost done = own.take(t as int);
        let ghost next = own.take(t + 1);
        let ghost ways_before = ways@;
        let ghost nodes_before = nodes@;
        let ghost areas_before = areas@;
        proof {
            assert(next.drop_last() =~= done);
            assert(next.last() == *tile);
        }
        let mut j: usize = 0;
        while j < tile.ways.len()
            invariant
                j <= tile.ways.len(),
                ways@.len() == ways_before.len() + j,
                ways@.take(ways_before.len() as int) == ways_before,
                forall|k: int|
                    0 <= k < j ==> (#[trigger] ways@[ways_before.len() + k]).is_row_of(
                        id,
                        tile.ways@[k],
                    ),
            decreases tile.ways.len() - j,
        {
            let ghost so_far = ways@;
            ways.push(WayInsert::new(id, &tile.ways[j]));
            proof {
                assert(ways@.take(ways_before.len() as int) =~= so_far.take(
                    ways_before.len() as int,
                ));
            }
            j += 1;
        }
        let mut j: usize = 0;
        while j < tile.nodes.len()
            invariant
                j <= tile.nodes.len(),
                nodes@.len() == nodes_before.len() + j,
                nodes@.take(nodes_before.len() as int) == nodes_before,
                forall|k: int|
                    0 <= k < j ==> (#[trigger] nodes@[nodes_before.len() + k]).is_row_of(
                        id,
                        tile.nodes@[k],
                    ),
            decreases tile.nodes.len() - j,
        {
            let ghost so_far = nodes@;
            nodes.push(NodeInsert::new(id, &tile.nodes[j]));
            proof {
                assert(nodes@.take(nodes_before.len() as int) =~= so_far.take(
                    nodes_before.len() as int,
                ));
            }
            j += 1;
        }
        let mut j: usize = 0;
        while j < tile.areas.len()
            invariant
                j <= tile.areas.len(),
                areas@.len() == areas_before.len() + j,
                areas@.take(areas_before.len() as int) == areas_before,
                forall|k: int|
                    0 <= k < j ==> (#[trigger] areas@[areas_before.len() + k]).is_row_of(
                        id,
                        tile.areas@[k],
                    ),
            decreases tile.areas.len() - j,
        {
            let ghost so_far = areas@;
            areas.push(AreaInsert::new(id, &tile.areas[j]));
            proof {
                assert(areas@.take(areas_before.len() as int) =~= so_far.take(
                    areas_before.len() as int,
                ));
            }
            j += 1;
        }
        t += 1;
    }
    proof {
        assert(own.take(t as int) =~= own);
    }
    Ok(BatchRows { ways, nodes, areas })
}


/// How far the transaction of one batch has come.
#[derive(Clone, Copy, Debug, PartialEq, Eq, Structural)]
pub enum BatchState {
    /// Nothing was sent yet.
    Ready,
    /// The tile rows were sent; their identifiers are awaited.
    InsertingTiles,
    /// The way, node and area rows were sent.
    InsertingGeometry,
    /// The commit was sent.
    Committing,
    /// The batch is in the store, whole.
    Committed,
    /// The batch was given up; nothing of it is in the store.
    RolledBack,
}

/// What the store reports back to a batch.
#[derive(Clone, Debug, PartialEq, Eq)]
pub enum StoreEvent {
    /// The transaction is open.
    Opened,
    /// The tile rows are inserted; these are their identifiers, in the order
    /// of the rows.
    TilesInserted(Vec<i64>),
    /// The way, node and area rows are inserted.
    GeometryInserted,
    /// The transaction is committed.
    Committed,
    /// The step that was asked for failed.
    Failed,
}

/// What the caller is to do for a batch next.
#[derive(Clone, Debug, PartialEq, Eq)]
pub enum StoreAction {
    /// Insert these tile rows in one bulk insert, in this order.
    InsertTiles(Vec<TileInsert>),
    /// Insert these rows: three bulk inserts, in any order.
    InsertGeometry(BatchRows),
    /// Commit the transaction.
    Commit,
    /// Abandon the transaction, if one is open, for this reason.
    Rollback(IngestionError),
    /// Nothing: the batch has ended.
    Nothing,
}

impl BatchState {
    /// The batch has ended, one way or the other.
    pub open spec fn is_final(&self) -> bool {
        *self == BatchState::Committed || *self == BatchState::RolledBack
    }
}

/// Whether `event` is what a batch in `state` waits for, and can go on with.
pub open spec fn proceeds(state: BatchState, event: StoreEvent, batch: Batch, total: nat) -> bool {
    match (state, event) {
        (BatchState::Ready, StoreEvent::Opened) => batch.within(total),
        (BatchState::InsertingTiles, StoreEvent::TilesInserted(ids)) => batch.within(total)
            && ids@.len() == batch.end - batch.start,
        (BatchState::InsertingGeometry, StoreEvent::GeometryInserted) => true,
        (BatchState::Committing, StoreEvent::Committed) => true,
        _ => false,
    }
}

/// The state of a batch after `event` reached it in `state`.
pub open spec fn state_after(
    state: BatchState,
    event: StoreEvent,
    batch: Batch,
    total: nat,
) -> BatchState {
    if state.is_final() {
        state
    } else if proceeds(state, event, batch, total) {
        match state {
            BatchState::Ready => BatchState::InsertingTiles,
            BatchState::InsertingTiles => BatchState::InsertingGeometry,
            BatchState::InsertingGeometry => BatchState::Committing,
            _ => BatchState::Committed,
        }
    } else {
        BatchState::RolledBack
    }
}

/// Why a batch in `state` is rolled back on `event`.
pub open spec fn rollback_reason(
    state: BatchState,
    event: StoreEvent,
    batch: Batch,
    total: nat,
) -> IngestionError {
    match (state, event) {
        (_, StoreEvent::Failed) => IngestionError::StoreFailure,
        (BatchState::Ready, StoreEvent::Opened) => IngestionError::BatchOutOfRange,
        (BatchState::InsertingTiles, StoreEvent::TilesInserted(ids)) => if batch.within(total) {
            IngestionError::IdentifierCount {
                expected: (batch.end - batch.start) as usize,
                got: ids@.len() as usize,
            }
        } else {
            IngestionError::BatchOutOfRange
        },
        _ => IngestionError::OutOfTurn,
    }
}

/// `action` is what is to be done when `event` reached a batch in `state`.
pub open spec fn action_after(
    action: StoreAction,
    state: BatchState,
    event: StoreEvent,
    tiles: Seq<ParsedTile>,
    batch: Batch,
) -> bool {
    let own = tiles.subrange(batch.start as int, batch.end as int);
    if state.is_final() {
        action == StoreAction::Nothing
    } else if !proceeds(state, event, batch, tiles.len()) {
        action == StoreAction::Rollback(rollback_reason(state, event, batch, tiles.len()))
    } else {
        match state {
            BatchState::Ready => action is InsertTiles && tile_rows_of(action->InsertTiles_0@, own),
            BatchState::InsertingTiles => action is InsertGeometry
                && action->InsertGeometry_0.rows_of(own, event->TilesInserted_0@),
            BatchState::InsertingGeometry => action == StoreAction::Commit,
            _ => action == StoreAction::Nothing,
        }
    }
}

/// One step of a batch: from its state and what the store reported, to its
/// next state and what to do next. A failure, a wrong number of identifiers or
/// an event out of turn rolls the batch back for good.
pub fn advance(state: BatchState, event: &StoreEvent, tiles: &[ParsedTile], batch: Batch) -> (next:
    (BatchState, StoreAction))
    ensures
        next.0 == state_after(state, *event, batch, tiles@.len()),
        action_after(next.1, state, *event, tiles@, batch),
{
    match state {
        BatchState::Committed => (BatchState::Committed, StoreAction::Nothing),
        BatchState::RolledBack => (BatchState::RolledBack, StoreAction::Nothing),
        BatchState::Ready => match event {
            StoreEvent::Opened => match tile_rows(tiles, batch) {
                Ok(rows) => (BatchState::InsertingTiles, StoreAction::InsertTiles(rows)),
                Err(reason) => (BatchState::RolledBack, StoreAction::Rollback(reason)),
            },
            StoreEvent::Failed => (
                BatchState::RolledBack,
                StoreAction::Rollback(IngestionError::StoreFailure),
            ),
            _ => (BatchState::RolledBack, StoreAction::Rollback(IngestionError::OutOfTurn)),
        },
        BatchState::InsertingTiles => match event {
            StoreEvent::TilesInserted(ids) => match geometry_rows(tiles, batch, ids.as_slice()) {
                Ok(rows) => (BatchState::InsertingGeometry, StoreAction::InsertGeometry(rows)),
                Err(reason) => (BatchState::RolledBack, StoreAction::Rollback(reason)),
            },
            StoreEvent::Failed => (
                BatchState::RolledBack,
                StoreAction::Rollback(IngestionError::StoreFailure),
            ),
            _ => (BatchState::RolledBack, StoreAction::Rollback(IngestionError::OutOfTurn)),
        },
        BatchState::InsertingGeometry => match event {
            StoreEvent::GeometryInserted => (BatchState::Committing, StoreAction::Commit),
            StoreEvent::Failed => (
                BatchState::RolledBack,
                StoreAction::Rollback(IngestionError::StoreFailure),
            ),
            _ => (BatchState::RolledBack, StoreAction::Rollback(IngestionError::OutOfTurn)),
        },
        BatchState::Committing => match event {
            StoreEvent::Committed => (BatchState::Committed, StoreAction::Nothing),
            StoreEvent::Failed => (
                BatchState::RolledBack,
                StoreAction::Rollback(IngestionError::StoreFailure),
            ),
            _ => (BatchState::RolledBack, StoreAction::Rollback(IngestionError::OutOfTurn)),
        },
    }
}

/// A batch is committed only by the store's report of the commit, received
/// while the commit was awaited.
pub proof fn lemma_commit_only_on_report(
    state: BatchState,
    event: StoreEvent,
    batch: Batch,
    total: nat,
)
    requires
        state != BatchState::Committed,
        state_after(state, event, batch, total) == BatchState::Committed,
    ensures
        state == BatchState::Committing,
        event == StoreEvent::Committed,
{
}

/// A failure at any step ends the batch rolled back, and from there nothing
/// moves it again: a failed batch is not retried, and never committed.
pub proof fn lemma_failure_is_final(state: BatchState, later: StoreEvent, batch: Batch, total: nat)
    requires
        !state.is_final(),
    ensures
        state_after(state, StoreEvent::Failed, batch, total) == BatchState::RolledBack,
        state_after(BatchState::RolledBack, later, batch, total) == BatchState::RolledBack,
{
}

/// A committed batch stays committed whatever is reported afterwards.
pub proof fn lemma_committed_is_final(later: StoreEvent, batch: Batch, total: nat)
    ensures
        state_after(BatchState::Committed, later, batch, total) == BatchState::Committed,
{
}


/// A plan puts every tile of the dataset into exactly one batch.
pub proof fn lemma_plan_partitions(plan: Seq<Batch>, total: nat, size: nat, tile: int)
    requires
        size > 0,
        is_plan(plan, total, size),
        0 <= tile < total,
    ensures
        exists|k: int|
            0 <= k < plan.len() && (#[trigger] plan[k]).start <= tile < plan[k].end && forall|
                m: int,
            |
                0 <= m < plan.len() && (#[trigger] plan[m]).start <= tile < plan[m].end ==> m == k,
{
    let k = tile / (size as int);
    let count = plan.len() as int;
    assert(k * size <= tile < (k + 1) * size) by (nonlinear_arith)
        requires
            size > 0,
            tile >= 0,
            k == tile / (size as int),
    ;
    assert(0 <= k) by (nonlinear_arith)
        requires
            size > 0,
            tile >= 0,
            k == tile / (size as int),
    ;
    assert(k < count) by (nonlinear_arith)
        requires
            size > 0,
            k * size <= tile < total,
            count == (total + size - 1) / (size as int),
    ;
    assert(plan[k].start <= tile < plan[k].end);
    assert forall|m: int|
        0 <= m < plan.len() && (#[trigger] plan[m]).start <= tile < plan[m].end implies m == k by {
        assert(m * size <= tile);
        assert(tile < (m + 1) * size);
        assert(m == k) by (nonlinear_arith)
            requires
                size > 0,
                m * size <= tile < (m + 1) * size,
                k * size <= tile < (k + 1) * size,
        ;
    }
}

/// Every way row of a batch is owned by one of the batch's tiles, under the
/// identifier that the store gave that tile.
pub proof fn lemma_way_rows_owned(rows: Seq<WayInsert>, tiles: Seq<ParsedTile>, ids: Seq<i64>, k: int)
    requires
        way_rows_of(rows, tiles, ids),
        0 <= k < rows.len(),
    ensures
        exists|t: int| 0 <= t < tiles.len() && rows[k].tile == #[trigger] ids[t],
    decreases tiles.len(),
{
    if tiles.len() > 0 {
        let before = rows.len() - tiles.last().ways@.len();
        if k < before {
            lemma_way_rows_owned(rows.take(before), tiles.drop_last(), ids, k);
            let t = choose|t: int|
                0 <= t < tiles.drop_last().len() && rows.take(before)[k].tile == #[trigger] ids[t];
            assert(rows[k].tile == ids[t]);
        } else {
            assert(rows[before + (k - before)].is_row_of(
                ids[tiles.len() - 1],
                tiles.last().ways@[k - before],
            ));
            assert(rows[k].tile == ids[tiles.len() - 1]);
        }
    }
}

/// Every node row of a batch is owned by one of the batch's tiles, under the
/// identifier that the store gave that tile.
pub proof fn lemma_node_rows_owned(
    rows: Seq<NodeInsert>,
    tiles: Seq<ParsedTile>,
    ids: Seq<i64>,
    k: int,
)
    requires
        node_rows_of(rows, tiles, ids),
        0 <= k < rows.len(),
    ensures
        exists|t: int| 0 <= t < tiles.len() && rows[k].tile == #[trigger] ids[t],
    decreases tiles.len(),
{
    if tiles.len() > 0 {
        let before = rows.len() - tiles.last().nodes@.len();
        if k < before {
            lemma_node_rows_owned(rows.take(before), tiles.drop_last(), ids, k);
            let t = choose|t: int|
                0 <= t < tiles.drop_last().len() && rows.take(before)[k].tile == #[trigger] ids[t];
            assert(rows[k].tile == ids[t]);
        } else {
            assert(rows[before + (k - before)].is_row_of(
                ids[tiles.len() - 1],
                tiles.last().nodes@[k - before],
            ));
            assert(rows[k].tile == ids[tiles.len() - 1]);
        }
    }
}

/// Every area row of a batch is owned by one of the batch's tiles, under the
/// identifier that the store gave that tile.
pub proof fn lemma_area_rows_owned(
    rows: Seq<AreaInsert>,
    tiles: Seq<ParsedTile>,
    ids: Seq<i64>,
    k: int,
)
    requires
        area_rows_of(rows, tiles, ids),
        0 <= k < rows.len(),
    ensures
        exists|t: int| 0 <= t < tiles.len() && rows[k].tile == #[trigger] ids[t],
    decreases tiles.len(),
{
    if tiles.len() > 0 {
        let before = rows.len() - tiles.last().areas@.len();
        if k < before {
            lemma_area_rows_owned(rows.take(before), tiles.drop_last(), ids, k);
            let t = choose|t: int|
                0 <= t < tiles.drop_last().len() && rows.take(before)[k].tile == #[trigger] ids[t];
            assert(rows[k].tile == ids[t]);
        } else {
            assert(rows[before + (k - before)].is_row_of(
                ids[tiles.len() - 1],
                tiles.last().areas@[k - before],
            ));
            assert(rows[k].tile == ids[tiles.len() - 1]);
        }
    }
}

} // verus!
