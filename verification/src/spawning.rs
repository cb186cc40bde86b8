//! The reconciliation core: the shadow state mirroring each chunk's realized
//! objects, the per-slot and per-chunk reconciliation model, and the
//! executable passes that bring a shadow chunk back into agreement with its
//! logical chunk using the minimum necessary backend requests.

use crate::backend::{Backend, BackendCall, ObjectHandle, WorldPosition};
use crate::map_data::{MapChunk, MapData, MapError, TileData, TurfData, TurfDefinition};
use crate::map_data::{CHUNK_LENGTH, CHUNK_SIZE};
use vstd::prelude::*;

verus! {

/// Shadow state of one tile slot: the occupant snapshot that produced the
/// currently realized object, and that object's handle.
#[derive(Clone, Copy, Debug, PartialEq, Eq, Default)]
pub struct SpawnedTile {
    pub spawned_turf: Option<(TurfData, ObjectHandle)>,
}

/// Shadow state of one chunk: per-slot mirror of what the backend currently
/// holds, index-aligned with the logical chunk's tiles.
#[derive(Clone, Debug, PartialEq)]
pub struct SpawnedChunk {
    pub spawned_tiles: Vec<Option<SpawnedTile>>,
}

/// A tile-level failure, recorded instead of aborting the pass: one bad tile
/// must not block reconciliation of the rest of the chunk. The slot it names
/// is left exactly as it was, so a later pass can retry once the marker is
/// set again.
#[derive(Clone, Copy, Debug, PartialEq, Eq, Structural)]
pub enum TileIssue {
    /// The tile references a definition id the world's table does not know.
    MissingDefinition { slot: usize, definition_id: u32 },
    /// The definition exists but its mesh asset is unavailable.
    MissingAsset { slot: usize, definition_id: u32 },
}

/// The per-slot outcome of one reconciliation step.
pub ghost struct SlotOutcome {
    /// The slot's shadow state after the step.
    pub slot: Option<SpawnedTile>,
    /// Backend requests the step decided on: at most one.
    pub calls: Seq<BackendCall>,
    /// Tile-level failures the step recorded: at most one.
    pub issues: Seq<TileIssue>,
    /// Handle counter after the step.
    pub next: int,
}

/// The whole-chunk outcome of reconciling a prefix of the slots.
pub ghost struct ChunkOutcome {
    pub slots: Seq<Option<SpawnedTile>>,
    pub calls: Seq<BackendCall>,
    pub issues: Seq<TileIssue>,
    pub next: int,
}

/// The occupant a logical tile asks to have realized, if any.
pub open spec fn tile_occupant(tile: Option<TileData>) -> Option<TurfData> {
    match tile {
        Some(t) => t.turf,
        None => None,
    }
}

/// The snapshot and handle a shadow slot currently holds, if any.
pub open spec fn slot_turf(slot: Option<SpawnedTile>) -> Option<(TurfData, ObjectHandle)> {
    match slot {
        Some(s) => s.spawned_turf,
        None => None,
    }
}

/// The handle a shadow slot currently holds, if any.
pub open spec fn slot_handle(slot: Option<SpawnedTile>) -> Option<ObjectHandle> {
    match slot_turf(slot) {
        Some((_, handle)) => Some(handle),
        None => None,
    }
}

/// Whether a shadow slot holds a live realized object.
pub open spec fn slot_occupied(slot: Option<SpawnedTile>) -> bool {
    slot_turf(slot) is Some
}

/// Whether the definition table resolves an id to an available mesh.
pub open spec fn definition_resolves(defs: Seq<TurfDefinition>, definition_id: u32) -> bool {
    definition_id < defs.len() && defs[definition_id as int].mesh is Some
}

/// World position of a tile slot: chunk origin plus the slot's row-major
/// local offset.
pub open spec fn slot_world_position(origin_x: int, origin_z: int, index: int) -> WorldPosition {
    WorldPosition {
        x: (origin_x + index % (CHUNK_SIZE as int)) as u64,
        z: (origin_z + index / (CHUNK_SIZE as int)) as u64,
    }
}

/// X origin of a chunk in tiles: grid column times the chunk side length.
pub open spec fn chunk_origin_x(size: (u32, u32), index: int) -> int {
    (index % size.0 as int) * CHUNK_SIZE as int
}

/// Z origin of a chunk in tiles: grid row times the chunk side length.
pub open spec fn chunk_origin_z(size: (u32, u32), index: int) -> int {
    (index / size.0 as int) * CHUNK_SIZE as int
}

/// One slot's reconciliation step: what the slot becomes, which backend
/// request (if any) it takes to get there, and which failure (if any) was
/// recorded instead.
///
/// The decision table, with `occupant` the logical side and `current` the
/// shadow side:
/// - no occupant, nothing realized: leave the slot alone, no request;
/// - no occupant, object realized: destroy it, clear the slot;
/// - occupant equal to the realized snapshot: nothing to do;
/// - occupant new or changed: resolve its definition and mesh; on failure
///   record the issue and leave the slot exactly as it was; otherwise create
///   a new object (empty slot) or update the existing one in place,
///   preserving its handle.
pub open spec fn slot_step(
    slot: Option<SpawnedTile>,
    tile: Option<TileData>,
    defs: Seq<TurfDefinition>,
    position: WorldPosition,
    parent: ObjectHandle,
    slot_index: usize,
    next: int,
) -> SlotOutcome {
    match (tile_occupant(tile), slot_turf(slot)) {
        (None, None) => SlotOutcome { slot, calls: Seq::empty(), issues: Seq::empty(), next },
        (None, Some((_, handle))) => SlotOutcome {
            slot: None,
            calls: seq![BackendCall::Destroy { handle }],
            issues: Seq::empty(),
            next,
        },
        (Some(turf), current) => {
            let unchanged = match current {
                Some((current_turf, _)) => turf == current_turf,
                None => false,
            };
            if unchanged {
                SlotOutcome { slot, calls: Seq::empty(), issues: Seq::empty(), next }
            } else if turf.definition_id >= defs.len() {
                SlotOutcome {
                    slot,
                    calls: Seq::empty(),
                    issues: seq![
                        TileIssue::MissingDefinition {
                            slot: slot_index,
                            definition_id: turf.definition_id,
                        },
                    ],
                    next,
                }
            } else {
                match defs[turf.definition_id as int].mesh {
                    None => SlotOutcome {
                        slot,
                        calls: Seq::empty(),
                        issues: seq![
                            TileIssue::MissingAsset {
                                slot: slot_index,
                                definition_id: turf.definition_id,
                            },
                        ],
                        next,
                    },
                    Some(mesh) => match current {
                        None => {
                            let handle = ObjectHandle(next as u64);
                            SlotOutcome {
                                slot: Some(SpawnedTile { spawned_turf: Some((turf, handle)) }),
                                calls: seq![
                                    BackendCall::Create { handle, mesh, position, parent },
                                ],
                                issues: Seq::empty(),
                                next: next + 1,
                            }
                        },
                        Some((_, handle)) => SlotOutcome {
                            slot: Some(SpawnedTile { spawned_turf: Some((turf, handle)) }),
                            calls: seq![BackendCall::Update { handle, mesh, position }],
                            issues: Seq::empty(),
                            next,
                        },
                    },
                }
            }
        },
    }
}

/// Whether slot `index` is processed by a pass: every slot on a full
/// materialization, only marked slots on an incremental one.
pub open spec fn slot_selected(full: bool, changed: Seq<bool>, index: int) -> bool {
    full || (0 <= index < changed.len() && changed[index])
}

/// Reconciliation of the first `n` slots, in ascending index order: the
/// shadow state, backend requests, recorded failures and handle counter
/// after processing every selected slot below `n`.
pub open spec fn reconcile_prefix(
    slots: Seq<Option<SpawnedTile>>,
    tiles: Seq<Option<TileData>>,
    changed: Seq<bool>,
    full: bool,
    defs: Seq<TurfDefinition>,
    origin_x: int,
    origin_z: int,
    parent: ObjectHandle,
    next: int,
    n: int,
) -> ChunkOutcome
    decreases n,
{
    if n <= 0 {
        ChunkOutcome { slots, calls: Seq::empty(), issues: Seq::empty(), next }
    } else {
        let prev = reconcile_prefix(
            slots, tiles, changed, full, defs, origin_x, origin_z, parent, next, n - 1,
        );
        let i = n - 1;
        if slot_selected(full, changed, i) {
            let step = slot_step(
                prev.slots[i],
                tiles[i],
                defs,
                slot_world_position(origin_x, origin_z, i),
                parent,
                i as usize,
                prev.next,
            );
            ChunkOutcome {
                slots: prev.slots.update(i, step.slot),
                calls: prev.calls + step.calls,
                issues: prev.issues + step.issues,
                next: step.next,
            }
        } else {
            prev
        }
    }
}

/// Reconciliation of a whole chunk: all `CHUNK_LENGTH` slots.
pub open spec fn reconcile_outcome(
    slots: Seq<Option<SpawnedTile>>,
    tiles: Seq<Option<TileData>>,
    changed: Seq<bool>,
    full: bool,
    defs: Seq<TurfDefinition>,
    origin_x: int,
    origin_z: int,
    parent: ObjectHandle,
    next: int,
) -> ChunkOutcome {
    reconcile_prefix(
        slots, tiles, changed, full, defs, origin_x, origin_z, parent, next, CHUNK_LENGTH as int,
    )
}

/// The destroy requests teardown issues for the first `n` slots: one per
/// occupied slot, in ascending index order.
pub open spec fn teardown_prefix(slots: Seq<Option<SpawnedTile>>, n: int) -> Seq<BackendCall>
    decreases n,
{
    if n <= 0 {
        Seq::empty()
    } else {
        teardown_prefix(slots, n - 1) + match slot_turf(slots[n - 1]) {
            Some((_, handle)) => seq![BackendCall::Destroy { handle }],
            None => Seq::empty(),
        }
    }
}

/// The destroy requests teardown issues for a whole shadow chunk.
pub open spec fn teardown_calls(slots: Seq<Option<SpawnedTile>>) -> Seq<BackendCall> {
    teardown_prefix(slots, slots.len() as int)
}

/// Number of occupied shadow slots among the first `n`.
pub open spec fn count_occupied_prefix(slots: Seq<Option<SpawnedTile>>, n: int) -> nat
    decreases n,
{
    if n <= 0 {
        0
    } else {
        count_occupied_prefix(slots, n - 1) + if slot_occupied(slots[n - 1]) {
            1nat
        } else {
            0nat
        }
    }
}

/// Number of occupied shadow slots.
pub open spec fn count_occupied(slots: Seq<Option<SpawnedTile>>) -> nat {
    count_occupied_prefix(slots, slots.len() as int)
}

/// Number of occupied logical tiles among the first `n`.
pub open spec fn count_occupants_prefix(tiles: Seq<Option<TileData>>, n: int) -> nat
    decreases n,
{
    if n <= 0 {
        0
    } else {
        count_occupants_prefix(tiles, n - 1) + if tile_occupant(tiles[n - 1]) is Some {
            1nat
        } else {
            0nat
        }
    }
}

/// Number of occupied logical tiles.
pub open spec fn count_occupants(tiles: Seq<Option<TileData>>) -> nat {
    count_occupants_prefix(tiles, tiles.len() as int)
}

/// Every handle held by a shadow slot lies below `bound`: it was issued
/// before the backend's counter reached `bound`.
pub open spec fn handles_below(slots: Seq<Option<SpawnedTile>>, bound: int) -> bool {
    forall|i: int|
        0 <= i < slots.len() ==> ((#[trigger] slot_handle(slots[i])) matches Some(handle)
            ==> handle.0 < bound)
}

/// No handle appears in more than one shadow slot.
pub open spec fn handles_distinct(slots: Seq<Option<SpawnedTile>>) -> bool {
    forall|i: int, j: int|
        0 <= i < slots.len() && 0 <= j < slots.len() && i != j && slot_occupied(slots[i])
            ==> #[trigger] slot_handle(slots[i]) != #[trigger] slot_handle(slots[j])
}

/// The handle a backend request addresses.
pub open spec fn call_handle(call: BackendCall) -> ObjectHandle {
    match call {
        BackendCall::Create { handle, .. } => handle,
        BackendCall::Update { handle, .. } => handle,
        BackendCall::Destroy { handle } => handle,
    }
}

/// No request in `calls` addresses a handle that an earlier request in
/// `calls` destroyed.
pub open spec fn no_use_after_destroy(calls: Seq<BackendCall>) -> bool {
    forall|k1: int, k2: int|
        0 <= k1 < k2 < calls.len() && (#[trigger] calls[k1]) is Destroy ==> call_handle(calls[k1])
            != call_handle(#[trigger] calls[k2])
}

/// Whether some shadow slot currently holds `handle`.
pub open spec fn handle_live(slots: Seq<Option<SpawnedTile>>, handle: ObjectHandle) -> bool {
    exists|i: int| 0 <= i < slots.len() && slot_handle(#[trigger] slots[i]) == Some(handle)
}

/// What one processed slot must look like afterwards. A slot has converged
/// when it mirrors its logical tile: empty where no occupant stands,
/// holding exactly the occupant's snapshot where one does. Where the
/// occupant is new or changed but does not resolve, the slot is instead
/// left exactly as it was — stale but consistent — awaiting a retry.
pub open spec fn slot_converged(
    before: Option<SpawnedTile>,
    tile: Option<TileData>,
    defs: Seq<TurfDefinition>,
    after: Option<SpawnedTile>,
) -> bool {
    match tile_occupant(tile) {
        None => slot_turf(after) is None,
        Some(turf) => {
            let already_current = match slot_turf(before) {
                Some((current, _)) => current == turf,
                None => false,
            };
            if already_current || definition_resolves(defs, turf.definition_id) {
                match slot_turf(after) {
                    Some((current, _)) => current == turf,
                    None => false,
                }
            } else {
                after == before
            }
        },
    }
}

/// An all-empty shadow chunk's slots.
pub open spec fn empty_slots() -> Seq<Option<SpawnedTile>> {
    Seq::new(CHUNK_LENGTH as nat, |i: int| None)
}

/// The shadow slots a pass starts from: the prior chunk's, or all-empty on
/// a first materialization.
pub open spec fn prior_slots(spawned_chunk: Option<SpawnedChunk>) -> Seq<Option<SpawnedTile>> {
    match spawned_chunk {
        Some(chunk) => chunk.spawned_tiles@,
        None => empty_slots(),
    }
}

impl Default for SpawnedChunk {
    /// An all-empty shadow chunk: `CHUNK_LENGTH` slots, none occupied.
    fn default() -> (result: SpawnedChunk)
        ensures
            result.spawned_tiles@ == empty_slots(),
    {
        let mut spawned_tiles: Vec<Option<SpawnedTile>> = Vec::new();
        while spawned_tiles.len() < CHUNK_LENGTH
            invariant
                spawned_tiles@.len() <= CHUNK_LENGTH,
                forall|i: int| 0 <= i < spawned_tiles@.len() ==> spawned_tiles@[i] is None,
            decreases CHUNK_LENGTH - spawned_tiles.len(),
        {
            spawned_tiles.push(None);
        }
        proof {
            assert(spawned_tiles@ =~= empty_slots());
        }
        SpawnedChunk { spawned_tiles }
    }
}

/// Whether the world has a logical chunk loaded at `chunk_index`.
pub open spec fn chunk_available(map_data: MapData, chunk_index: usize) -> bool {
    chunk_index < map_data.chunks@.len() && map_data.chunks@[chunk_index as int] is Some
}

/// The logical chunk loaded at `chunk_index` (meaningful only when
/// [`chunk_available`] holds).
pub open spec fn available_chunk(map_data: MapData, chunk_index: usize) -> MapChunk {
    map_data.chunks@[chunk_index as int]->Some_0
}

/// Shadow and logical chunk agree on the fixed slot count.
pub open spec fn shapes_match(prior: Seq<Option<SpawnedTile>>, chunk: MapChunk) -> bool {
    prior.len() == CHUNK_LENGTH && chunk.wf()
}

/// The handle counter moves forward by at most one per slot processed.
pub proof fn lemma_prefix_next_bound(
    slots: Seq<Option<SpawnedTile>>,
    tiles: Seq<Option<TileData>>,
    changed: Seq<bool>,
    full: bool,
    defs: Seq<TurfDefinition>,
    origin_x: int,
    origin_z: int,
    parent: ObjectHandle,
    next: int,
    n: int,
)
    requires
        n >= 0,
    ensures
        ({
            let outcome = reconcile_prefix(
                slots, tiles, changed, full, defs, origin_x, origin_z, parent, next, n,
            );
            next <= outcome.next <= next + n
        }),
    decreases n,
{
    if n > 0 {
        lemma_prefix_next_bound(
            slots, tiles, changed, full, defs, origin_x, origin_z, parent, next, n - 1,
        );
    }
}

/// Reconciliation preserves the shadow handle invariants: the slot count is
/// kept, every handle stays below the handle counter, and no handle is held
/// by two slots. Newly created objects take fresh handles straight from the
/// counter, so they can collide neither with each other nor with handles
/// issued earlier.
pub proof fn lemma_reconcile_handles(
    slots: Seq<Option<SpawnedTile>>,
    tiles: Seq<Option<TileData>>,
    changed: Seq<bool>,
    full: bool,
    defs: Seq<TurfDefinition>,
    origin_x: int,
    origin_z: int,
    parent: ObjectHandle,
    next: int,
    n: int,
)
    requires
        0 <= n <= slots.len(),
        0 <= next,
        next + n <= u64::MAX,
        handles_below(slots, next),
        handles_distinct(slots),
    ensures
        ({
            let outcome = reconcile_prefix(
                slots, tiles, changed, full, defs, origin_x, origin_z, parent, next, n,
            );
            &&& outcome.slots.len() == slots.len()
            &&& handles_below(outcome.slots, outcome.next)
            &&& handles_distinct(outcome.slots)
        }),
    decreases n,
{
    if n > 0 {
        let i = n - 1;
        lemma_reconcile_handles(
            slots, tiles, changed, full, defs, origin_x, origin_z, parent, next, i,
        );
        lemma_prefix_next_bound(
            slots, tiles, changed, full, defs, origin_x, origin_z, parent, next, i,
        );
        let prev = reconcile_prefix(
            slots, tiles, changed, full, defs, origin_x, origin_z, parent, next, i,
        );
        let outcome = reconcile_prefix(
            slots, tiles, changed, full, defs, origin_x, origin_z, parent, next, n,
        );
        if slot_selected(full, changed, i) {
            let step = slot_step(
                prev.slots[i],
                tiles[i],
                defs,
                slot_world_position(origin_x, origin_z, i),
                parent,
                i as usize,
                prev.next,
            );
            assert(outcome.slots =~= prev.slots.update(i, step.slot));
            assert forall|a: int|
                0 <= a < outcome.slots.len() implies ((#[trigger] slot_handle(
                outcome.slots[a],
            )) matches Some(handle) ==> handle.0 < outcome.next) by {
                if a != i {
                    assert(outcome.slots[a] == prev.slots[a]);
                    assert(slot_handle(prev.slots[a]) matches Some(handle)
                        ==> handle.0 < prev.next);
                }
            }
            assert forall|a: int, b: int|
                0 <= a < outcome.slots.len() && 0 <= b < outcome.slots.len() && a != b
                    && slot_occupied(outcome.slots[a]) implies #[trigger] slot_handle(
                outcome.slots[a],
            ) != #[trigger] slot_handle(outcome.slots[b]) by {
                if a != i && b != i {
                    assert(outcome.slots[a] == prev.slots[a]);
                    assert(outcome.slots[b] == prev.slots[b]);
                } else if a == i {
                    assert(outcome.slots[b] == prev.slots[b]);
                    assert(slot_handle(prev.slots[b]) matches Some(handle)
                        ==> handle.0 < prev.next);
                } else {
                    assert(outcome.slots[a] == prev.slots[a]);
                    assert(slot_handle(prev.slots[a]) matches Some(handle)
                        ==> handle.0 < prev.next);
                }
            }
        }
    }
}

/// Reconcile one selected slot: run the decision table on the slot's
/// logical occupant and shadow state, record the backend request or the
/// tile-level failure it decides on, and write the slot's new shadow state.
#[allow(clippy::too_many_arguments)]
fn apply_slot(
    backend: &mut Backend,
    slots: &mut Vec<Option<SpawnedTile>>,
    issues: &mut Vec<TileIssue>,
    index: usize,
    tile: Option<TileData>,
    map_data: &MapData,
    position: WorldPosition,
    parent: ObjectHandle,
)
    requires
        index < old(slots)@.len(),
        old(backend).next_handle < u64::MAX,
    ensures
        ({
            let step = slot_step(
                old(slots)@[index as int],
                tile,
                map_data.turf_definitions@,
                position,
                parent,
                index,
                old(backend).next_handle as int,
            );
            &&& final(slots)@ == old(slots)@.update(index as int, step.slot)
            &&& final(backend).calls@ == old(backend).calls@ + step.calls
            &&& final(backend).next_handle as int == step.next
            &&& final(issues)@ == old(issues)@ + step.issues
        }),
{
    let tile_turf: Option<TurfData> = match tile {
        Some(t) => t.turf,
        None => None,
    };
    let current: Option<(TurfData, ObjectHandle)> = match slots[index] {
        Some(spawned) => spawned.spawned_turf,
        None => None,
    };
    let ghost step = slot_step(
        old(slots)@[index as int],
        tile,
        map_data.turf_definitions@,
        position,
        parent,
        index,
        old(backend).next_handle as int,
    );
    match (tile_turf, current) {
        (None, None) => {
            proof {
                assert(final(slots)@ =~= old(slots)@.update(index as int, step.slot));
                assert(final(backend).calls@ =~= old(backend).calls@ + step.calls);
                assert(final(issues)@ =~= old(issues)@ + step.issues);
            }
        },
        (None, Some((_, handle))) => {
            backend.destroy_object_recursive(handle);
            slots[index] = None;
            proof {
                assert(final(backend).calls@ =~= old(backend).calls@ + step.calls);
                assert(final(issues)@ =~= old(issues)@ + step.issues);
            }
        },
        (Some(turf), _) => {
            let unchanged = match current {
                Some((current_turf, _)) => turf == current_turf,
                None => false,
            };
            if unchanged {
                proof {
                    assert(final(slots)@ =~= old(slots)@.update(index as int, step.slot));
                    assert(final(backend).calls@ =~= old(backend).calls@ + step.calls);
                    assert(final(issues)@ =~= old(issues)@ + step.issues);
                }
            } else {
                match map_data.turf_definition(turf.definition_id) {
                    None => {
                        issues.push(
                            TileIssue::MissingDefinition {
                                slot: index,
                                definition_id: turf.definition_id,
                            },
                        );
                        proof {
                            assert(final(slots)@ =~= old(slots)@.update(index as int, step.slot));
                            assert(final(backend).calls@ =~= old(backend).calls@ + step.calls);
                            assert(final(issues)@ =~= old(issues)@ + step.issues);
                        }
                    },
                    Some(definition) => match definition.mesh {
                        None => {
                            issues.push(
                                TileIssue::MissingAsset {
                                    slot: index,
                                    definition_id: turf.definition_id,
                                },
                            );
                            proof {
                                assert(final(slots)@ =~= old(slots)@.update(
                                    index as int,
                                    step.slot,
                                ));
                                assert(final(backend).calls@ =~= old(backend).calls@ + step.calls);
                                assert(final(issues)@ =~= old(issues)@ + step.issues);
                            }
                        },
                        Some(mesh) => match current {
                            None => {
                                let handle = backend.create_object(mesh, position, parent);
                                slots[index] = Some(
                                    SpawnedTile { spawned_turf: Some((turf, handle)) },
                                );
                                proof {
                                    assert(final(backend).calls@ =~= old(backend).calls@
                                        + step.calls);
                                    assert(final(issues)@ =~= old(issues)@ + step.issues);
                                }
                            },
                            Some((_, handle)) => {
                                backend.update_object(handle, mesh, position);
                                slots[index] = Some(
                                    SpawnedTile { spawned_turf: Some((turf, handle)) },
                                );
                                proof {
                                    assert(final(backend).calls@ =~= old(backend).calls@
                                        + step.calls);
                                    assert(final(issues)@ =~= old(issues)@ + step.issues);
                                }
                            },
                        },
                    },
                }
            }
        },
    }
}

/// Reconcile one chunk's shadow state with its logical chunk.
///
/// With no prior shadow chunk the call is a full materialization and
/// processes every slot; with one it processes only slots whose change
/// marker is set. Either way each selected slot goes through the decision
/// table of [`slot_step`], in ascending index order, and the backend
/// requests are appended to `backend`.
///
/// Returns the updated shadow chunk together with the tile-level failures
/// that were recorded (and their slots left untouched), or an error — with
/// the backend queue untouched — when the chunk index or a chunk shape is
/// wrong.
///
/// Change markers are read, never written: resetting a marker after it has
/// been consumed is owned by the external updater that set it, so one pass
/// per marking is the caller's responsibility.
#[verifier::loop_isolation(false)]
pub fn apply_chunk(
    backend: &mut Backend,
    spawned_chunk: Option<SpawnedChunk>,
    chunk_index: usize,
    map_data: &MapData,
    tilemap: ObjectHandle,
) -> (result: Result<(SpawnedChunk, Vec<TileIssue>), MapError>)
    requires
        map_data.wf(),
        old(backend).next_handle as int + CHUNK_LENGTH as int <= u64::MAX as int,
        spawned_chunk matches Some(prior) ==> handles_below(
            prior.spawned_tiles@,
            old(backend).next_handle as int,
        ) && handles_distinct(prior.spawned_tiles@),
    ensures
        result == Err::<(SpawnedChunk, Vec<TileIssue>), MapError>(MapError::IndexOutOfRange)
            <==> !chunk_available(*map_data, chunk_index),
        chunk_available(*map_data, chunk_index) ==> (result == Err::<(
            SpawnedChunk,
            Vec<TileIssue>,
        ), MapError>(MapError::ShapeMismatch) <==> !shapes_match(
            prior_slots(spawned_chunk),
            available_chunk(*map_data, chunk_index),
        )),
        result is Ok <==> chunk_available(*map_data, chunk_index) && shapes_match(
            prior_slots(spawned_chunk),
            available_chunk(*map_data, chunk_index),
        ),
        result is Err ==> final(backend).calls@ == old(backend).calls@
            && final(backend).next_handle == old(backend).next_handle,
        result matches Ok(updated) ==> ({
            let chunk = available_chunk(*map_data, chunk_index);
            let outcome = reconcile_outcome(
                prior_slots(spawned_chunk),
                chunk.tiles@,
                chunk.changed_tiles@,
                spawned_chunk is None,
                map_data.turf_definitions@,
                chunk_origin_x(map_data.size, chunk_index as int),
                chunk_origin_z(map_data.size, chunk_index as int),
                tilemap,
                old(backend).next_handle as int,
            );
            &&& updated.0.spawned_tiles@ == outcome.slots
            &&& updated.1@ == outcome.issues
            &&& final(backend).calls@ == old(backend).calls@ + outcome.calls
            &&& final(backend).next_handle as int == outcome.next
            &&& updated.0.spawned_tiles@.len() == CHUNK_LENGTH
            &&& handles_distinct(updated.0.spawned_tiles@)
            &&& handles_below(updated.0.spawned_tiles@, final(backend).next_handle as int)
        }),
{
    let full = spawned_chunk.is_none();
    let ghost prior_view = prior_slots(spawned_chunk);

    if chunk_index >= map_data.chunks.len() {
        return Err(MapError::IndexOutOfRange);
    }
    let data = match &map_data.chunks[chunk_index] {
        Some(chunk) => chunk,
        None => {
            return Err(MapError::IndexOutOfRange);
        },
    };
    let mut chunk = match spawned_chunk {
        Some(prior) => prior,
        None => SpawnedChunk::default(),
    };
    if chunk.spawned_tiles.len() != CHUNK_LENGTH || data.tiles.len() != CHUNK_LENGTH
        || data.changed_tiles.len() != CHUNK_LENGTH {
        return Err(MapError::ShapeMismatch);
    }
    proof {
        assert(chunk.spawned_tiles@ == prior_view);
    }

    let (grid_x, grid_z) = MapData::position_from_chunk_index(map_data.size, chunk_index);
    let origin_x: u64 = (grid_x as u64) * (CHUNK_SIZE as u64);
    let origin_z: u64 = (grid_z as u64) * (CHUNK_SIZE as u64);
    proof {
        assert(origin_x as int == chunk_origin_x(map_data.size, chunk_index as int));
        assert(origin_z as int == chunk_origin_z(map_data.size, chunk_index as int));
    }

    let mut issues: Vec<TileIssue> = Vec::new();
    let ghost tiles_view = data.tiles@;
    let ghost changed_view = data.changed_tiles@;
    let ghost defs_view = map_data.turf_definitions@;
    let ghost next0 = backend.next_handle as int;

    let mut index: usize = 0;
    while index < CHUNK_LENGTH
        invariant
            index <= CHUNK_LENGTH,
            chunk.spawned_tiles@.len() == CHUNK_LENGTH,
            ({
                let outcome = reconcile_prefix(
                    prior_view,
                    tiles_view,
                    changed_view,
                    full,
                    defs_view,
                    origin_x as int,
                    origin_z as int,
                    tilemap,
                    next0,
                    index as int,
                );
                &&& chunk.spawned_tiles@ == outcome.slots
                &&& backend.calls@ == old(backend).calls@ + outcome.calls
                &&& issues@ == outcome.issues
                &&& backend.next_handle as int == outcome.next
            }),
        decreases CHUNK_LENGTH - index,
    {
        let ghost prev = reconcile_prefix(
            prior_view,
            tiles_view,
            changed_view,
            full,
            defs_view,
            origin_x as int,
            origin_z as int,
            tilemap,
            next0,
            index as int,
        );
        let selected = full || data.changed_tiles[index];
        if selected {
            proof {
                lemma_prefix_next_bound(
                    prior_view,
                    tiles_view,
                    changed_view,
                    full,
                    defs_view,
                    origin_x as int,
                    origin_z as int,
                    tilemap,
                    next0,
                    index as int,
                );
            }
            let tile: Option<TileData> = data.tiles[index];
            let (local_x, local_z) = TileData::position_in_chunk(index);
            let position = WorldPosition {
                x: origin_x + local_x as u64,
                z: origin_z + local_z as u64,
            };
            proof {
                assert(position == slot_world_position(
                    origin_x as int,
                    origin_z as int,
                    index as int,
                ));
            }
            apply_slot(
                backend,
                &mut chunk.spawned_tiles,
                &mut issues,
                index,
                tile,
                map_data,
                position,
                tilemap,
            );
            proof {
                let step = slot_step(
                    prev.slots[index as int],
                    tile,
                    defs_view,
                    position,
                    tilemap,
                    index,
                    prev.next,
                );
                assert(backend.calls@ =~= old(backend).calls@ + (prev.calls + step.calls));
                assert(issues@ =~= prev.issues + step.issues);
            }
        }
        index = index + 1;
    }

    proof {
        if spawned_chunk is None {
            assert(handles_below(prior_view, next0));
            assert(handles_distinct(prior_view));
        }
        lemma_reconcile_handles(
            prior_view,
            tiles_view,
            changed_view,
            full,
            defs_view,
            origin_x as int,
            origin_z as int,
            tilemap,
            next0,
            CHUNK_LENGTH as int,
        );
    }
    Ok((chunk, issues))
}

/// Tear down a shadow chunk on unload: one recursive destroy request per
/// occupied slot, in ascending index order. The chunk is consumed; what
/// remains is logically an empty shadow store.
pub fn despawn_chunk(backend: &mut Backend, spawned_chunk: SpawnedChunk)
    ensures
        final(backend).calls@ == old(backend).calls@ + teardown_calls(
            spawned_chunk.spawned_tiles@,
        ),
        final(backend).next_handle == old(backend).next_handle,
{
    let slots = &spawned_chunk.spawned_tiles;
    let mut index: usize = 0;
    while index < slots.len()
        invariant
            index <= slots@.len(),
            slots == &spawned_chunk.spawned_tiles,
            backend.calls@ == old(backend).calls@ + teardown_prefix(slots@, index as int),
            backend.next_handle == old(backend).next_handle,
        decreases slots@.len() - index,
    {
        match &slots[index] {
            Some(tile) => match tile.spawned_turf {
                Some((_, handle)) => {
                    backend.destroy_object_recursive(handle);
                    proof {
                        assert(backend.calls@ =~= old(backend).calls@ + teardown_prefix(
                            slots@,
                            index as int + 1,
                        ));
                    }
                },
                None => {},
            },
            None => {},
        }
        index = index + 1;
    }
}

} // verus!
