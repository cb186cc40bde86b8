//! Whole-pass guarantees of the reconciler, proved once and for all over
//! the reconciliation model that [`crate::spawning::apply_chunk`] and
//! [`crate::spawning::despawn_chunk`] are verified against.

use crate::backend::{BackendCall, ObjectHandle, WorldPosition};
use crate::map_data::{TileData, TurfDefinition};
use crate::spawning::{
    call_handle, count_occupants, count_occupants_prefix, count_occupied, count_occupied_prefix,
    definition_resolves, handle_live, handles_below, handles_distinct, lemma_prefix_next_bound,
    lemma_reconcile_handles, no_use_after_destroy, reconcile_prefix, slot_converged, slot_handle,
    slot_occupied, slot_selected, slot_step, slot_turf, slot_world_position, teardown_calls,
    teardown_prefix, tile_occupant, SpawnedTile, TileIssue,
};
use vstd::prelude::*;

verus! {

/// A stretch of unselected slots contributes nothing: reconciling up to `n`
/// equals reconciling up to `m` when no slot in `[m, n)` is selected.
proof fn lemma_prefix_skips(
    slots: Seq<Option<SpawnedTile>>,
    tiles: Seq<Option<TileData>>,
    changed: Seq<bool>,
    full: bool,
    defs: Seq<TurfDefinition>,
    origin_x: int,
    origin_z: int,
    parent: ObjectHandle,
    next: int,
    m: int,
    n: int,
)
    requires
        0 <= m <= n,
        forall|i: int| m <= i < n ==> !slot_selected(full, changed, i),
    ensures
        ({
            let shorter = reconcile_prefix(
                slots, tiles, changed, full, defs, origin_x, origin_z, parent, next, m,
            );
            let longer = reconcile_prefix(
                slots, tiles, changed, full, defs, origin_x, origin_z, parent, next, n,
            );
            &&& longer.slots == shorter.slots
            &&& longer.calls == shorter.calls
            &&& longer.issues == shorter.issues
            &&& longer.next == shorter.next
        }),
    decreases n - m,
{
    if m < n {
        lemma_prefix_skips(
            slots, tiles, changed, full, defs, origin_x, origin_z, parent, next, m, n - 1,
        );
    }
}

/// Slots at or beyond the processed prefix are untouched, and the slot
/// count is preserved.
proof fn lemma_prefix_frame(
    slots: Seq<Option<SpawnedTile>>,
    tiles: Seq<Option<TileData>>,
    changed: Seq<bool>,
    full: bool,
    defs: Seq<TurfDefinition>,
    origin_x: int,
    origin_z: int,
    parent: ObjectHandle,
    next: int,
    n: int,
)
    requires
        0 <= n <= slots.len(),
    ensures
        ({
            let outcome = reconcile_prefix(
                slots, tiles, changed, full, defs, origin_x, origin_z, parent, next, n,
            );
            &&& outcome.slots.len() == slots.len()
            &&& forall|j: int| n <= j < slots.len() ==> outcome.slots[j] == slots[j]
        }),
    decreases n,
{
    if n > 0 {
        lemma_prefix_frame(
            slots, tiles, changed, full, defs, origin_x, origin_z, parent, next, n - 1,
        );
    }
}

/// Two slot sequences that agree below `n` hold the same number of occupied
/// slots below `n`.
proof fn lemma_count_occupied_agree(
    first: Seq<Option<SpawnedTile>>,
    second: Seq<Option<SpawnedTile>>,
    n: int,
)
    requires
        forall|i: int| 0 <= i < n ==> first[i] == second[i],
    ensures
        count_occupied_prefix(first, n) == count_occupied_prefix(second, n),
    decreases n,
{
    if n > 0 {
        lemma_count_occupied_agree(first, second, n - 1);
    }
}

/// Idempotence: a pass over a chunk whose change markers are all cleared
/// touches nothing. The shadow store comes back identical, no backend
/// request is issued, no failure is recorded, and no handle is consumed.
pub proof fn lemma_idempotence(
    slots: Seq<Option<SpawnedTile>>,
    tiles: Seq<Option<TileData>>,
    changed: Seq<bool>,
    defs: Seq<TurfDefinition>,
    origin_x: int,
    origin_z: int,
    parent: ObjectHandle,
    next: int,
    n: int,
)
    requires
        n >= 0,
        forall|i: int| 0 <= i < changed.len() ==> !changed[i],
    ensures
        ({
            let outcome = reconcile_prefix(
                slots, tiles, changed, false, defs, origin_x, origin_z, parent, next, n,
            );
            &&& outcome.slots == slots
            &&& outcome.calls == Seq::<BackendCall>::empty()
            &&& outcome.issues == Seq::<TileIssue>::empty()
            &&& outcome.next == next
        }),
{
    lemma_prefix_skips(slots, tiles, changed, false, defs, origin_x, origin_z, parent, next, 0, n);
}

/// Full-rebuild correctness over a prefix: materializing from an all-empty
/// shadow store, with every occupant's definition and mesh resolving,
/// issues exactly one creation request per occupied logical tile and
/// occupies exactly those shadow slots.
proof fn lemma_full_rebuild_prefix(
    slots: Seq<Option<SpawnedTile>>,
    tiles: Seq<Option<TileData>>,
    changed: Seq<bool>,
    defs: Seq<TurfDefinition>,
    origin_x: int,
    origin_z: int,
    parent: ObjectHandle,
    next: int,
    n: int,
)
    requires
        0 <= n <= slots.len(),
        slots.len() == tiles.len(),
        forall|i: int| 0 <= i < slots.len() ==> slots[i] is None,
        forall|i: int|
            0 <= i < tiles.len() ==> ((#[trigger] tile_occupant(tiles[i])) matches Some(turf)
                ==> definition_resolves(defs, turf.definition_id)),
    ensures
        ({
            let outcome = reconcile_prefix(
                slots, tiles, changed, true, defs, origin_x, origin_z, parent, next, n,
            );
            &&& outcome.calls.len() == count_occupants_prefix(tiles, n)
            &&& forall|k: int| 0 <= k < outcome.calls.len() ==> (#[trigger] outcome.calls[k]) is Create
            &&& count_occupied_prefix(outcome.slots, n) == count_occupants_prefix(tiles, n)
            &&& outcome.issues.len() == 0
        }),
    decreases n,
{
    if n > 0 {
        let i = n - 1;
        lemma_full_rebuild_prefix(
            slots, tiles, changed, defs, origin_x, origin_z, parent, next, i,
        );
        lemma_prefix_frame(slots, tiles, changed, true, defs, origin_x, origin_z, parent, next, i);
        let prev = reconcile_prefix(
            slots, tiles, changed, true, defs, origin_x, origin_z, parent, next, i,
        );
        let outcome = reconcile_prefix(
            slots, tiles, changed, true, defs, origin_x, origin_z, parent, next, n,
        );
        let step = slot_step(
            prev.slots[i],
            tiles[i],
            defs,
            slot_world_position(origin_x, origin_z, i),
            parent,
            i as usize,
            prev.next,
        );
        assert(slots[i] is None);
        assert(prev.slots[i] == slots[i]);
        assert(tile_occupant(tiles[i]) matches Some(turf) ==> definition_resolves(
            defs,
            turf.definition_id,
        ));
        lemma_count_occupied_agree(outcome.slots, prev.slots, i);
        assert forall|k: int|
            0 <= k < outcome.calls.len() implies (#[trigger] outcome.calls[k]) is Create by {
            if k < prev.calls.len() {
                assert(outcome.calls[k] == prev.calls[k]);
            } else {
                assert(outcome.calls[k] == step.calls[k - prev.calls.len()]);
            }
        }
    }
}

/// Full-rebuild correctness: a first materialization (no prior shadow
/// state) of a logical chunk whose occupants all resolve issues exactly one
/// creation request per occupied tile — and no other request or failure —
/// and yields a shadow store with exactly that many occupied slots.
pub proof fn lemma_full_rebuild_correctness(
    slots: Seq<Option<SpawnedTile>>,
    tiles: Seq<Option<TileData>>,
    changed: Seq<bool>,
    defs: Seq<TurfDefinition>,
    origin_x: int,
    origin_z: int,
    parent: ObjectHandle,
    next: int,
)
    requires
        slots.len() == tiles.len(),
        forall|i: int| 0 <= i < slots.len() ==> slots[i] is None,
        forall|i: int|
            0 <= i < tiles.len() ==> ((#[trigger] tile_occupant(tiles[i])) matches Some(turf)
                ==> definition_resolves(defs, turf.definition_id)),
    ensures
        ({
            let outcome = reconcile_prefix(
                slots,
                tiles,
                changed,
                true,
                defs,
                origin_x,
                origin_z,
                parent,
                next,
                tiles.len() as int,
            );
            &&& outcome.calls.len() == count_occupants(tiles)
            &&& forall|k: int| 0 <= k < outcome.calls.len() ==> (#[trigger] outcome.calls[k]) is Create
            &&& count_occupied(outcome.slots) == count_occupants(tiles)
            &&& outcome.issues.len() == 0
        }),
{
    lemma_full_rebuild_prefix(
        slots,
        tiles,
        changed,
        defs,
        origin_x,
        origin_z,
        parent,
        next,
        tiles.len() as int,
    );
    lemma_prefix_frame(
        slots,
        tiles,
        changed,
        true,
        defs,
        origin_x,
        origin_z,
        parent,
        next,
        tiles.len() as int,
    );
}

/// Incremental minimality: when exactly one change marker is set, the whole
/// pass reduces to that slot's step — at most one backend request, every
/// other slot untouched, and the handle counter moved only by that step.
pub proof fn lemma_incremental_minimality(
    slots: Seq<Option<SpawnedTile>>,
    tiles: Seq<Option<TileData>>,
    changed: Seq<bool>,
    defs: Seq<TurfDefinition>,
    origin_x: int,
    origin_z: int,
    parent: ObjectHandle,
    next: int,
    target: int,
)
    requires
        slots.len() == changed.len(),
        0 <= target < changed.len(),
        changed[target],
        forall|j: int| 0 <= j < changed.len() && j != target ==> !changed[j],
    ensures
        ({
            let outcome = reconcile_prefix(
                slots,
                tiles,
                changed,
                false,
                defs,
                origin_x,
                origin_z,
                parent,
                next,
                slots.len() as int,
            );
            let step = slot_step(
                slots[target],
                tiles[target],
                defs,
                slot_world_position(origin_x, origin_z, target),
                parent,
                target as usize,
                next,
            );
            &&& outcome.slots == slots.update(target, step.slot)
            &&& outcome.calls == step.calls
            &&& outcome.issues == step.issues
            &&& outcome.next == step.next
            &&& step.calls.len() <= 1
        }),
{
    let step = slot_step(
        slots[target],
        tiles[target],
        defs,
        slot_world_position(origin_x, origin_z, target),
        parent,
        target as usize,
        next,
    );
    lemma_prefix_skips(
        slots, tiles, changed, false, defs, origin_x, origin_z, parent, next, 0, target,
    );
    lemma_prefix_skips(
        slots,
        tiles,
        changed,
        false,
        defs,
        origin_x,
        origin_z,
        parent,
        next,
        target + 1,
        slots.len() as int,
    );
    assert(Seq::<BackendCall>::empty() + step.calls =~= step.calls);
    assert(Seq::<TileIssue>::empty() + step.issues =~= step.issues);
}

/// A vacant slot is a true no-op: with no logical occupant and nothing
/// realized, a step changes nothing, issues no request, records no failure
/// and consumes no handle.
pub proof fn lemma_vacant_slot_is_noop(
    slot: Option<SpawnedTile>,
    tile: Option<TileData>,
    defs: Seq<TurfDefinition>,
    position: WorldPosition,
    parent: ObjectHandle,
    slot_index: usize,
    next: int,
)
    requires
        slot_turf(slot) is None,
        tile_occupant(tile) is None,
    ensures
        ({
            let step = slot_step(slot, tile, defs, position, parent, slot_index, next);
            &&& step.slot == slot
            &&& step.calls.len() == 0
            &&& step.issues.len() == 0
            &&& step.next == next
        }),
{
}

/// Creation correctness: an empty slot whose new occupant resolves takes
/// exactly one creation request, under the chunk's container and at the
/// slot's world position, and the slot records the occupant snapshot
/// together with the freshly issued handle.
pub proof fn lemma_creation_correctness(
    slot: Option<SpawnedTile>,
    tile: Option<TileData>,
    defs: Seq<TurfDefinition>,
    position: WorldPosition,
    parent: ObjectHandle,
    slot_index: usize,
    next: int,
)
    requires
        slot_turf(slot) is None,
        tile_occupant(tile) is Some,
        definition_resolves(defs, tile_occupant(tile)->Some_0.definition_id),
    ensures
        ({
            let turf = tile_occupant(tile)->Some_0;
            let mesh = defs[turf.definition_id as int].mesh->Some_0;
            let handle = ObjectHandle(next as u64);
            let step = slot_step(slot, tile, defs, position, parent, slot_index, next);
            &&& step.slot == Some(SpawnedTile { spawned_turf: Some((turf, handle)) })
            &&& step.calls == seq![BackendCall::Create { handle, mesh, position, parent }]
            &&& step.issues.len() == 0
            &&& step.next == next + 1
        }),
{
}

/// In-place update correctness: a slot whose occupant changed — and whose
/// new occupant resolves — takes exactly one update request on the handle
/// it already holds; the handle's identity is preserved, never destroyed
/// and recreated, so cross-references to the realized object stay valid.
pub proof fn lemma_update_preserves_handle(
    slot: Option<SpawnedTile>,
    tile: Option<TileData>,
    defs: Seq<TurfDefinition>,
    position: WorldPosition,
    parent: ObjectHandle,
    slot_index: usize,
    next: int,
)
    requires
        slot_turf(slot) is Some,
        tile_occupant(tile) is Some,
        tile_occupant(tile)->Some_0 != slot_turf(slot)->Some_0.0,
        definition_resolves(defs, tile_occupant(tile)->Some_0.definition_id),
    ensures
        ({
            let turf = tile_occupant(tile)->Some_0;
            let mesh = defs[turf.definition_id as int].mesh->Some_0;
            let handle = slot_turf(slot)->Some_0.1;
            let step = slot_step(slot, tile, defs, position, parent, slot_index, next);
            &&& step.slot == Some(SpawnedTile { spawned_turf: Some((turf, handle)) })
            &&& step.calls == seq![BackendCall::Update { handle, mesh, position }]
            &&& step.issues.len() == 0
            &&& step.next == next
        }),
{
}

/// Failure isolation: when an occupant that would need realizing does not
/// resolve — unknown definition id, or mesh not yet available — the step
/// records exactly one failure naming the slot and the id, issues no
/// backend request, consumes no handle, and leaves the slot exactly as it
/// was, so a later pass can retry.
pub proof fn lemma_failure_leaves_slot_unchanged(
    slot: Option<SpawnedTile>,
    tile: Option<TileData>,
    defs: Seq<TurfDefinition>,
    position: WorldPosition,
    parent: ObjectHandle,
    slot_index: usize,
    next: int,
)
    requires
        tile_occupant(tile) is Some,
        !definition_resolves(defs, tile_occupant(tile)->Some_0.definition_id),
        !(slot_turf(slot) matches Some(current) && current.0 == tile_occupant(tile)->Some_0),
    ensures
        ({
            let definition_id = tile_occupant(tile)->Some_0.definition_id;
            let step = slot_step(slot, tile, defs, position, parent, slot_index, next);
            &&& step.slot == slot
            &&& step.calls.len() == 0
            &&& step.next == next
            &&& definition_id >= defs.len() ==> step.issues == seq![
                TileIssue::MissingDefinition { slot: slot_index, definition_id },
            ]
            &&& definition_id < defs.len() ==> step.issues == seq![
                TileIssue::MissingAsset { slot: slot_index, definition_id },
            ]
        }),
{
}

/// Removal correctness: a slot whose occupant disappeared takes exactly one
/// request — the recursive destruction of the handle it held — and ends
/// empty, with no failure recorded and no handle consumed.
pub proof fn lemma_removal_correctness(
    slot: Option<SpawnedTile>,
    tile: Option<TileData>,
    defs: Seq<TurfDefinition>,
    position: WorldPosition,
    parent: ObjectHandle,
    slot_index: usize,
    next: int,
)
    requires
        slot_turf(slot) is Some,
        tile_occupant(tile) is None,
    ensures
        ({
            let step = slot_step(slot, tile, defs, position, parent, slot_index, next);
            &&& step.slot is None
            &&& step.calls == seq![
                BackendCall::Destroy { handle: slot_handle(slot)->Some_0 },
            ]
            &&& step.issues.len() == 0
            &&& step.next == next
        }),
{
}

/// Convergence: a pass brings every slot it selects into agreement with
/// its logical tile — empty where no occupant stands, holding exactly the
/// occupant's snapshot where one does, and left exactly as it was where
/// the occupant could not resolve — while every unselected slot is
/// untouched.
pub proof fn lemma_pass_converges(
    slots: Seq<Option<SpawnedTile>>,
    tiles: Seq<Option<TileData>>,
    changed: Seq<bool>,
    full: bool,
    defs: Seq<TurfDefinition>,
    origin_x: int,
    origin_z: int,
    parent: ObjectHandle,
    next: int,
    n: int,
)
    requires
        0 <= n <= slots.len(),
    ensures
        ({
            let outcome = reconcile_prefix(
                slots, tiles, changed, full, defs, origin_x, origin_z, parent, next, n,
            );
            &&& forall|i: int|
                0 <= i < n && !slot_selected(full, changed, i) ==> outcome.slots[i] == slots[i]
            &&& forall|i: int|
                0 <= i < n && slot_selected(full, changed, i) ==> slot_converged(
                    slots[i],
                    tiles[i],
                    defs,
                    #[trigger] outcome.slots[i],
                )
        }),
    decreases n,
{
    if n > 0 {
        let i = n - 1;
        lemma_pass_converges(
            slots, tiles, changed, full, defs, origin_x, origin_z, parent, next, i,
        );
        lemma_prefix_frame(slots, tiles, changed, full, defs, origin_x, origin_z, parent, next, i);
        let prev = reconcile_prefix(
            slots, tiles, changed, full, defs, origin_x, origin_z, parent, next, i,
        );
        let outcome = reconcile_prefix(
            slots, tiles, changed, full, defs, origin_x, origin_z, parent, next, n,
        );
        if slot_selected(full, changed, i) {
            assert(prev.slots[i] == slots[i]);
            assert(slot_converged(slots[i], tiles[i], defs, outcome.slots[i]));
        }
        assert forall|j: int|
            0 <= j < i && slot_selected(full, changed, j) implies slot_converged(
            slots[j],
            tiles[j],
            defs,
            #[trigger] outcome.slots[j],
        ) by {
            assert(outcome.slots[j] == prev.slots[j]);
        }
        assert forall|j: int|
            0 <= j < i && !slot_selected(full, changed, j) implies outcome.slots[j]
            == slots[j] by {
            assert(outcome.slots[j] == prev.slots[j]);
        }
    }
}

/// Destroyed means gone: within a pass, once a request destroys a handle
/// no later request addresses it. A destroyed handle leaves the shadow
/// store, and — lying below the handle counter — is never reissued to a
/// newly created object.
pub proof fn lemma_no_use_after_destroy(
    slots: Seq<Option<SpawnedTile>>,
    tiles: Seq<Option<TileData>>,
    changed: Seq<bool>,
    full: bool,
    defs: Seq<TurfDefinition>,
    origin_x: int,
    origin_z: int,
    parent: ObjectHandle,
    next: int,
    n: int,
)
    requires
        0 <= n <= slots.len(),
        0 <= next,
        next + n <= u64::MAX,
        handles_below(slots, next),
        handles_distinct(slots),
    ensures
        ({
            let outcome = reconcile_prefix(
                slots, tiles, changed, full, defs, origin_x, origin_z, parent, next, n,
            );
            &&& no_use_after_destroy(outcome.calls)
            &&& forall|k: int|
                0 <= k < outcome.calls.len() && (#[trigger] outcome.calls[k]) is Destroy
                    ==> !handle_live(outcome.slots, call_handle(outcome.calls[k]))
                        && call_handle(outcome.calls[k]).0 < outcome.next
        }),
    decreases n,
{
    if n > 0 {
        let i = n - 1;
        lemma_no_use_after_destroy(
            slots, tiles, changed, full, defs, origin_x, origin_z, parent, next, i,
        );
        lemma_reconcile_handles(
            slots, tiles, changed, full, defs, origin_x, origin_z, parent, next, i,
        );
        lemma_prefix_next_bound(
            slots, tiles, changed, full, defs, origin_x, origin_z, parent, next, i,
        );
        let prev = reconcile_prefix(
            slots, tiles, changed, full, defs, origin_x, origin_z, parent, next, i,
        );
        let outcome = reconcile_prefix(
            slots, tiles, changed, full, defs, origin_x, origin_z, parent, next, n,
        );
        if slot_selected(full, changed, i) {
            let step = slot_step(
                prev.slots[i],
                tiles[i],
                defs,
                slot_world_position(origin_x, origin_z, i),
                parent,
                i as usize,
                prev.next,
            );
            assert(step.calls.len() <= 1);
            assert forall|k1: int, k2: int|
                0 <= k1 < k2 < outcome.calls.len() && (#[trigger] outcome.calls[k1]) is Destroy
                implies call_handle(outcome.calls[k1]) != call_handle(
                #[trigger] outcome.calls[k2],
            ) by {
                if k2 < prev.calls.len() {
                    assert(outcome.calls[k1] == prev.calls[k1]);
                    assert(outcome.calls[k2] == prev.calls[k2]);
                } else {
                    assert(k1 < prev.calls.len());
                    assert(outcome.calls[k1] == prev.calls[k1]);
                    assert(outcome.calls[k2] == step.calls[k2 - prev.calls.len()]);
                    let destroyed = call_handle(prev.calls[k1]);
                    assert(!handle_live(prev.slots, destroyed));
                    assert(destroyed.0 < prev.next);
                    if !(step.calls[k2 - prev.calls.len()] is Create) {
                        assert(slot_handle(prev.slots[i]) == Some(
                            call_handle(outcome.calls[k2]),
                        ));
                    }
                }
            }
            assert forall|k: int|
                0 <= k < outcome.calls.len() && (#[trigger] outcome.calls[k]) is Destroy
                implies !handle_live(outcome.slots, call_handle(outcome.calls[k]))
                    && call_handle(outcome.calls[k]).0 < outcome.next by {
                let destroyed = call_handle(outcome.calls[k]);
                if k < prev.calls.len() {
                    assert(outcome.calls[k] == prev.calls[k]);
                    assert(!handle_live(prev.slots, destroyed));
                    assert(destroyed.0 < prev.next);
                    assert forall|w: int|
                        0 <= w < outcome.slots.len() implies slot_handle(
                        #[trigger] outcome.slots[w],
                    ) != Some(destroyed) by {
                        if w != i {
                            assert(outcome.slots[w] == prev.slots[w]);
                            assert(slot_handle(prev.slots[w]) != Some(destroyed));
                        } else {
                            assert(outcome.slots[i] == step.slot);
                            assert(slot_handle(prev.slots[i]) != Some(destroyed));
                        }
                    }
                } else {
                    assert(outcome.calls[k] == step.calls[k - prev.calls.len()]);
                    assert(slot_handle(prev.slots[i]) == Some(destroyed));
                    assert(destroyed.0 < prev.next);
                    assert(slot_occupied(prev.slots[i]));
                    assert forall|w: int|
                        0 <= w < outcome.slots.len() implies slot_handle(
                        #[trigger] outcome.slots[w],
                    ) != Some(destroyed) by {
                        if w == i {
                            assert(outcome.slots[i] == step.slot);
                        } else {
                            assert(outcome.slots[w] == prev.slots[w]);
                            assert(slot_handle(prev.slots[i]) != slot_handle(prev.slots[w]));
                        }
                    }
                }
                assert(!handle_live(outcome.slots, destroyed));
            }
        }
    }
}

/// Teardown over a prefix: one destroy request per occupied slot.
proof fn lemma_teardown_prefix_counts(slots: Seq<Option<SpawnedTile>>, n: int)
    requires
        n >= 0,
    ensures
        teardown_prefix(slots, n).len() == count_occupied_prefix(slots, n),
        forall|k: int|
            0 <= k < teardown_prefix(slots, n).len() ==> (#[trigger] teardown_prefix(slots, n)[k])
                is Destroy,
    decreases n,
{
    if n > 0 {
        lemma_teardown_prefix_counts(slots, n - 1);
        let shorter = teardown_prefix(slots, n - 1);
        let longer = teardown_prefix(slots, n);
        assert forall|k: int|
            0 <= k < longer.len() implies (#[trigger] longer[k]) is Destroy by {
            if k < shorter.len() {
                assert(longer[k] == shorter[k]);
            }
        }
    }
}

/// Teardown destroys through each handle at most once: every request's
/// handle stems from a distinct occupied slot.
proof fn lemma_teardown_prefix_no_reuse(slots: Seq<Option<SpawnedTile>>, n: int)
    requires
        0 <= n <= slots.len(),
        handles_distinct(slots),
    ensures
        no_use_after_destroy(teardown_prefix(slots, n)),
        forall|k: int|
            0 <= k < teardown_prefix(slots, n).len() ==> exists|w: int|
                0 <= w < n && slot_handle(slots[w]) == Some(
                    call_handle(#[trigger] teardown_prefix(slots, n)[k]),
                ),
    decreases n,
{
    if n > 0 {
        lemma_teardown_prefix_no_reuse(slots, n - 1);
        let shorter = teardown_prefix(slots, n - 1);
        let longer = teardown_prefix(slots, n);
        let i = n - 1;
        assert forall|k: int|
            0 <= k < longer.len() implies exists|w: int|
            0 <= w < n && slot_handle(slots[w]) == Some(
                call_handle(#[trigger] longer[k]),
            ) by {
            if k < shorter.len() {
                assert(longer[k] == shorter[k]);
                let w = choose|w: int|
                    0 <= w < n - 1 && slot_handle(slots[w]) == Some(call_handle(shorter[k]));
                assert(0 <= w < n && slot_handle(slots[w]) == Some(call_handle(longer[k])));
            } else {
                assert(slot_handle(slots[i]) == Some(call_handle(longer[k])));
            }
        }
        assert forall|k1: int, k2: int|
            0 <= k1 < k2 < longer.len() && (#[trigger] longer[k1]) is Destroy
            implies call_handle(longer[k1]) != call_handle(#[trigger] longer[k2]) by {
            if k2 < shorter.len() {
                assert(longer[k1] == shorter[k1]);
                assert(longer[k2] == shorter[k2]);
            } else {
                assert(longer[k1] == shorter[k1]);
                let w = choose|w: int|
                    0 <= w < n - 1 && slot_handle(slots[w]) == Some(call_handle(shorter[k1]));
                assert(slot_occupied(slots[w]));
                assert(slot_handle(slots[w]) != slot_handle(slots[i]));
                assert(slot_handle(slots[i]) == Some(call_handle(longer[k2])));
            }
        }
    }
}

/// Teardown never touches a handle twice: with no handle held by two slots
/// — which every reconciliation pass guarantees — no teardown request
/// addresses a handle an earlier request already destroyed.
pub proof fn lemma_teardown_no_reuse(slots: Seq<Option<SpawnedTile>>)
    requires
        handles_distinct(slots),
    ensures
        no_use_after_destroy(teardown_calls(slots)),
{
    lemma_teardown_prefix_no_reuse(slots, slots.len() as int);
}

/// Teardown completeness: tearing down a shadow store with `K` occupied
/// slots issues exactly `K` backend requests, all of them recursive
/// destroys; afterwards nothing remains to tear down, the store being
/// discarded by its caller.
pub proof fn lemma_teardown_completeness(slots: Seq<Option<SpawnedTile>>)
    ensures
        teardown_calls(slots).len() == count_occupied(slots),
        forall|k: int|
            0 <= k < teardown_calls(slots).len() ==> (#[trigger] teardown_calls(slots)[k])
                is Destroy,
{
    lemma_teardown_prefix_counts(slots, slots.len() as int);
}

} // verus!
