//! End-to-end behaviour of chunk reconciliation against a recorded backend
//! queue: first materialization, incremental updates, removals, failure
//! handling and teardown.

use chunk_reconciler::backend::{Backend, BackendCall, ObjectHandle, WorldPosition};
use chunk_reconciler::map_data::{
    MapChunk, MapData, MapError, MeshId, TileData, TurfData, TurfDefinition, CHUNK_LENGTH,
};
use chunk_reconciler::spawning::{apply_chunk, despawn_chunk, SpawnedChunk, TileIssue};

const CONTAINER: ObjectHandle = ObjectHandle(9_000);

fn empty_chunk() -> MapChunk {
    MapChunk {
        tiles: vec![None; CHUNK_LENGTH],
        changed_tiles: vec![false; CHUNK_LENGTH],
    }
}

fn occupy(chunk: &mut MapChunk, slot: usize, definition_id: u32) {
    chunk.tiles[slot] = Some(TileData {
        turf: Some(TurfData { definition_id }),
    });
}

fn wall_and_floor_definitions() -> Vec<TurfDefinition> {
    vec![
        TurfDefinition {
            name: "wall".to_string(),
            mesh: Some(MeshId(7)),
        },
        TurfDefinition {
            name: "floor".to_string(),
            mesh: Some(MeshId(9)),
        },
    ]
}

fn single_chunk_map(chunk: MapChunk, turf_definitions: Vec<TurfDefinition>) -> MapData {
    MapData {
        size: (1, 1),
        chunks: vec![Some(chunk)],
        turf_definitions,
    }
}

#[test]
fn first_reconciliation_of_empty_chunk_is_silent() {
    let map = single_chunk_map(empty_chunk(), wall_and_floor_definitions());
    let mut backend = Backend::new();

    let (chunk, issues) = apply_chunk(&mut backend, None, 0, &map, CONTAINER).unwrap();

    assert_eq!(chunk.spawned_tiles.len(), CHUNK_LENGTH);
    assert!(chunk.spawned_tiles.iter().all(|slot| slot.is_none()));
    assert!(issues.is_empty());
    assert!(backend.calls.is_empty());
}

#[test]
fn chunk_origin_and_world_position_follow_row_major_layout() {
    // Grid width 10 chunks; chunk index 3 sits at grid (3, 0), so its origin
    // in tiles is (48, 0); local slot 17 is offset (1, 1): world (49, 1).
    let mut chunk = empty_chunk();
    occupy(&mut chunk, 17, 0);
    let mut chunks: Vec<Option<MapChunk>> = vec![None; 10];
    chunks[3] = Some(chunk);
    let map = MapData {
        size: (10, 1),
        chunks,
        turf_definitions: wall_and_floor_definitions(),
    };
    let mut backend = Backend::new();

    let (shadow, issues) = apply_chunk(&mut backend, None, 3, &map, CONTAINER).unwrap();

    assert!(issues.is_empty());
    assert_eq!(
        backend.calls,
        vec![BackendCall::Create {
            handle: ObjectHandle(0),
            mesh: MeshId(7),
            position: WorldPosition { x: 49, z: 1 },
            parent: CONTAINER,
        }]
    );
    let expected_snapshot = TurfData { definition_id: 0 };
    assert_eq!(
        shadow.spawned_tiles[17].unwrap().spawned_turf,
        Some((expected_snapshot, ObjectHandle(0)))
    );
    assert!(shadow
        .spawned_tiles
        .iter()
        .enumerate()
        .all(|(slot, state)| slot == 17 || state.is_none()));
}

#[test]
fn position_from_chunk_index_decomposes_row_major() {
    assert_eq!(MapData::position_from_chunk_index((10, 2), 3), (3, 0));
    assert_eq!(MapData::position_from_chunk_index((10, 2), 13), (3, 1));
    assert_eq!(MapData::position_from_chunk_index((10, 2), 19), (9, 1));
}

#[test]
fn position_in_chunk_decomposes_row_major() {
    assert_eq!(TileData::position_in_chunk(0), (0, 0));
    assert_eq!(TileData::position_in_chunk(17), (1, 1));
    assert_eq!(TileData::position_in_chunk(255), (15, 15));
}

#[test]
fn full_rebuild_creates_one_object_per_occupant() {
    let mut chunk = empty_chunk();
    occupy(&mut chunk, 0, 0);
    occupy(&mut chunk, 100, 1);
    occupy(&mut chunk, 255, 0);
    let map = single_chunk_map(chunk, wall_and_floor_definitions());
    let mut backend = Backend::new();

    let (shadow, issues) = apply_chunk(&mut backend, None, 0, &map, CONTAINER).unwrap();

    assert!(issues.is_empty());
    assert_eq!(backend.calls.len(), 3);
    assert!(backend
        .calls
        .iter()
        .all(|call| matches!(call, BackendCall::Create { .. })));
    let occupied: Vec<usize> = shadow
        .spawned_tiles
        .iter()
        .enumerate()
        .filter(|(_, state)| state.is_some())
        .map(|(slot, _)| slot)
        .collect();
    assert_eq!(occupied, vec![0, 100, 255]);
}

#[test]
fn created_handles_are_distinct_and_sequential() {
    let mut chunk = empty_chunk();
    occupy(&mut chunk, 1, 0);
    occupy(&mut chunk, 2, 0);
    occupy(&mut chunk, 3, 1);
    let map = single_chunk_map(chunk, wall_and_floor_definitions());
    let mut backend = Backend::new();

    apply_chunk(&mut backend, None, 0, &map, CONTAINER).unwrap();

    let handles: Vec<u64> = backend
        .calls
        .iter()
        .map(|call| match call {
            BackendCall::Create { handle, .. } => handle.0,
            other => panic!("expected only creations, got {:?}", other),
        })
        .collect();
    assert_eq!(handles, vec![0, 1, 2]);
    assert_eq!(backend.next_handle, 3);
}

#[test]
fn second_pass_with_cleared_markers_is_noop() {
    let mut chunk = empty_chunk();
    occupy(&mut chunk, 5, 0);
    occupy(&mut chunk, 6, 1);
    let map = single_chunk_map(chunk, wall_and_floor_definitions());
    let mut backend = Backend::new();

    let (first, _) = apply_chunk(&mut backend, None, 0, &map, CONTAINER).unwrap();
    let calls_after_first = backend.calls.len();

    // Change markers are still all cleared: the incremental pass selects no
    // slot at all.
    let (second, issues) =
        apply_chunk(&mut backend, Some(first.clone()), 0, &map, CONTAINER).unwrap();

    assert_eq!(second, first);
    assert!(issues.is_empty());
    assert_eq!(backend.calls.len(), calls_after_first);
}

#[test]
fn unchanged_marked_slot_issues_no_call() {
    let mut chunk = empty_chunk();
    occupy(&mut chunk, 40, 0);
    let map = single_chunk_map(chunk, wall_and_floor_definitions());
    let mut backend = Backend::new();
    let (prior, _) = apply_chunk(&mut backend, None, 0, &map, CONTAINER).unwrap();
    let calls_before = backend.calls.len();

    // Same occupant snapshot, marker set: idempotent no-op.
    let mut remarked = map;
    if let Some(chunk) = remarked.chunks[0].as_mut() {
        chunk.changed_tiles[40] = true;
    }
    let (after, issues) =
        apply_chunk(&mut backend, Some(prior.clone()), 0, &remarked, CONTAINER).unwrap();

    assert_eq!(after, prior);
    assert!(issues.is_empty());
    assert_eq!(backend.calls.len(), calls_before);
}

#[test]
fn single_marked_slot_creates_only_that_slot() {
    let map = single_chunk_map(empty_chunk(), wall_and_floor_definitions());
    let mut backend = Backend::new();
    let (prior, _) = apply_chunk(&mut backend, None, 0, &map, CONTAINER).unwrap();
    assert!(backend.calls.is_empty());

    let mut updated = map;
    if let Some(chunk) = updated.chunks[0].as_mut() {
        chunk.tiles[12] = Some(TileData {
            turf: Some(TurfData { definition_id: 1 }),
        });
        chunk.changed_tiles[12] = true;
    }
    let (after, issues) =
        apply_chunk(&mut backend, Some(prior.clone()), 0, &updated, CONTAINER).unwrap();

    assert!(issues.is_empty());
    assert_eq!(backend.calls.len(), 1);
    assert!(matches!(backend.calls[0], BackendCall::Create { .. }));
    assert!(after.spawned_tiles[12].is_some());
    for slot in 0..CHUNK_LENGTH {
        if slot != 12 {
            assert_eq!(after.spawned_tiles[slot], prior.spawned_tiles[slot]);
        }
    }
}

#[test]
fn update_keeps_handle_identity() {
    let mut chunk = empty_chunk();
    occupy(&mut chunk, 30, 0);
    let map = single_chunk_map(chunk, wall_and_floor_definitions());
    let mut backend = Backend::new();
    let (prior, _) = apply_chunk(&mut backend, None, 0, &map, CONTAINER).unwrap();
    let original_handle = prior.spawned_tiles[30].unwrap().spawned_turf.unwrap().1;

    // The occupant changes definition: the realized object must be updated
    // in place, never destroyed and recreated.
    let mut updated = map;
    if let Some(chunk) = updated.chunks[0].as_mut() {
        occupy(chunk, 30, 1);
        chunk.changed_tiles[30] = true;
    }
    let calls_before = backend.calls.len();
    let (after, issues) =
        apply_chunk(&mut backend, Some(prior), 0, &updated, CONTAINER).unwrap();

    assert!(issues.is_empty());
    assert_eq!(backend.calls.len(), calls_before + 1);
    assert_eq!(
        backend.calls[calls_before],
        BackendCall::Update {
            handle: original_handle,
            mesh: MeshId(9),
            position: WorldPosition { x: 14, z: 1 },
        }
    );
    assert_eq!(
        after.spawned_tiles[30].unwrap().spawned_turf,
        Some((TurfData { definition_id: 1 }, original_handle))
    );
}

#[test]
fn removing_occupant_destroys_object() {
    let mut chunk = empty_chunk();
    occupy(&mut chunk, 8, 0);
    let map = single_chunk_map(chunk, wall_and_floor_definitions());
    let mut backend = Backend::new();
    let (prior, _) = apply_chunk(&mut backend, None, 0, &map, CONTAINER).unwrap();
    let handle = prior.spawned_tiles[8].unwrap().spawned_turf.unwrap().1;

    let mut updated = map;
    if let Some(chunk) = updated.chunks[0].as_mut() {
        chunk.tiles[8] = None;
        chunk.changed_tiles[8] = true;
    }
    let calls_before = backend.calls.len();
    let (after, issues) =
        apply_chunk(&mut backend, Some(prior), 0, &updated, CONTAINER).unwrap();

    assert!(issues.is_empty());
    assert_eq!(backend.calls.len(), calls_before + 1);
    assert_eq!(backend.calls[calls_before], BackendCall::Destroy { handle });
    assert!(after.spawned_tiles[8].is_none());
}

#[test]
fn missing_definition_is_recorded_and_slot_left_alone() {
    let mut chunk = empty_chunk();
    occupy(&mut chunk, 3, 42);
    let map = single_chunk_map(chunk, wall_and_floor_definitions());
    let mut backend = Backend::new();

    let (shadow, issues) = apply_chunk(&mut backend, None, 0, &map, CONTAINER).unwrap();

    assert!(backend.calls.is_empty());
    assert_eq!(
        issues,
        vec![TileIssue::MissingDefinition {
            slot: 3,
            definition_id: 42,
        }]
    );
    assert!(shadow.spawned_tiles[3].is_none());
}

#[test]
fn missing_asset_is_recorded_and_retried_once_available() {
    let mut chunk = empty_chunk();
    occupy(&mut chunk, 3, 0);
    let unloaded = vec![TurfDefinition {
        name: "wall".to_string(),
        mesh: None,
    }];
    let map = single_chunk_map(chunk, unloaded);
    let mut backend = Backend::new();

    let (shadow, issues) = apply_chunk(&mut backend, None, 0, &map, CONTAINER).unwrap();

    assert!(backend.calls.is_empty());
    assert_eq!(
        issues,
        vec![TileIssue::MissingAsset {
            slot: 3,
            definition_id: 0,
        }]
    );
    assert!(shadow.spawned_tiles[3].is_none());

    // The asset finishes loading and the tile is marked again: the next
    // pass succeeds where the first had to skip.
    let mut retried = map;
    retried.turf_definitions[0].mesh = Some(MeshId(7));
    if let Some(chunk) = retried.chunks[0].as_mut() {
        chunk.changed_tiles[3] = true;
    }
    let (after, issues) =
        apply_chunk(&mut backend, Some(shadow), 0, &retried, CONTAINER).unwrap();

    assert!(issues.is_empty());
    assert_eq!(backend.calls.len(), 1);
    assert!(matches!(backend.calls[0], BackendCall::Create { .. }));
    assert!(after.spawned_tiles[3].is_some());
}

#[test]
fn shape_mismatch_is_an_explicit_error() {
    let truncated = MapChunk {
        tiles: vec![None; CHUNK_LENGTH - 1],
        changed_tiles: vec![false; CHUNK_LENGTH - 1],
    };
    let map = single_chunk_map(truncated, wall_and_floor_definitions());
    let mut backend = Backend::new();

    let result = apply_chunk(&mut backend, None, 0, &map, CONTAINER);

    assert_eq!(result, Err(MapError::ShapeMismatch));
    assert!(backend.calls.is_empty());
}

#[test]
fn short_shadow_chunk_is_an_explicit_error() {
    let map = single_chunk_map(empty_chunk(), wall_and_floor_definitions());
    let mut backend = Backend::new();
    let short_shadow = SpawnedChunk {
        spawned_tiles: vec![None; CHUNK_LENGTH - 1],
    };

    let result = apply_chunk(&mut backend, Some(short_shadow), 0, &map, CONTAINER);

    assert_eq!(result, Err(MapError::ShapeMismatch));
    assert!(backend.calls.is_empty());
}

#[test]
fn chunk_index_outside_grid_is_an_error() {
    let map = single_chunk_map(empty_chunk(), wall_and_floor_definitions());
    let mut backend = Backend::new();

    let result = apply_chunk(&mut backend, None, 7, &map, CONTAINER);

    assert_eq!(result, Err(MapError::IndexOutOfRange));
    assert!(backend.calls.is_empty());
}

#[test]
fn unloaded_chunk_slot_is_an_error() {
    let map = MapData {
        size: (2, 1),
        chunks: vec![Some(empty_chunk()), None],
        turf_definitions: wall_and_floor_definitions(),
    };
    let mut backend = Backend::new();

    let result = apply_chunk(&mut backend, None, 1, &map, CONTAINER);

    assert_eq!(result, Err(MapError::IndexOutOfRange));
    assert!(backend.calls.is_empty());
}

#[test]
fn teardown_destroys_every_live_object() {
    let mut chunk = empty_chunk();
    occupy(&mut chunk, 2, 0);
    occupy(&mut chunk, 9, 1);
    occupy(&mut chunk, 200, 0);
    let map = single_chunk_map(chunk, wall_and_floor_definitions());
    let mut backend = Backend::new();
    let (shadow, _) = apply_chunk(&mut backend, None, 0, &map, CONTAINER).unwrap();

    let live_handles: Vec<ObjectHandle> = shadow
        .spawned_tiles
        .iter()
        .filter_map(|slot| slot.and_then(|tile| tile.spawned_turf))
        .map(|(_, handle)| handle)
        .collect();
    assert_eq!(live_handles.len(), 3);

    let calls_before = backend.calls.len();
    despawn_chunk(&mut backend, shadow);

    let destroyed: Vec<ObjectHandle> = backend.calls[calls_before..]
        .iter()
        .map(|call| match call {
            BackendCall::Destroy { handle } => *handle,
            other => panic!("teardown must only destroy, got {:?}", other),
        })
        .collect();
    assert_eq!(destroyed, live_handles);
}

#[test]
fn teardown_of_empty_store_is_silent() {
    let mut backend = Backend::new();
    despawn_chunk(&mut backend, SpawnedChunk::default());
    assert!(backend.calls.is_empty());
}

#[test]
fn default_shadow_chunk_is_all_empty() {
    let chunk = SpawnedChunk::default();
    assert_eq!(chunk.spawned_tiles.len(), CHUNK_LENGTH);
    assert!(chunk.spawned_tiles.iter().all(|slot| slot.is_none()));
}
