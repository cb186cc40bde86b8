//! The interface to the materialization backend: opaque object handles,
//! world positions, and a queue that records the create / update / destroy
//! requests a reconciliation pass decides on.
//!
//! The backend itself (the entity/component store that owns meshes,
//! materials and physical bodies) lives outside this crate. Reconciliation
//! appends [`BackendCall`] values to a [`Backend`] queue; the surrounding
//! presentation layer drains the queue and performs each request, keeping
//! its own association from issued handles to realized objects.

use crate::map_data::MeshId;
use vstd::prelude::*;

verus! {

/// Opaque reference to one realized object. The holder of a handle owns
/// only the right to request its update or destruction, never the resource
/// behind it.
#[derive(Clone, Copy, Debug, PartialEq, Eq, Structural, Hash)]
pub struct ObjectHandle(pub u64);

/// Position of a realized object on the world's ground plane, in tiles.
/// Vertical placement is a fixed constant for this tile kind and is left to
/// the presentation layer.
#[derive(Clone, Copy, Debug, PartialEq, Eq, Structural, Hash)]
pub struct WorldPosition {
    pub x: u64,
    pub z: u64,
}

/// One request against the materialization backend.
#[derive(Clone, Copy, Debug, PartialEq, Eq, Structural)]
pub enum BackendCall {
    /// Realize a new object under the given parent container, with the
    /// handle the queue issued for it.
    Create { handle: ObjectHandle, mesh: MeshId, position: WorldPosition, parent: ObjectHandle },
    /// Replace the visual payload of an existing object in place, keeping
    /// its handle (and thereby every cross-reference to it) intact.
    Update { handle: ObjectHandle, mesh: MeshId, position: WorldPosition },
    /// Destroy an object and everything attached to it.
    Destroy { handle: ObjectHandle },
}

/// Recorded request queue plus the handle counter from which new objects
/// are issued their handles. Handles grow strictly, so a handle never
/// collides with one issued earlier.
pub struct Backend {
    /// Requests recorded so far, oldest first.
    pub calls: Vec<BackendCall>,
    /// The handle the next created object will receive.
    pub next_handle: u64,
}

impl Backend {
    /// An empty queue that has issued no handle yet.
    pub fn new() -> (result: Backend)
        ensures
            result.calls@ == Seq::<BackendCall>::empty(),
            result.next_handle == 0,
    {
        Backend { calls: Vec::new(), next_handle: 0 }
    }

    /// Record a creation request and issue the new object's handle.
    pub fn create_object(&mut self, mesh: MeshId, position: WorldPosition, parent: ObjectHandle) -> (handle: ObjectHandle)
        requires
            old(self).next_handle < u64::MAX,
        ensures
            handle == ObjectHandle(old(self).next_handle),
            final(self).next_handle == old(self).next_handle + 1,
            final(self).calls@ == old(self).calls@.push(
                BackendCall::Create { handle, mesh, position, parent },
            ),
    {
        let handle = ObjectHandle(self.next_handle);
        self.next_handle = self.next_handle + 1;
        self.calls.push(BackendCall::Create { handle, mesh, position, parent });
        handle
    }

    /// Record an in-place update of an existing object's visual payload.
    pub fn update_object(&mut self, handle: ObjectHandle, mesh: MeshId, position: WorldPosition)
        ensures
            final(self).next_handle == old(self).next_handle,
            final(self).calls@ == old(self).calls@.push(
                BackendCall::Update { handle, mesh, position },
            ),
    {
        self.calls.push(BackendCall::Update { handle, mesh, position });
    }

    /// Record the recursive destruction of an object.
    pub fn destroy_object_recursive(&mut self, handle: ObjectHandle)
        ensures
            final(self).next_handle == old(self).next_handle,
            final(self).calls@ == old(self).calls@.push(BackendCall::Destroy { handle }),
    {
        self.calls.push(BackendCall::Destroy { handle });
    }
}

} // verus!
