//! Opaque identities used across the display list: stacking-context ids,
//! compositor layer ids, pipeline ids, and handles for shared payloads
//! (text runs, image memory, WebGL contexts). All are plain integers here;
//! their meaning lives with the subsystems that mint them.

use vstd::prelude::*;

verus! {

/// Identity of a stacking context. The value 0 is reserved for the root.
#[derive(Clone, Copy, PartialEq, Eq, Structural, Debug)]
pub struct StackingContextId(pub u64);

impl StackingContextId {
    /// The distinguished id of the root stacking context.
    pub fn root() -> (r: StackingContextId)
        ensures
            r == root_stacking_context_id(),
    {
        StackingContextId(0)
    }

    pub fn new(id: u64) -> (r: StackingContextId)
        ensures
            r == StackingContextId(id),
    {
        StackingContextId(id)
    }
}

pub open spec fn root_stacking_context_id() -> StackingContextId {
    StackingContextId(0)
}

/// A compositor layer handle: a base index plus a companion counter, so that
/// a companion id derived from a layer is never equal to the layer's own id.
#[derive(Clone, Copy, PartialEq, Eq, Structural, Debug)]
pub struct LayerId(pub u64, pub u32);

impl LayerId {
    /// The id of a synthesized layer that must paint above this one.
    pub fn companion_layer_id(&self) -> (r: LayerId)
        requires
            self.1 < u32::MAX,
        ensures
            r.0 == self.0,
            r.1 == self.1 + 1,
            r != *self,
    {
        LayerId(self.0, self.1 + 1)
    }
}

/// Identity of the pipeline (page) a subframe belongs to.
#[derive(Clone, Copy, PartialEq, Eq, Structural, Debug)]
pub struct PipelineId(pub u32, pub u32);

/// Handle of a WebGL context owned by the renderer.
#[derive(Clone, Copy, PartialEq, Eq, Structural, Debug)]
pub struct WebGLContextId(pub u64);

/// Key of an image already registered with the renderer.
#[derive(Clone, Copy, PartialEq, Eq, Structural, Debug)]
pub struct ImageKey(pub u32, pub u32);

/// Handle of a shaped text run held by the font subsystem; opaque here.
#[derive(Clone, Copy, PartialEq, Eq, Structural, Debug)]
pub struct TextRunHandle(pub u64);

/// Handle of shared image memory owned by the transport layer; opaque here.
#[derive(Clone, Copy, PartialEq, Eq, Structural, Debug)]
pub struct ImageDataHandle(pub u64);

/// Handle of the DOM node a display item originated from.
#[derive(Clone, Copy, PartialEq, Eq, Structural, Debug)]
pub struct OpaqueNode(pub u64);

/// How the compositor may scroll a layer.
#[derive(Clone, Copy, PartialEq, Eq, Structural, Debug)]
pub enum ScrollPolicy {
    /// The layer scrolls with the rest of the document.
    Scrollable,
    /// The layer is fixed to the viewport and ignores ancestor scrolling.
    FixedPosition,
}

} // verus!
