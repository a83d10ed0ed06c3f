//! The message protocol between scene tasks and the engine.
//!
//! A scene communicates with the engine only by sending [`EngineMessage`]
//! values, tagged with the sending scene's id, into the engine's inbox.  The
//! set of node kinds is closed, so a runtime type tag is a small integer
//! derived from [`NodeKind`].

use std::collections::VecDeque;
use vstd::prelude::*;

use crate::node::NodeBuilderKind;

verus! {

/// The closed set of node kinds a scene can spawn.
#[derive(Clone, Copy, Debug, PartialEq, Eq, Structural)]
pub enum NodeKind {
    /// A colored rectangle.
    Rect,
    /// An audio clip.
    Audio,
}

impl NodeKind {
    /// The numeric tag that identifies this kind in messages.
    pub open spec fn spec_tag(self) -> u64 {
        match self {
            NodeKind::Rect => 0,
            NodeKind::Audio => 1,
        }
    }

    /// The numeric tag that identifies this kind in messages.
    pub fn tag(self) -> (t: u64)
        ensures
            t == self.spec_tag(),
    {
        match self {
            NodeKind::Rect => 0,
            NodeKind::Audio => 1,
        }
    }

    /// The characters of the kind's diagnostic name.
    pub open spec fn spec_name(self) -> Seq<char> {
        match self {
            NodeKind::Rect => "RectNodeManager"@,
            NodeKind::Audio => "AudioNodeManager"@,
        }
    }

    /// The kind's name, for diagnostics.
    pub fn name(self) -> (n: &'static str)
        ensures
            n@ == self.spec_name(),
    {
        match self {
            NodeKind::Rect => "RectNodeManager",
            NodeKind::Audio => "AudioNodeManager",
        }
    }
}

/// A runtime type tag naming one node-manager kind.
#[derive(Clone, Copy, Debug, PartialEq, Eq, Structural)]
pub struct Ty {
    /// The kind's numeric tag.
    pub id: u64,
    /// The kind itself, kept beside the tag for diagnostics.
    pub kind: NodeKind,
}

impl Ty {
    /// The tag of a node kind.
    pub open spec fn spec_of(kind: NodeKind) -> Ty {
        Ty { id: kind.spec_tag(), kind }
    }

    /// The tag of a node kind.
    pub fn of(kind: NodeKind) -> (t: Ty)
        ensures
            t == Ty::spec_of(kind),
    {
        Ty { id: kind.tag(), kind }
    }

    /// The kind's name, for diagnostics.
    pub fn name(&self) -> (n: &'static str)
        ensures
            n@ == self.kind.spec_name(),
    {
        self.kind.name()
    }
}

/// The closed set of requests a scene may send to the engine.
#[derive(Clone, Copy, Debug, PartialEq, Eq, Structural)]
pub enum EngineMessage {
    /// Ask the manager of the tagged kind to allocate the signal channels of
    /// one new node and reply with their producer ends.
    CreateRef(Ty),
    /// Hand the boxed builder of one new node to the manager of the tagged
    /// kind, which materializes the node against the pending channels.
    CreateNode(Ty, NodeBuilderKind),
    /// Park the sending scene until the next frame has been presented.
    Present,
    /// Run `update` on every registered node manager.
    Update,
}

/// Everything that can go fatally wrong in the scheduler core.  Each of
/// these is a non-recoverable, abort-level failure: the system assumes a
/// closed, author-controlled script, not untrusted input.
#[derive(Clone, Copy, Debug, PartialEq, Eq, Structural)]
pub enum EngineError {
    /// A scene referenced a node kind with no registered manager: a
    /// configuration error.  Carries the missing kind.
    UnregisteredKind(NodeKind),
    /// A second creation was interleaved with a pending one on the same
    /// manager, or a builder reached a manager of another kind.
    ProtocolViolation,
    /// A scene script addressed a node handle it does not own, asked for a
    /// coordinate beyond the representable range, or described a malformed
    /// tween.
    ScriptViolation,
    /// The frame could not settle: some scene is blocked on a reply that
    /// will never come.
    Stalled,
}

/// A scene's sending end of the engine's inbox: it stamps every message
/// with the scene's id.
#[derive(Clone, Copy, Debug)]
pub struct EngineSender {
    /// The id of the scene this sender belongs to.
    pub id: u64,
}

impl EngineSender {
    /// Sends `msg` into the engine's inbox, stamped with the scene id.
    pub fn send(&self, inbox: &mut VecDeque<(u64, EngineMessage)>, msg: EngineMessage)
        ensures
            final(inbox)@ == old(inbox)@.push((self.id, msg)),
    {
        inbox.push_back((self.id, msg));
    }
}

} // verus!
