//! Type-erased node dispatch.
//!
//! The engine stores every registered manager behind one type,
//! [`AbstractNodeManager`], and dispatches messages to it by comparing
//! runtime tags.  The kind set is closed, so the erasure is a tagged sum
//! over the registered kinds rather than a trait object with downcasts.

use vstd::prelude::*;

use crate::audio::{AudioBuilder, AudioManagerView, AudioNodeManager, RawAudio};
use crate::engine_message::{EngineError, NodeKind, Ty};
use crate::rect::{RawRect, RectBuilder, RectManagerView, RectNodeManager};
use crate::signal::{table_wf, SignalTable, SignalValue};

verus! {

/// The type-erased builder payload of a `CreateNode` message.
#[derive(Clone, Copy, Debug, PartialEq, Eq, Structural)]
pub enum NodeBuilderKind {
    Rect(RectBuilder),
    Audio(AudioBuilder),
}

impl NodeBuilderKind {
    /// The node kind this builder belongs to.
    pub open spec fn spec_kind(self) -> NodeKind {
        match self {
            NodeBuilderKind::Rect(_) => NodeKind::Rect,
            NodeBuilderKind::Audio(_) => NodeKind::Audio,
        }
    }

    /// The node kind this builder belongs to.
    pub fn kind(&self) -> (k: NodeKind)
        ensures
            k == self.spec_kind(),
    {
        match self {
            NodeBuilderKind::Rect(_) => NodeKind::Rect,
            NodeBuilderKind::Audio(_) => NodeKind::Audio,
        }
    }

    /// A rectangle builder is bounded; other builders carry no coordinates.
    pub open spec fn wf(self) -> bool {
        match self {
            NodeBuilderKind::Rect(b) => b.wf(),
            NodeBuilderKind::Audio(_) => true,
        }
    }

    /// Whether the builder's coordinates are within bounds.
    pub fn bounded(&self) -> (r: bool)
        ensures
            r == self.wf(),
    {
        match self {
            NodeBuilderKind::Rect(b) => b.size.x >= -crate::signal::COORD_LIMIT && b.size.x
                <= crate::signal::COORD_LIMIT && b.size.y >= -crate::signal::COORD_LIMIT
                && b.size.y <= crate::signal::COORD_LIMIT && b.position.x
                >= -crate::signal::COORD_LIMIT && b.position.x <= crate::signal::COORD_LIMIT
                && b.position.y >= -crate::signal::COORD_LIMIT && b.position.y
                <= crate::signal::COORD_LIMIT,
            NodeBuilderKind::Audio(_) => true,
        }
    }
}

/// The type-erased reply to a `CreateRef` message: the producer ends of one
/// new node's channels.
#[derive(Clone, Copy, Debug, PartialEq, Eq, Structural)]
pub enum RawNode {
    Rect(RawRect),
    Audio(RawAudio),
}

/// The abstract state of one registered manager.
pub enum NodeManagerView {
    Rect(RectManagerView),
    Audio(AudioManagerView),
}

/// One registered node manager, dispatched by runtime tag.
#[derive(Debug)]
pub enum AbstractNodeManager {
    Rect(RectNodeManager),
    Audio(AudioNodeManager),
}

impl View for AbstractNodeManager {
    type V = NodeManagerView;

    open spec fn view(&self) -> NodeManagerView {
        match self {
            AbstractNodeManager::Rect(m) => NodeManagerView::Rect(m@),
            AbstractNodeManager::Audio(m) => NodeManagerView::Audio(m@),
        }
    }
}

impl NodeManagerView {
    /// The kind this manager owns.
    pub open spec fn spec_kind(self) -> NodeKind {
        match self {
            NodeManagerView::Rect(_) => NodeKind::Rect,
            NodeManagerView::Audio(_) => NodeKind::Audio,
        }
    }

    /// Every node and pending entry stays inside a table of length `n`.
    pub open spec fn wf(self, n: int) -> bool {
        match self {
            NodeManagerView::Rect(m) => m.wf(n),
            NodeManagerView::Audio(m) => m.wf(n),
        }
    }

    /// The manager state, the signal table and the raw reply after
    /// allocating the channels of one new node.
    pub open spec fn spec_create_node(self, t: Seq<Option<SignalValue>>) -> (
        NodeManagerView,
        Seq<Option<SignalValue>>,
        RawNode,
    ) {
        match self {
            NodeManagerView::Rect(m) => {
                let (m2, t2, raw) = m.spec_create_node(t);
                (NodeManagerView::Rect(m2), t2, RawNode::Rect(raw))
            },
            NodeManagerView::Audio(m) => {
                let (m2, t2, raw) = m.spec_create_node(t);
                (NodeManagerView::Audio(m2), t2, RawNode::Audio(raw))
            },
        }
    }

    /// Whether a `CreateRef` reply is pending on this manager.
    pub open spec fn spec_has_pending(self) -> bool {
        match self {
            NodeManagerView::Rect(m) => m.pending is Some,
            NodeManagerView::Audio(m) => m.pending is Some,
        }
    }

    /// The manager state after materializing one node from `b`, and the
    /// outcome: `Ok` when the builder is bounded, matches this manager's
    /// kind, and a pending entry was available.
    pub open spec fn spec_init_node(self, b: NodeBuilderKind) -> (
        NodeManagerView,
        Result<(), EngineError>,
    ) {
        if !b.wf() {
            (self, Err(EngineError::ProtocolViolation))
        } else {

        match (self, b) {
            (NodeManagerView::Rect(m), NodeBuilderKind::Rect(rb)) => {
                let (m2, ok) = m.spec_init_node(rb);
                (
                    NodeManagerView::Rect(m2),
                    if ok {
                        Ok(())
                    } else {
                        Err(EngineError::ProtocolViolation)
                    },
                )
            },
            (NodeManagerView::Audio(m), NodeBuilderKind::Audio(ab)) => {
                let (m2, ok) = m.spec_init_node(ab);
                (
                    NodeManagerView::Audio(m2),
                    if ok {
                        Ok(())
                    } else {
                        Err(EngineError::ProtocolViolation)
                    },
                )
            },
            (m, _) => (m, Err(EngineError::ProtocolViolation)),
        }

        }
    }
}

impl AbstractNodeManager {
    /// A fresh, empty manager of the given kind.
    pub fn new(kind: NodeKind) -> (m: AbstractNodeManager)
        ensures
            m@.spec_kind() == kind,
            m@ matches NodeManagerView::Rect(r) ==> r.rects.len() == 0 && r.pending is None,
            m@ matches NodeManagerView::Audio(a) ==> a.audios.len() == 0 && a.pending is None,
    {
        match kind {
            NodeKind::Rect => AbstractNodeManager::Rect(RectNodeManager::default()),
            NodeKind::Audio => AbstractNodeManager::Audio(AudioNodeManager::default()),
        }
    }

    /// The numeric tag of the kind this manager owns.
    pub fn ty_id(&self) -> (t: u64)
        ensures
            t == self@.spec_kind().spec_tag(),
    {
        Ty::of(self.kind()).id
    }

    /// The kind this manager owns.
    pub fn kind(&self) -> (k: NodeKind)
        ensures
            k == self@.spec_kind(),
    {
        match self {
            AbstractNodeManager::Rect(_) => NodeKind::Rect,
            AbstractNodeManager::Audio(_) => NodeKind::Audio,
        }
    }

    /// Allocates the signal channels of one new node of this manager's
    /// kind, stashes their consumer ends as pending, and returns the
    /// producer ends.
    pub fn create_node(&mut self, table: &mut SignalTable) -> (raw: RawNode)
        ensures
            final(self)@ == old(self)@.spec_create_node(old(table)@).0,
            final(table)@ == old(self)@.spec_create_node(old(table)@).1,
            raw == old(self)@.spec_create_node(old(table)@).2,
    {
        match self {
            AbstractNodeManager::Rect(m) => RawNode::Rect(m.create_node(table)),
            AbstractNodeManager::Audio(m) => RawNode::Audio(m.create_node(table)),
        }
    }

    /// Whether a `CreateRef` reply is pending on this manager.
    pub fn has_pending(&self) -> (r: bool)
        ensures
            r == self@.spec_has_pending(),
    {
        match self {
            AbstractNodeManager::Rect(m) => m.pending.is_some(),
            AbstractNodeManager::Audio(m) => m.pending.is_some(),
        }
    }

    /// Materializes one node from a type-erased builder.  An unbounded
    /// builder, a builder of another kind, or an absent pending entry is a
    /// protocol violation.
    pub fn init_node(&mut self, builder: NodeBuilderKind) -> (r: Result<(), EngineError>)
        ensures
            final(self)@ == old(self)@.spec_init_node(builder).0,
            r == old(self)@.spec_init_node(builder).1,
    {
        if !builder.bounded() {
            return Err(EngineError::ProtocolViolation);
        }
        match (&mut *self, builder) {
            (AbstractNodeManager::Rect(m), NodeBuilderKind::Rect(rb)) => m.init_node(rb),
            (AbstractNodeManager::Audio(m), NodeBuilderKind::Audio(ab)) => m.init_node(ab),
            (_, _) => Err(EngineError::ProtocolViolation),
        }
    }
}

impl NodeManagerView {
    /// The manager state and signal table after an `Update` pass.
    pub open spec fn spec_update(self, t: Seq<Option<SignalValue>>) -> (
        NodeManagerView,
        Seq<Option<SignalValue>>,
    ) {
        match self {
            NodeManagerView::Rect(m) => {
                let (rects, t2) = crate::rect::spec_update_rects(m.rects, t);
                (NodeManagerView::Rect(RectManagerView { rects, pending: m.pending }), t2)
            },
            NodeManagerView::Audio(m) => {
                let (audios, t2) = crate::audio::spec_update_audios(m.audios, t);
                (NodeManagerView::Audio(AudioManagerView { audios, pending: m.pending }), t2)
            },
        }
    }
}

impl AbstractNodeManager {
    /// Runs one update pass: drains every live node's channels, applies
    /// fresh values and removes the nodes whose drop channel pulsed.
    pub fn update(&mut self, table: &mut SignalTable)
        requires
            old(self)@.wf(old(table)@.len() as int),
            table_wf(old(table)@),
        ensures
            final(self)@ == old(self)@.spec_update(old(table)@).0,
            final(table)@ == old(self)@.spec_update(old(table)@).1,
            final(table)@.len() == old(table)@.len(),
            table_wf(final(table)@),
            final(self)@.wf(final(table)@.len() as int),
    {
        match self {
            AbstractNodeManager::Rect(m) => m.update(table),
            AbstractNodeManager::Audio(m) => m.update(table),
        }
    }
}

/// An update pass preserves a manager's well-formedness, its kind, and
/// the signal table's length and value bounds.
pub proof fn lemma_manager_update_preserves(m: NodeManagerView, t: Seq<Option<SignalValue>>)
    requires
        m.wf(t.len() as int),
        table_wf(t),
    ensures
        ({
            let (m2, t2) = m.spec_update(t);
            &&& m2.wf(t.len() as int)
            &&& m2.spec_kind() == m.spec_kind()
            &&& t2.len() == t.len()
            &&& table_wf(t2)
        }),
{
    match m {
        NodeManagerView::Rect(rm) => {
            crate::rect::lemma_update_rects_preserves(rm.rects, t, t.len() as int);
        },
        NodeManagerView::Audio(am) => {
            crate::audio::lemma_update_audios_preserves(am.audios, t, t.len() as int);
        },
    }
}

/// The scene-side handle of one live node.
#[derive(Clone, Copy, Debug, PartialEq, Eq, Structural)]
pub enum SceneNode {
    Rect(crate::rect::Rect),
    Audio(crate::audio::Audio),
}

impl SceneNode {
    /// The kind of the node behind this handle.
    pub open spec fn spec_kind(self) -> NodeKind {
        match self {
            SceneNode::Rect(_) => NodeKind::Rect,
            SceneNode::Audio(_) => NodeKind::Audio,
        }
    }

    /// Channels inside a table of length `n`, caches well shaped.
    pub open spec fn wf(self, n: int) -> bool {
        match self {
            SceneNode::Rect(r) => r.wf(n),
            SceneNode::Audio(a) => a.wf(n),
        }
    }
}

/// The scene-side node handle wired from a builder and a `CreateRef`
/// reply, or a protocol violation when the reply's kind does not match
/// the builder's.
pub open spec fn spec_create_node_ref(b: NodeBuilderKind, raw: RawNode) -> Result<
    SceneNode,
    EngineError,
> {
    match (b, raw) {
        (NodeBuilderKind::Rect(rb), RawNode::Rect(rr)) => Ok(
            SceneNode::Rect(
                crate::rect::Rect {
                    position: crate::signal::Signal {
                        inner: rr.position,
                        value: crate::signal::SignalValue::Pair(rb.position.x, rb.position.y),
                    },
                    size: crate::signal::Signal {
                        inner: rr.size,
                        value: crate::signal::SignalValue::Pair(rb.size.x, rb.size.y),
                    },
                    color: crate::signal::Signal {
                        inner: rr.color,
                        value: crate::signal::SignalValue::Color(rb.color),
                    },
                    drop: crate::signal::Signal {
                        inner: rr.drop,
                        value: crate::signal::SignalValue::Unit,
                    },
                    dropped: false,
                },
            ),
        ),
        (NodeBuilderKind::Audio(_), RawNode::Audio(ra)) => Ok(
            SceneNode::Audio(
                crate::audio::Audio {
                    drop: crate::signal::Signal {
                        inner: ra.drop,
                        value: crate::signal::SignalValue::Unit,
                    },
                    dropped: false,
                },
            ),
        ),
        (_, _) => Err(EngineError::ProtocolViolation),
    }
}

/// Wires a builder to the `CreateRef` reply it belongs to.  A reply of
/// another kind is a protocol violation.
pub fn create_node_ref(builder: &NodeBuilderKind, raw: RawNode) -> (node: Result<
    SceneNode,
    EngineError,
>)
    ensures
        node == spec_create_node_ref(*builder, raw),
{
    match (builder, raw) {
        (NodeBuilderKind::Rect(rb), RawNode::Rect(rr)) => Ok(
            SceneNode::Rect(rb.create_node_ref(rr)),
        ),
        (NodeBuilderKind::Audio(ab), RawNode::Audio(ra)) => Ok(
            SceneNode::Audio(ab.create_node_ref(ra)),
        ),
        (_, _) => Err(EngineError::ProtocolViolation),
    }
}

} // verus!
