//! The rectangle node kind: builder, live-node state and manager.
//!
//! A rectangle node owns four signal channels (position, size, color and a
//! drop pulse).  Its manager keeps one entry per live rectangle together
//! with the derived mesh handed to the renderer, and a single pending slot
//! holding the consumer channels between a `CreateRef` reply and the
//! matching `CreateNode`.

use vstd::prelude::*;

use crate::color::Color;
use crate::engine_message::EngineError;
use crate::signal::{
    create_signal, table_wf, NSignal, Signal, SignalInner, SignalTable, SignalValue, COORD_LIMIT,
};

verus! {

/// A pair of fixed-point coordinates.
#[derive(Clone, Copy, Debug, PartialEq, Eq, Structural)]
pub struct Vec2 {
    pub x: i64,
    pub y: i64,
}

impl Vec2 {
    /// Both coordinates stay within [`COORD_LIMIT`].
    pub open spec fn wf(self) -> bool {
        &&& -COORD_LIMIT <= self.x <= COORD_LIMIT
        &&& -COORD_LIMIT <= self.y <= COORD_LIMIT
    }

    /// Builds a pair from its coordinates.
    pub fn new(x: i64, y: i64) -> (v: Vec2)
        ensures
            v == (Vec2 { x, y }),
    {
        Vec2 { x, y }
    }
}

/// What a scene provides to spawn one rectangle.
#[derive(Clone, Copy, Debug, PartialEq, Eq, Structural)]
pub struct RectBuilder {
    pub size: Vec2,
    pub color: Color,
    pub position: Vec2,
}

impl RectBuilder {
    /// Size and position are bounded coordinates.
    pub open spec fn wf(self) -> bool {
        self.size.wf() && self.position.wf()
    }

    /// A rectangle of the given size and color, centered at the origin.
    pub fn new(size: Vec2, color: Color) -> (b: RectBuilder)
        ensures
            b == (RectBuilder { size, color, position: Vec2 { x: 0, y: 0 } }),
    {
        RectBuilder { size, color, position: Vec2 { x: 0, y: 0 } }
    }

    /// The same rectangle moved to `position`.
    pub fn with_position(self, position: Vec2) -> (b: RectBuilder)
        ensures
            b == (RectBuilder { position, ..self }),
    {
        RectBuilder { position, ..self }
    }
}

/// The producer ends of one rectangle's channels, handed back to the scene
/// in reply to `CreateRef`.
#[derive(Clone, Copy, Debug, PartialEq, Eq, Structural)]
pub struct RawRect {
    pub position: SignalInner,
    pub size: SignalInner,
    pub color: SignalInner,
    pub drop: SignalInner,
}

/// The consumer ends of one rectangle's channels, kept by the manager.
#[derive(Clone, Copy, Debug, PartialEq, Eq, Structural)]
pub struct NRectInner {
    pub drop: NSignal,
    pub position: NSignal,
    pub size: NSignal,
    pub color: NSignal,
}

impl NRectInner {
    /// Every channel names a slot inside a table of length `n`.
    pub open spec fn wf(self, n: int) -> bool {
        &&& self.drop.slot < n
        &&& self.position.slot < n
        &&& self.size.slot < n
        &&& self.color.slot < n
    }
}

/// The consumer ends that belong to the same channels as `raw`.
pub open spec fn companion(raw: RawRect) -> NRectInner {
    NRectInner {
        drop: NSignal { slot: raw.drop.slot },
        position: NSignal { slot: raw.position.slot },
        size: NSignal { slot: raw.size.slot },
        color: NSignal { slot: raw.color.slot },
    }
}

/// One corner of a rectangle's mesh.
#[derive(Clone, Copy, Debug, PartialEq, Eq, Structural)]
pub struct RectVertex {
    pub position: Vec2,
    pub color: Color,
}

/// A rectangle's derived render state: its four corners in fan order.
#[derive(Clone, Copy, Debug, PartialEq, Eq, Structural)]
pub struct Mesh {
    pub v0: RectVertex,
    pub v1: RectVertex,
    pub v2: RectVertex,
    pub v3: RectVertex,
}

/// The four corners of the rectangle described by `b`, in fan order.
pub open spec fn spec_build_mesh(b: RectBuilder) -> Mesh
    recommends
        b.wf(),
{
    Mesh {
        v0: RectVertex {
            position: Vec2 {
                x: (-b.size.x + b.position.x) as i64,
                y: (-b.size.y + b.position.y) as i64,
            },
            color: b.color,
        },
        v1: RectVertex {
            position: Vec2 {
                x: (-b.size.x + b.position.x) as i64,
                y: (b.size.y + b.position.y) as i64,
            },
            color: b.color,
        },
        v2: RectVertex {
            position: Vec2 {
                x: (b.size.x + b.position.x) as i64,
                y: (b.size.y + b.position.y) as i64,
            },
            color: b.color,
        },
        v3: RectVertex {
            position: Vec2 {
                x: (b.size.x + b.position.x) as i64,
                y: (-b.size.y + b.position.y) as i64,
            },
            color: b.color,
        },
    }
}

/// Builds the four mesh corners of the rectangle described by `b`.
pub fn build_mesh(b: &RectBuilder) -> (m: Mesh)
    requires
        b.wf(),
    ensures
        m == spec_build_mesh(*b),
{
    Mesh {
        v0: RectVertex {
            position: Vec2 { x: -b.size.x + b.position.x, y: -b.size.y + b.position.y },
            color: b.color,
        },
        v1: RectVertex {
            position: Vec2 { x: -b.size.x + b.position.x, y: b.size.y + b.position.y },
            color: b.color,
        },
        v2: RectVertex {
            position: Vec2 { x: b.size.x + b.position.x, y: b.size.y + b.position.y },
            color: b.color,
        },
        v3: RectVertex {
            position: Vec2 { x: b.size.x + b.position.x, y: -b.size.y + b.position.y },
            color: b.color,
        },
    }
}

/// One live rectangle inside the manager: its current builder state, its
/// consumer channels and the mesh derived from the builder.
#[derive(Clone, Copy, Debug, PartialEq, Eq, Structural)]
pub struct NRect {
    pub builder: RectBuilder,
    pub inner: NRectInner,
    pub mesh: Mesh,
}

impl NRect {
    /// Builder bounded, channels inside a table of length `n`.
    pub open spec fn wf(self, n: int) -> bool {
        self.builder.wf() && self.inner.wf(n)
    }
}

/// The abstract state of a [`RectNodeManager`].
pub struct RectManagerView {
    pub rects: Seq<NRect>,
    pub pending: Option<NRectInner>,
}

/// The manager that owns every live rectangle.
#[derive(Debug)]
pub struct RectNodeManager {
    pub rects: Vec<NRect>,
    pub pending: Option<NRectInner>,
}

impl View for RectNodeManager {
    type V = RectManagerView;

    open spec fn view(&self) -> RectManagerView {
        RectManagerView { rects: self.rects@, pending: self.pending }
    }
}

impl Default for RectNodeManager {
    /// An empty manager with no live nodes and nothing pending.
    fn default() -> (r: RectNodeManager)
        ensures
            r@ == (RectManagerView { rects: Seq::<NRect>::empty(), pending: None }),
    {
        RectNodeManager { rects: Vec::new(), pending: None }
    }
}

impl RectManagerView {
    /// Every node and the pending entry stay inside a table of length `n`.
    pub open spec fn wf(self, n: int) -> bool {
        &&& forall|i: int| 0 <= i < self.rects.len() ==> (#[trigger] self.rects[i]).wf(n)
        &&& (self.pending matches Some(p) ==> p.wf(n))
    }

    /// The manager state, the signal table and the raw reply after
    /// allocating the channels of one new rectangle.
    pub open spec fn spec_create_node(self, t: Seq<Option<SignalValue>>) -> (
        RectManagerView,
        Seq<Option<SignalValue>>,
        RawRect,
    )
        recommends
            t.len() + 4 <= usize::MAX,
    {
        let raw = RawRect {
            position: SignalInner { slot: t.len() as usize },
            size: SignalInner { slot: (t.len() + 1) as usize },
            color: SignalInner { slot: (t.len() + 2) as usize },
            drop: SignalInner { slot: (t.len() + 3) as usize },
        };
        let t2 = t.push(None).push(None).push(None).push(None);
        (RectManagerView { rects: self.rects, pending: Some(companion(raw)) }, t2, raw)
    }

    /// The manager state after materializing one rectangle from `b`, and
    /// whether a pending entry was available.
    pub open spec fn spec_init_node(self, b: RectBuilder) -> (RectManagerView, bool) {
        match self.pending {
            Some(p) => (
                RectManagerView {
                    rects: self.rects.push(
                        NRect { builder: b, inner: p, mesh: spec_build_mesh(b) },
                    ),
                    pending: None,
                },
                true,
            ),
            None => (self, false),
        }
    }
}

impl RectNodeManager {
    /// Allocates the four signal channels of one new rectangle, stashes
    /// their consumer ends as the pending entry, and returns the producer
    /// ends.  The pending entry is exactly the companion of the returned
    /// producer set.
    pub fn create_node(&mut self, table: &mut SignalTable) -> (raw: RawRect)
        ensures
            final(self)@ == old(self)@.spec_create_node(old(table)@).0,
            final(table)@ == old(self)@.spec_create_node(old(table)@).1,
            raw == old(self)@.spec_create_node(old(table)@).2,
            final(self)@.pending == Some(companion(raw)),
    {
        let (nposition, position) = create_signal(table);
        let (nsize, size) = create_signal(table);
        let (ncolor, color) = create_signal(table);
        let (ndrop, drop) = create_signal(table);
        self.pending = Some(NRectInner { drop, position, size, color });
        RawRect { position: nposition, size: nsize, color: ncolor, drop: ndrop }
    }

    /// Materializes one rectangle from its builder, wiring it to the
    /// pending consumer channels.  Fails with a protocol violation when no
    /// `CreateRef` reply is pending.
    pub fn init_node(&mut self, builder: RectBuilder) -> (r: Result<(), EngineError>)
        requires
            builder.wf(),
        ensures
            final(self)@ == old(self)@.spec_init_node(builder).0,
            r == (if old(self)@.spec_init_node(builder).1 {
                Result::<(), EngineError>::Ok(())
            } else {
                Result::<(), EngineError>::Err(EngineError::ProtocolViolation)
            }),
    {
        match self.pending.take() {
            Some(inner) => {
                let mesh = build_mesh(&builder);
                self.rects.push(NRect { builder, inner, mesh });
                Ok(())
            },
            None => Err(EngineError::ProtocolViolation),
        }
    }
}

/// One rectangle processed against the signal table: its four channels are
/// read and cleared in order, fresh values are applied to the builder, the
/// node is removed when its drop channel pulsed, and the mesh is rebuilt
/// whenever any property changed.
pub open spec fn spec_update_one(r: NRect, t: Seq<Option<SignalValue>>) -> (
    Option<NRect>,
    Seq<Option<SignalValue>>,
)
    recommends
        r.inner.wf(t.len() as int),
{
    let pv = t[r.inner.position.slot as int];
    let t1 = t.update(r.inner.position.slot as int, None);
    let sv = t1[r.inner.size.slot as int];
    let t2 = t1.update(r.inner.size.slot as int, None);
    let cv = t2[r.inner.color.slot as int];
    let t3 = t2.update(r.inner.color.slot as int, None);
    let dv = t3[r.inner.drop.slot as int];
    let t4 = t3.update(r.inner.drop.slot as int, None);
    let b1 = match pv {
        Some(SignalValue::Pair(x, y)) => RectBuilder { position: Vec2 { x, y }, ..r.builder },
        _ => r.builder,
    };
    let b2 = match sv {
        Some(SignalValue::Pair(x, y)) => RectBuilder { size: Vec2 { x, y }, ..b1 },
        _ => b1,
    };
    let b3 = match cv {
        Some(SignalValue::Color(c)) => RectBuilder { color: c, ..b2 },
        _ => b2,
    };
    let changed = (pv matches Some(SignalValue::Pair(_, _))) || (sv matches Some(
        SignalValue::Pair(_, _),
    )) || (cv matches Some(SignalValue::Color(_)));
    if dv is Some {
        (None, t4)
    } else {
        (
            Some(
                NRect {
                    builder: b3,
                    inner: r.inner,
                    mesh: if changed {
                        spec_build_mesh(b3)
                    } else {
                        r.mesh
                    },
                },
            ),
            t4,
        )
    }
}

/// Every rectangle processed in order, front first.
pub open spec fn spec_update_rects(rs: Seq<NRect>, t: Seq<Option<SignalValue>>) -> (
    Seq<NRect>,
    Seq<Option<SignalValue>>,
)
    decreases rs.len(),
{
    if rs.len() == 0 {
        (Seq::<NRect>::empty(), t)
    } else {
        let (kept, t1) = spec_update_one(rs[0], t);
        let (rest, t2) = spec_update_rects(rs.subrange(1, rs.len() as int), t1);
        let out = match kept {
            Some(r) => seq![r] + rest,
            None => rest,
        };
        (out, t2)
    }
}

/// Processes one rectangle: drains its channels, applies changes, and
/// reports `None` when the node's drop channel pulsed.
fn update_one(r: NRect, table: &mut SignalTable) -> (kept: Option<NRect>)
    requires
        r.inner.wf(old(table)@.len() as int),
        r.builder.wf(),
        table_wf(old(table)@),
    ensures
        kept == spec_update_one(r, old(table)@).0,
        final(table)@ == spec_update_one(r, old(table)@).1,
        final(table)@.len() == old(table)@.len(),
        table_wf(final(table)@),
        kept matches Some(n) ==> n.wf(final(table)@.len() as int) && n.inner == r.inner,
{
    let pv = r.inner.position.get(table);
    let sv = r.inner.size.get(table);
    let cv = r.inner.color.get(table);
    let dv = r.inner.drop.get(table);
    let mut builder = r.builder;
    let mut rebuild = false;
    match pv {
        Some(SignalValue::Pair(x, y)) => {
            builder.position = Vec2 { x, y };
            rebuild = true;
        },
        _ => {},
    }
    match sv {
        Some(SignalValue::Pair(x, y)) => {
            builder.size = Vec2 { x, y };
            rebuild = true;
        },
        _ => {},
    }
    match cv {
        Some(SignalValue::Color(c)) => {
            builder.color = c;
            rebuild = true;
        },
        _ => {},
    }
    if dv.is_some() {
        return None;
    }
    let mesh = if rebuild {
        build_mesh(&builder)
    } else {
        r.mesh
    };
    Some(NRect { builder, inner: r.inner, mesh })
}

impl RectNodeManager {
    /// Drains every live rectangle's channels, applies fresh values,
    /// removes nodes whose drop channel pulsed, and rebuilds the mesh of
    /// every changed node.  The pending entry is untouched.
    pub fn update(&mut self, table: &mut SignalTable)
        requires
            old(self)@.wf(old(table)@.len() as int),
            table_wf(old(table)@),
        ensures
            final(self)@.rects == spec_update_rects(old(self)@.rects, old(table)@).0,
            final(table)@ == spec_update_rects(old(self)@.rects, old(table)@).1,
            final(self)@.pending == old(self)@.pending,
            final(table)@.len() == old(table)@.len(),
            table_wf(final(table)@),
            final(self)@.wf(final(table)@.len() as int),
    {
        let ghost rs0 = self.rects@;
        let ghost t0 = table@;
        proof {
            assert forall|i: int| 0 <= i < self.rects@.len() implies (#[trigger] self.rects@[i]).wf(
                t0.len() as int,
            ) by {
                assert(old(self)@.rects[i].wf(t0.len() as int));
            };
        }
        let mut kept: Vec<NRect> = Vec::new();
        while self.rects.len() > 0
            invariant
                table@.len() == t0.len(),
                table_wf(table@),
                self.pending == old(self)@.pending,
                forall|i: int| 0 <= i < self.rects@.len() ==> (#[trigger] self.rects@[i]).wf(
                    t0.len() as int,
                ),
                forall|i: int| 0 <= i < kept@.len() ==> (#[trigger] kept@[i]).wf(t0.len() as int),
                spec_update_rects(rs0, t0).0 == kept@ + spec_update_rects(self.rects@, table@).0,
                spec_update_rects(rs0, t0).1 == spec_update_rects(self.rects@, table@).1,
            decreases self.rects.len(),
        {
            let ghost rs_pre = self.rects@;
            let ghost t_pre = table@;
            let r = self.rects.remove(0);
            let res = update_one(r, table);
            proof {
                assert(self.rects@ == rs_pre.subrange(1, rs_pre.len() as int));
            }
            match res {
                Some(nr) => {
                    kept.push(nr);
                    proof {
                        let rest = spec_update_rects(self.rects@, table@).0;
                        assert(kept@ + rest =~= kept@.drop_last() + (seq![nr] + rest));
                    }
                },
                None => {},
            }
        }
        proof {
            assert(spec_update_rects(self.rects@, table@).0 =~= Seq::<NRect>::empty());
            assert(kept@ + Seq::<NRect>::empty() =~= kept@);
        }
        self.rects = kept;
    }
}

/// The scene-side handle of one live rectangle: the producer ends of its
/// channels, each caching the latest value sent.
#[derive(Clone, Copy, Debug, PartialEq, Eq, Structural)]
pub struct Rect {
    pub position: Signal,
    pub size: Signal,
    pub color: Signal,
    pub drop: Signal,
    /// Whether the drop pulse has been sent.
    pub dropped: bool,
}

impl Rect {
    /// Channels inside a table of length `n`, caches holding bounded values
    /// of the right shape.
    pub open spec fn wf(self, n: int) -> bool {
        &&& self.position.inner.slot < n
        &&& self.size.inner.slot < n
        &&& self.color.inner.slot < n
        &&& self.drop.inner.slot < n
        &&& (self.position.value matches SignalValue::Pair(_, _))
        &&& self.position.value.wf()
        &&& (self.size.value matches SignalValue::Pair(_, _))
        &&& self.size.value.wf()
        &&& self.color.value matches SignalValue::Color(_)
        &&& self.drop.value matches SignalValue::Unit
    }

    /// Sends the drop pulse; the manager removes the node at its next
    /// update pass.
    pub fn drop(&mut self, table: &mut SignalTable)
        requires
            old(self).drop.inner.slot < old(table)@.len(),
        ensures
            *final(self) == (Rect {
                drop: old(self).drop.spec_set(SignalValue::Unit),
                dropped: true,
                ..*old(self)
            }),
            final(table)@ == old(table)@.update(
                old(self).drop.inner.slot as int,
                Some(SignalValue::Unit),
            ),
    {
        self.drop.set(table, SignalValue::Unit);
        self.dropped = true;
    }
}

impl RectBuilder {
    /// Wires a `CreateRef` reply to this builder's initial values,
    /// producing the scene-side handle of the new rectangle.
    pub fn create_node_ref(&self, raw: RawRect) -> (node: Rect)
        ensures
            node == (Rect {
                position: Signal {
                    inner: raw.position,
                    value: SignalValue::Pair(self.position.x, self.position.y),
                },
                size: Signal {
                    inner: raw.size,
                    value: SignalValue::Pair(self.size.x, self.size.y),
                },
                color: Signal { inner: raw.color, value: SignalValue::Color(self.color) },
                drop: Signal { inner: raw.drop, value: SignalValue::Unit },
                dropped: false,
            }),
    {
        Rect {
            position: Signal::new(
                raw.position,
                SignalValue::Pair(self.position.x, self.position.y),
            ),
            size: Signal::new(raw.size, SignalValue::Pair(self.size.x, self.size.y)),
            color: Signal::new(raw.color, SignalValue::Color(self.color)),
            drop: Signal::new(raw.drop, SignalValue::Unit),
            dropped: false,
        }
    }
}

/// An update pass leaves the signal table's length unchanged, keeps every
/// stored value well-formed, and keeps every surviving node well-formed.
pub proof fn lemma_update_rects_preserves(rs: Seq<NRect>, t: Seq<Option<SignalValue>>, n: int)
    requires
        n == t.len(),
        table_wf(t),
        forall|i: int| 0 <= i < rs.len() ==> (#[trigger] rs[i]).wf(n),
    ensures
        spec_update_rects(rs, t).1.len() == t.len(),
        table_wf(spec_update_rects(rs, t).1),
        forall|i: int|
            0 <= i < spec_update_rects(rs, t).0.len() ==> (
            #[trigger] spec_update_rects(rs, t).0[i]).wf(n),
    decreases rs.len(),
{
    if rs.len() > 0 {
        let r = rs[0];
        assert(r.wf(n));
        let (kept, t1) = spec_update_one(r, t);
        assert(t1.len() == t.len());
        assert(table_wf(t1)) by {
            assert forall|i: int| 0 <= i < t1.len() implies (#[trigger] t1[i] matches Some(v)
                ==> v.wf()) by {
                if t1[i] is Some {
                    assert(t[i] == t1[i]);
                    assert(t[i] matches Some(v) ==> v.wf());
                }
            };
        }
        assert(kept matches Some(k) ==> k.wf(n)) by {
            assert(t[r.inner.position.slot as int] matches Some(v) ==> v.wf());
            assert(t[r.inner.size.slot as int] matches Some(v) ==> v.wf());
            assert(t[r.inner.color.slot as int] matches Some(v) ==> v.wf());
            let t1a = t.update(r.inner.position.slot as int, None);
            assert(t1a[r.inner.size.slot as int] matches Some(v) ==> v.wf());
            let t2a = t1a.update(r.inner.size.slot as int, None);
            assert(t2a[r.inner.color.slot as int] matches Some(v) ==> v.wf());
        }
        let rest = rs.subrange(1, rs.len() as int);
        assert forall|i: int| 0 <= i < rest.len() implies (#[trigger] rest[i]).wf(n) by {
            assert(rs[i + 1].wf(n));
        };
        lemma_update_rects_preserves(rest, t1, n);
        let (out_rest, t2) = spec_update_rects(rest, t1);
        let out = spec_update_rects(rs, t).0;
        assert forall|i: int| 0 <= i < out.len() implies (#[trigger] out[i]).wf(n) by {
            match kept {
                Some(k) => {
                    if i > 0 {
                        assert(out[i] == out_rest[i - 1]);
                    }
                },
                None => {
                    assert(out[i] == out_rest[i]);
                },
            }
        };
    }
}

/// Whether `s` is one of the four slots of this consumer set.
pub open spec fn owns_slot(inner: NRectInner, s: int) -> bool {
    ||| inner.drop.slot == s
    ||| inner.position.slot == s
    ||| inner.size.slot == s
    ||| inner.color.slot == s
}

/// No two distinct live rectangles share a signal slot.  The engine's
/// allocator hands out fresh slots, so every reachable manager state
/// satisfies this.
pub open spec fn rects_channels_disjoint(rs: Seq<NRect>) -> bool {
    forall|i: int, j: int, s: int|
        0 <= i < rs.len() && 0 <= j < rs.len() && i != j && #[trigger] owns_slot(rs[i].inner, s)
            ==> !#[trigger] owns_slot(rs[j].inner, s)
}

/// Every slot a rectangle owns is inside the table and reads the same in
/// `t` as in `t0`.
pub open spec fn agrees_on_channels(
    rs: Seq<NRect>,
    t: Seq<Option<SignalValue>>,
    t0: Seq<Option<SignalValue>>,
) -> bool {
    forall|i: int, s: int|
        0 <= i < rs.len() && #[trigger] owns_slot(rs[i].inner, s) ==> 0 <= s < t.len() && t[s]
            == t0[s]
}

/// Every rectangle processed against the original table `t0`: with
/// disjoint channels the update pass reads each node's own channels
/// untouched by its neighbours, so this is what an update pass computes.
pub open spec fn spec_update_each(rs: Seq<NRect>, t0: Seq<Option<SignalValue>>) -> Seq<NRect>
    decreases rs.len(),
{
    if rs.len() == 0 {
        Seq::<NRect>::empty()
    } else {
        let rest = spec_update_each(rs.subrange(1, rs.len() as int), t0);
        match spec_update_one(rs[0], t0).0 {
            Some(r) => seq![r] + rest,
            None => rest,
        }
    }
}

/// With pairwise-disjoint channels, an update pass treats every
/// rectangle against the original table: clearing one node's channels
/// cannot change what any other node reads.
pub proof fn lemma_update_rects_channelwise(
    rs: Seq<NRect>,
    t: Seq<Option<SignalValue>>,
    t0: Seq<Option<SignalValue>>,
)
    requires
        t.len() == t0.len(),
        rects_channels_disjoint(rs),
        agrees_on_channels(rs, t, t0),
    ensures
        spec_update_rects(rs, t).0 == spec_update_each(rs, t0),
    decreases rs.len(),
{
    if rs.len() > 0 {
        let r = rs[0];
        assert(owns_slot(r.inner, r.inner.position.slot as int));
        assert(owns_slot(r.inner, r.inner.size.slot as int));
        assert(owns_slot(r.inner, r.inner.color.slot as int));
        assert(owns_slot(r.inner, r.inner.drop.slot as int));
        let (kept, t1) = spec_update_one(r, t);
        let (kept0, t1_unused) = spec_update_one(r, t0);
        assert(kept == kept0) by {
            assert(t[r.inner.position.slot as int] == t0[r.inner.position.slot as int]);
            assert(t[r.inner.size.slot as int] == t0[r.inner.size.slot as int]);
            assert(t[r.inner.color.slot as int] == t0[r.inner.color.slot as int]);
            assert(t[r.inner.drop.slot as int] == t0[r.inner.drop.slot as int]);
        }
        let rest = rs.subrange(1, rs.len() as int);
        assert(rects_channels_disjoint(rest)) by {
            assert forall|i: int, j: int, s: int|
                0 <= i < rest.len() && 0 <= j < rest.len() && i != j && #[trigger] owns_slot(
                    rest[i].inner,
                    s,
                ) implies !#[trigger] owns_slot(rest[j].inner, s) by {
                assert(rest[i] == rs[i + 1]);
                assert(rest[j] == rs[j + 1]);
                assert(owns_slot(rs[i + 1].inner, s) ==> !owns_slot(rs[j + 1].inner, s));
            };
        }
        assert(agrees_on_channels(rest, t1, t0)) by {
            assert forall|i: int, s: int|
                0 <= i < rest.len() && #[trigger] owns_slot(rest[i].inner, s) implies 0 <= s
                < t1.len() && t1[s] == t0[s] by {
                assert(rest[i] == rs[i + 1]);
                assert(owns_slot(rs[i + 1].inner, s));
                assert(!owns_slot(rs[0].inner, s));
                assert(t[s] == t0[s]);
                assert(t1[s] == t[s]);
            };
        }
        lemma_update_rects_channelwise(rest, t1, t0);
        assert(spec_update_each(rs, t) == spec_update_each(rs, t));
    }
}

/// The four channels of one consumer set are pairwise distinct.  The
/// engine's allocator hands each node four fresh slots, so every
/// reachable consumer set satisfies this.
pub open spec fn inner_channels_distinct(inner: NRectInner) -> bool {
    &&& inner.drop.slot != inner.position.slot
    &&& inner.drop.slot != inner.size.slot
    &&& inner.drop.slot != inner.color.slot
    &&& inner.position.slot != inner.size.slot
    &&& inner.position.slot != inner.color.slot
    &&& inner.size.slot != inner.color.slot
}

/// A live rectangle whose color channel holds `c` and whose drop channel
/// is empty survives an update pass with `c` applied to its builder and
/// its mesh rebuilt from the updated builder.
pub proof fn lemma_update_applies_color(rs: Seq<NRect>, t: Seq<Option<SignalValue>>, i: int)
    requires
        rects_channels_disjoint(rs),
        agrees_on_channels(rs, t, t),
        0 <= i < rs.len(),
        inner_channels_distinct(rs[i].inner),
        t[rs[i].inner.color.slot as int] matches Some(cv) && cv is Color,
        t[rs[i].inner.drop.slot as int] is None,
    ensures
        ({
            let out = spec_update_rects(rs, t).0;
            exists|j: int|
                0 <= j < out.len() && (#[trigger] out[j]).inner == rs[i].inner
                    && out[j].builder.color == t[rs[i].inner.color.slot as int]->Some_0->Color_0
                    && out[j].mesh == spec_build_mesh(out[j].builder)
        }),
{
    lemma_update_rects_channelwise(rs, t, t);
    let r = rs[i];
    assert(owns_slot(r.inner, r.inner.position.slot as int));
    assert(owns_slot(r.inner, r.inner.size.slot as int));
    assert(owns_slot(r.inner, r.inner.color.slot as int));
    assert(owns_slot(r.inner, r.inner.drop.slot as int));
    assert(r.inner.wf(t.len() as int));
    lemma_update_each_keeps(rs, t, i);
    let out = spec_update_each(rs, t);
    let j0 = choose|j: int|
        0 <= j < out.len() && #[trigger] out[j] == spec_update_one(rs[i], t).0->Some_0;
    let kept = spec_update_one(r, t).0->Some_0;
    assert(t.update(r.inner.position.slot as int, None)[r.inner.size.slot as int]
        == t[r.inner.size.slot as int]);
    assert(t.update(r.inner.position.slot as int, None).update(
        r.inner.size.slot as int,
        None,
    )[r.inner.color.slot as int] == t[r.inner.color.slot as int]);
    assert(kept.inner == r.inner);
    assert(kept.builder.color == t[r.inner.color.slot as int]->Some_0->Color_0);
    assert(kept.mesh == spec_build_mesh(kept.builder));
    assert(spec_update_rects(rs, t).0[j0] == kept);
}

/// A rectangle whose drop channel is empty appears in the channelwise
/// update result, processed against the original table.
proof fn lemma_update_each_keeps(rs: Seq<NRect>, t: Seq<Option<SignalValue>>, i: int)
    requires
        0 <= i < rs.len(),
        rs[i].inner.wf(t.len() as int),
        t[rs[i].inner.drop.slot as int] is None,
    ensures
        ({
            let out = spec_update_each(rs, t);
            exists|j: int|
                0 <= j < out.len() && #[trigger] out[j] == spec_update_one(rs[i], t).0->Some_0
        }),
    decreases rs.len(),
{
    let out = spec_update_each(rs, t);
    let rest = rs.subrange(1, rs.len() as int);
    if i == 0 {
        let r = rs[0];
        let t3 = t.update(r.inner.position.slot as int, None).update(
            r.inner.size.slot as int,
            None,
        ).update(r.inner.color.slot as int, None);
        assert(t3[r.inner.drop.slot as int] is None);
        assert(spec_update_one(r, t).0 is Some);
        assert(out[0] == spec_update_one(rs[0], t).0->Some_0);
    } else {
        assert(rest[i - 1] == rs[i]);
        lemma_update_each_keeps(rest, t, i - 1);
        let sub = spec_update_each(rest, t);
        let j0 = choose|j: int|
            0 <= j < sub.len() && #[trigger] sub[j] == spec_update_one(rest[i - 1], t).0->Some_0;
        match spec_update_one(rs[0], t).0 {
            Some(r) => {
                assert(out[j0 + 1] == sub[j0]);
            },
            None => {
                assert(out[j0] == sub[j0]);
            },
        }
    }
}

/// A live rectangle whose drop channel pulsed is removed by an update
/// pass: no survivor carries its consumer channels.
pub proof fn lemma_update_removes_dropped(rs: Seq<NRect>, t: Seq<Option<SignalValue>>, i: int)
    requires
        rects_channels_disjoint(rs),
        agrees_on_channels(rs, t, t),
        0 <= i < rs.len(),
        inner_channels_distinct(rs[i].inner),
        t[rs[i].inner.drop.slot as int] is Some,
    ensures
        ({
            let out = spec_update_rects(rs, t).0;
            forall|j: int| 0 <= j < out.len() ==> (#[trigger] out[j]).inner != rs[i].inner
        }),
{
    lemma_update_rects_channelwise(rs, t, t);
    assert(owns_slot(rs[i].inner, rs[i].inner.position.slot as int));
    assert(owns_slot(rs[i].inner, rs[i].inner.size.slot as int));
    assert(owns_slot(rs[i].inner, rs[i].inner.color.slot as int));
    assert(owns_slot(rs[i].inner, rs[i].inner.drop.slot as int));
    assert(rs[i].inner.wf(t.len() as int));
    lemma_update_each_drops(rs, t, i);
}

/// The channelwise update result never contains the consumer channels of
/// a rectangle whose drop channel pulsed.
proof fn lemma_update_each_drops(rs: Seq<NRect>, t: Seq<Option<SignalValue>>, i: int)
    requires
        rects_channels_disjoint(rs),
        0 <= i < rs.len(),
        rs[i].inner.wf(t.len() as int),
        inner_channels_distinct(rs[i].inner),
        t[rs[i].inner.drop.slot as int] is Some,
    ensures
        ({
            let out = spec_update_each(rs, t);
            forall|j: int| 0 <= j < out.len() ==> (#[trigger] out[j]).inner != rs[i].inner
        }),
    decreases rs.len(),
{
    let out = spec_update_each(rs, t);
    let rest = rs.subrange(1, rs.len() as int);
    if i == 0 {
        // The dropped rectangle itself is filtered out: its own drop read
        // is unharmed by the three earlier clears, so nothing of it
        // survives; every survivor comes from another rectangle, whose
        // channels are disjoint from it.
        let r = rs[0];
        let t3 = t.update(r.inner.position.slot as int, None).update(
            r.inner.size.slot as int,
            None,
        ).update(r.inner.color.slot as int, None);
        assert(t3[r.inner.drop.slot as int] == t[r.inner.drop.slot as int]);
        assert(spec_update_one(r, t).0 is None);
        lemma_update_each_elements(rest, t);
        assert forall|j: int| 0 <= j < out.len() implies (#[trigger] out[j]).inner
            != rs[i].inner by {
            assert(out[j] == spec_update_each(rest, t)[j]);
            let k = choose|k: int|
                0 <= k < rest.len() && (#[trigger] rest[k]).inner == out[j].inner;
            assert(rest[k] == rs[k + 1]);
            assert(owns_slot(rs[k + 1].inner, rs[k + 1].inner.drop.slot as int));
            assert(!owns_slot(rs[0].inner, rs[k + 1].inner.drop.slot as int));
        };
    } else {
        assert(rects_channels_disjoint(rest)) by {
            assert forall|a: int, b: int, s: int|
                0 <= a < rest.len() && 0 <= b < rest.len() && a != b && #[trigger] owns_slot(
                    rest[a].inner,
                    s,
                ) implies !#[trigger] owns_slot(rest[b].inner, s) by {
                assert(rest[a] == rs[a + 1]);
                assert(rest[b] == rs[b + 1]);
                assert(owns_slot(rs[a + 1].inner, s) ==> !owns_slot(rs[b + 1].inner, s));
            };
        }
        assert(rest[i - 1] == rs[i]);
        lemma_update_each_drops(rest, t, i - 1);
        let sub = spec_update_each(rest, t);
        assert forall|j: int| 0 <= j < out.len() implies (#[trigger] out[j]).inner
            != rs[i].inner by {
            match spec_update_one(rs[0], t).0 {
                Some(r0) => {
                    if j == 0 {
                        assert(out[0].inner == rs[0].inner);
                        assert(owns_slot(rs[0].inner, rs[0].inner.drop.slot as int));
                        assert(!owns_slot(rs[i].inner, rs[0].inner.drop.slot as int));
                    } else {
                        assert(out[j] == sub[j - 1]);
                        assert(sub[j - 1].inner != rest[i - 1].inner);
                    }
                },
                None => {
                    assert(out[j] == sub[j]);
                    assert(sub[j].inner != rest[i - 1].inner);
                },
            }
        };
    }
}

/// Every element of the channelwise update result carries the consumer
/// channels of one of the processed rectangles.
proof fn lemma_update_each_elements(rs: Seq<NRect>, t: Seq<Option<SignalValue>>)
    ensures
        ({
            let out = spec_update_each(rs, t);
            forall|j: int|
                0 <= j < out.len() ==> exists|k: int|
                    0 <= k < rs.len() && (#[trigger] rs[k]).inner == (#[trigger] out[j]).inner
        }),
    decreases rs.len(),
{
    if rs.len() > 0 {
        let rest = rs.subrange(1, rs.len() as int);
        lemma_update_each_elements(rest, t);
        let sub = spec_update_each(rest, t);
        let out = spec_update_each(rs, t);
        assert forall|j: int|
            0 <= j < out.len() implies exists|k: int|
            0 <= k < rs.len() && (#[trigger] rs[k]).inner == (#[trigger] out[j]).inner by {
            match spec_update_one(rs[0], t).0 {
                Some(r0) => {
                    if j == 0 {
                        assert(rs[0].inner == out[0].inner);
                    } else {
                        assert(out[j] == sub[j - 1]);
                        let k = choose|k: int|
                            0 <= k < rest.len() && (#[trigger] rest[k]).inner == sub[j
                                - 1].inner;
                        assert(rs[k + 1].inner == out[j].inner);
                    }
                },
                None => {
                    assert(out[j] == sub[j]);
                    let k = choose|k: int|
                        0 <= k < rest.len() && (#[trigger] rest[k]).inner == sub[j].inner;
                    assert(rs[k + 1].inner == out[j].inner);
                },
            }
        };
    }
}

/// A `CreateRef` immediately followed by the matching `CreateNode` yields a
/// node wired to exactly the channels whose producer ends the `CreateRef`
/// reply carried: the new node's consumer ends are the companions of that
/// reply, the four channels are pairwise distinct — a value sent on a
/// returned producer end is deliverable only to the matching consumer —
/// and no cross-wiring happens through the pending slot.
pub proof fn lemma_no_cross_wiring(m: RectManagerView, t: Seq<Option<SignalValue>>, b: RectBuilder)
    requires
        t.len() + 4 <= usize::MAX,
    ensures
        ({
            let (m1, t1, raw) = m.spec_create_node(t);
            let (m2, ok) = m1.spec_init_node(b);
            &&& ok
            &&& m2.rects.len() == m.rects.len() + 1
            &&& m2.rects.last().inner == companion(raw)
            &&& m2.rects.last().builder == b
            &&& m2.pending is None
            &&& raw.position.slot != raw.size.slot
            &&& raw.position.slot != raw.color.slot
            &&& raw.position.slot != raw.drop.slot
            &&& raw.size.slot != raw.color.slot
            &&& raw.size.slot != raw.drop.slot
            &&& raw.color.slot != raw.drop.slot
        }),
{
}

} // verus!
