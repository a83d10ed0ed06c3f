//! The audio node kind: builder, live-node state and manager.
//!
//! An audio node exposes a single drop channel to its scene; sample decoding
//! and mixing belong to the media layer outside this core, so the manager
//! tracks only which clips are live.

use vstd::prelude::*;

use crate::engine_message::EngineError;
use crate::signal::{create_signal, table_wf, NSignal, Signal, SignalInner, SignalTable, SignalValue};

verus! {

/// What a scene provides to spawn one audio clip.
#[derive(Clone, Copy, Debug, PartialEq, Eq, Structural)]
pub struct AudioBuilder {
    /// An opaque handle naming the media stream the clip plays; the
    /// scheduler core never interprets it.
    pub stream: u64,
}

impl AudioBuilder {
    /// A clip playing the stream named by `stream`.
    pub fn new(stream: u64) -> (b: AudioBuilder)
        ensures
            b == (AudioBuilder { stream }),
    {
        AudioBuilder { stream }
    }
}

/// The producer end of one clip's drop channel.
#[derive(Clone, Copy, Debug, PartialEq, Eq, Structural)]
pub struct RawAudio {
    pub drop: SignalInner,
}

/// One live clip inside the manager.
#[derive(Clone, Copy, Debug, PartialEq, Eq, Structural)]
pub struct NAudio {
    pub builder: AudioBuilder,
    pub drop: NSignal,
}

impl NAudio {
    /// The drop channel names a slot inside a table of length `n`.
    pub open spec fn wf(self, n: int) -> bool {
        self.drop.slot < n
    }
}

/// The abstract state of an [`AudioNodeManager`].
pub struct AudioManagerView {
    pub audios: Seq<NAudio>,
    pub pending: Option<NSignal>,
}

/// The manager that owns every live audio clip.
#[derive(Debug)]
pub struct AudioNodeManager {
    pub audios: Vec<NAudio>,
    pub pending: Option<NSignal>,
}

impl View for AudioNodeManager {
    type V = AudioManagerView;

    open spec fn view(&self) -> AudioManagerView {
        AudioManagerView { audios: self.audios@, pending: self.pending }
    }
}

impl Default for AudioNodeManager {
    /// An empty manager with no live clips and nothing pending.
    fn default() -> (r: AudioNodeManager)
        ensures
            r@ == (AudioManagerView { audios: Seq::<NAudio>::empty(), pending: None }),
    {
        AudioNodeManager { audios: Vec::new(), pending: None }
    }
}

impl AudioManagerView {
    /// Every clip and the pending entry stay inside a table of length `n`.
    pub open spec fn wf(self, n: int) -> bool {
        &&& forall|i: int| 0 <= i < self.audios.len() ==> (#[trigger] self.audios[i]).wf(n)
        &&& (self.pending matches Some(p) ==> p.slot < n)
    }

    /// The manager state, the signal table and the raw reply after
    /// allocating the drop channel of one new clip.
    pub open spec fn spec_create_node(self, t: Seq<Option<SignalValue>>) -> (
        AudioManagerView,
        Seq<Option<SignalValue>>,
        RawAudio,
    )
        recommends
            t.len() + 1 <= usize::MAX,
    {
        let raw = RawAudio { drop: SignalInner { slot: t.len() as usize } };
        (
            AudioManagerView {
                audios: self.audios,
                pending: Some(NSignal { slot: t.len() as usize }),
            },
            t.push(None),
            raw,
        )
    }

    /// The manager state after materializing one clip from `b`, and whether
    /// a pending entry was available.
    pub open spec fn spec_init_node(self, b: AudioBuilder) -> (AudioManagerView, bool) {
        match self.pending {
            Some(p) => (
                AudioManagerView {
                    audios: self.audios.push(NAudio { builder: b, drop: p }),
                    pending: None,
                },
                true,
            ),
            None => (self, false),
        }
    }
}

impl AudioNodeManager {
    /// Allocates the drop channel of one new clip, stashes its consumer end
    /// as the pending entry, and returns the producer end.
    pub fn create_node(&mut self, table: &mut SignalTable) -> (raw: RawAudio)
        ensures
            final(self)@ == old(self)@.spec_create_node(old(table)@).0,
            final(table)@ == old(self)@.spec_create_node(old(table)@).1,
            raw == old(self)@.spec_create_node(old(table)@).2,
            final(self)@.pending == Some(NSignal { slot: raw.drop.slot }),
    {
        let (ndrop, drop) = create_signal(table);
        self.pending = Some(drop);
        RawAudio { drop: ndrop }
    }

    /// Materializes one clip from its builder, wiring it to the pending
    /// drop channel.  Fails with a protocol violation when no `CreateRef`
    /// reply is pending.
    pub fn init_node(&mut self, builder: AudioBuilder) -> (r: Result<(), EngineError>)
        ensures
            final(self)@ == old(self)@.spec_init_node(builder).0,
            r == (if old(self)@.spec_init_node(builder).1 {
                Result::<(), EngineError>::Ok(())
            } else {
                Result::<(), EngineError>::Err(EngineError::ProtocolViolation)
            }),
    {
        match self.pending.take() {
            Some(drop) => {
                self.audios.push(NAudio { builder, drop });
                Ok(())
            },
            None => Err(EngineError::ProtocolViolation),
        }
    }
}

/// One clip processed against the signal table: its drop channel is read
/// and cleared, and the clip is removed when the channel pulsed.
pub open spec fn spec_update_one(a: NAudio, t: Seq<Option<SignalValue>>) -> (
    Option<NAudio>,
    Seq<Option<SignalValue>>,
)
    recommends
        a.wf(t.len() as int),
{
    let dv = t[a.drop.slot as int];
    let t1 = t.update(a.drop.slot as int, None);
    if dv is Some {
        (None, t1)
    } else {
        (Some(a), t1)
    }
}

/// Every clip processed in order, front first.
pub open spec fn spec_update_audios(rs: Seq<NAudio>, t: Seq<Option<SignalValue>>) -> (
    Seq<NAudio>,
    Seq<Option<SignalValue>>,
)
    decreases rs.len(),
{
    if rs.len() == 0 {
        (Seq::<NAudio>::empty(), t)
    } else {
        let (kept, t1) = spec_update_one(rs[0], t);
        let (rest, t2) = spec_update_audios(rs.subrange(1, rs.len() as int), t1);
        let out = match kept {
            Some(a) => seq![a] + rest,
            None => rest,
        };
        (out, t2)
    }
}

impl AudioNodeManager {
    /// Drains every live clip's drop channel and removes the clips whose
    /// channel pulsed.  The pending entry is untouched.
    pub fn update(&mut self, table: &mut SignalTable)
        requires
            old(self)@.wf(old(table)@.len() as int),
            table_wf(old(table)@),
        ensures
            final(self)@.audios == spec_update_audios(old(self)@.audios, old(table)@).0,
            final(table)@ == spec_update_audios(old(self)@.audios, old(table)@).1,
            final(self)@.pending == old(self)@.pending,
            final(table)@.len() == old(table)@.len(),
            table_wf(final(table)@),
            final(self)@.wf(final(table)@.len() as int),
    {
        let ghost rs0 = self.audios@;
        let ghost t0 = table@;
        proof {
            assert forall|i: int| 0 <= i < self.audios@.len() implies (
            #[trigger] self.audios@[i]).wf(t0.len() as int) by {
                assert(old(self)@.audios[i].wf(t0.len() as int));
            };
        }
        let mut kept: Vec<NAudio> = Vec::new();
        while self.audios.len() > 0
            invariant
                table@.len() == t0.len(),
                table_wf(table@),
                self.pending == old(self)@.pending,
                forall|i: int| 0 <= i < self.audios@.len() ==> (#[trigger] self.audios@[i]).wf(
                    t0.len() as int,
                ),
                forall|i: int| 0 <= i < kept@.len() ==> (#[trigger] kept@[i]).wf(t0.len() as int),
                spec_update_audios(rs0, t0).0 == kept@ + spec_update_audios(
                    self.audios@,
                    table@,
                ).0,
                spec_update_audios(rs0, t0).1 == spec_update_audios(self.audios@, table@).1,
            decreases self.audios.len(),
        {
            let ghost rs_pre = self.audios@;
            let a = self.audios.remove(0);
            let dv = a.drop.get(table);
            proof {
                assert(self.audios@ == rs_pre.subrange(1, rs_pre.len() as int));
            }
            if dv.is_none() {
                kept.push(a);
                proof {
                    let rest = spec_update_audios(self.audios@, table@).0;
                    assert(kept@ + rest =~= kept@.drop_last() + (seq![a] + rest));
                }
            }
        }
        proof {
            assert(spec_update_audios(self.audios@, table@).0 =~= Seq::<NAudio>::empty());
            assert(kept@ + Seq::<NAudio>::empty() =~= kept@);
        }
        self.audios = kept;
    }
}

/// The scene-side handle of one live audio clip.
#[derive(Clone, Copy, Debug, PartialEq, Eq, Structural)]
pub struct Audio {
    pub drop: Signal,
    /// Whether the drop pulse has been sent.
    pub dropped: bool,
}

impl Audio {
    /// Channel inside a table of length `n`, cache holding the pulse shape.
    pub open spec fn wf(self, n: int) -> bool {
        &&& self.drop.inner.slot < n
        &&& self.drop.value matches SignalValue::Unit
    }

    /// Sends the drop pulse; the manager removes the clip at its next
    /// update pass.
    pub fn drop(&mut self, table: &mut SignalTable)
        requires
            old(self).drop.inner.slot < old(table)@.len(),
        ensures
            *final(self) == (Audio {
                drop: old(self).drop.spec_set(SignalValue::Unit),
                dropped: true,
            }),
            final(table)@ == old(table)@.update(
                old(self).drop.inner.slot as int,
                Some(SignalValue::Unit),
            ),
    {
        self.drop.set(table, SignalValue::Unit);
        self.dropped = true;
    }
}

impl AudioBuilder {
    /// Wires a `CreateRef` reply to this builder, producing the scene-side
    /// handle of the new clip.
    pub fn create_node_ref(&self, raw: RawAudio) -> (node: Audio)
        ensures
            node == (Audio {
                drop: Signal { inner: raw.drop, value: SignalValue::Unit },
                dropped: false,
            }),
    {
        Audio { drop: Signal::new(raw.drop, SignalValue::Unit), dropped: false }
    }
}

/// An update pass leaves the signal table's length unchanged, keeps every
/// stored value well-formed, and keeps every surviving clip well-formed.
pub proof fn lemma_update_audios_preserves(rs: Seq<NAudio>, t: Seq<Option<SignalValue>>, n: int)
    requires
        n == t.len(),
        table_wf(t),
        forall|i: int| 0 <= i < rs.len() ==> (#[trigger] rs[i]).wf(n),
    ensures
        spec_update_audios(rs, t).1.len() == t.len(),
        table_wf(spec_update_audios(rs, t).1),
        forall|i: int|
            0 <= i < spec_update_audios(rs, t).0.len() ==> (
            #[trigger] spec_update_audios(rs, t).0[i]).wf(n),
    decreases rs.len(),
{
    if rs.len() > 0 {
        let a = rs[0];
        assert(a.wf(n));
        let (kept, t1) = spec_update_one(a, t);
        assert(table_wf(t1)) by {
            assert forall|i: int| 0 <= i < t1.len() implies (#[trigger] t1[i] matches Some(v)
                ==> v.wf()) by {
                if t1[i] is Some {
                    assert(t[i] == t1[i]);
                    assert(t[i] matches Some(v) ==> v.wf());
                }
            };
        }
        let rest = rs.subrange(1, rs.len() as int);
        assert forall|i: int| 0 <= i < rest.len() implies (#[trigger] rest[i]).wf(n) by {
            assert(rs[i + 1].wf(n));
        };
        lemma_update_audios_preserves(rest, t1, n);
        let (out_rest, t2) = spec_update_audios(rest, t1);
        let out = spec_update_audios(rs, t).0;
        assert forall|i: int| 0 <= i < out.len() implies (#[trigger] out[i]).wf(n) by {
            match kept {
                Some(k) => {
                    if i > 0 {
                        assert(out[i] == out_rest[i - 1]);
                    }
                },
                None => {
                    assert(out[i] == out_rest[i]);
                },
            }
        };
    }
}

/// A `CreateRef` immediately followed by the matching `CreateNode` yields a
/// clip wired to exactly the drop channel whose producer end the
/// `CreateRef` reply carried, with no cross-wiring through the pending
/// slot.
pub proof fn lemma_no_cross_wiring(
    m: AudioManagerView,
    t: Seq<Option<SignalValue>>,
    b: AudioBuilder,
)
    ensures
        ({
            let (m1, t1, raw) = m.spec_create_node(t);
            let (m2, ok) = m1.spec_init_node(b);
            &&& ok
            &&& m2.audios.len() == m.audios.len() + 1
            &&& m2.audios.last().drop.slot == raw.drop.slot
            &&& m2.audios.last().builder == b
            &&& m2.pending is None
        }),
{
}

} // verus!
