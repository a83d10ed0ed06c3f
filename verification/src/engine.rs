//! The engine: the single owning scheduler.
//!
//! The engine owns the node-manager registry, the scene list, the message
//! inbox, the signal table and the list of parked `Present` waiters.  Once
//! per host tick the host calls [`Engine::run`]: the engine first releases
//! every waiter parked during the previous tick, then pumps messages and
//! polls runnable scenes until every still-running scene is parked again —
//! the frame is settled and the host may render and present.

use std::collections::VecDeque;
use vstd::prelude::*;

use crate::engine_message::{EngineError, EngineMessage, NodeKind};
use crate::info::Info;
use crate::node::{AbstractNodeManager, NodeManagerView};
use crate::scene::{SceneStatusView, SceneStep, SceneTask, SceneTaskView};
use crate::signal::{table_wf, SignalTable, SignalValue};

verus! {

/// One registered scene: its id and its task state.
#[derive(Debug)]
pub struct EngineScene {
    pub id: u64,
    pub task: SceneTask,
}

/// The abstract state of an [`EngineScene`].
pub struct EngineSceneView {
    pub id: u64,
    pub task: SceneTaskView,
}

impl View for EngineScene {
    type V = EngineSceneView;

    open spec fn view(&self) -> EngineSceneView {
        EngineSceneView { id: self.id, task: self.task@ }
    }
}

/// The single owning scheduler.
#[derive(Debug)]
pub struct Engine {
    pub scenes: Vec<EngineScene>,
    pub counter: u64,
    pub info: Info,
    pub nodes: Vec<AbstractNodeManager>,
    pub signals: SignalTable,
    pub inbox: VecDeque<(u64, EngineMessage)>,
    pub waiting: Vec<u64>,
}

/// The abstract state of an [`Engine`].
pub struct EngineView {
    pub scenes: Seq<EngineSceneView>,
    pub counter: u64,
    pub info: Info,
    pub nodes: Seq<NodeManagerView>,
    pub signals: Seq<Option<SignalValue>>,
    pub inbox: Seq<(u64, EngineMessage)>,
    pub waiting: Seq<u64>,
}

impl View for Engine {
    type V = EngineView;

    open spec fn view(&self) -> EngineView {
        EngineView {
            scenes: Seq::new(self.scenes@.len(), |i: int| self.scenes@[i]@),
            counter: self.counter,
            info: self.info,
            nodes: Seq::new(self.nodes@.len(), |i: int| self.nodes@[i]@),
            signals: self.signals@,
            inbox: self.inbox@,
            waiting: self.waiting@,
        }
    }
}

impl EngineView {
    /// Well-formed: bounded metadata; every scene's task and every manager
    /// lives inside the signal table; scene ids grow strictly along the
    /// list and stay below the counter, so they are distinct; every scene
    /// carries the engine's sender id and frame metadata.
    pub open spec fn wf(self) -> bool {
        &&& self.info.wf()
        &&& table_wf(self.signals)
        &&& forall|i: int| 0 <= i < self.scenes.len() ==> (#[trigger] self.scenes[i]).task.wf(
            self.signals.len() as int,
        )
        &&& forall|i: int| 0 <= i < self.nodes.len() ==> (#[trigger] self.nodes[i]).wf(
            self.signals.len() as int,
        )
        &&& forall|i: int| 0 <= i < self.scenes.len() ==> (#[trigger] self.scenes[i]).task.sender.id
            == self.scenes[i].id
        &&& forall|i: int| 0 <= i < self.scenes.len() ==> (#[trigger] self.scenes[i]).task.info
            == self.info
        &&& forall|i: int| 0 <= i < self.scenes.len() ==> (#[trigger] self.scenes[i]).id
            < self.counter
        &&& forall|i: int, j: int| 0 <= i < j < self.scenes.len() ==> (#[trigger] self.scenes[i].id)
            < (#[trigger] self.scenes[j].id)
        &&& forall|i: int| 0 <= i < self.inbox.len() ==> ((#[trigger] self.inbox[i]).1 matches
            EngineMessage::CreateNode(_, b) ==> b.wf())
    }

    /// How many scenes are still live (their script not yet finished).
    pub open spec fn live_count(self) -> nat {
        Seq::new(self.scenes.len(), |i: int| self.scenes[i]).filter(
            |s: EngineSceneView| s.task.live(),
        ).len()
    }
}

/// An empty manager of the given kind.
pub open spec fn spec_empty_manager(kind: NodeKind) -> NodeManagerView {
    match kind {
        NodeKind::Rect => NodeManagerView::Rect(
            crate::rect::RectManagerView { rects: Seq::empty(), pending: None },
        ),
        NodeKind::Audio => NodeManagerView::Audio(
            crate::audio::AudioManagerView { audios: Seq::empty(), pending: None },
        ),
    }
}

impl Engine {
    /// A fresh engine rendering at `fps` frames per second on a surface of
    /// `width` by `height` pixels, with no managers and no scenes.
    pub fn new(fps: u32, width: u32, height: u32) -> (e: Engine)
        requires
            1 <= fps <= 1_000_000,
            width > 0,
            height > 0,
        ensures
            e@.scenes == Seq::<EngineSceneView>::empty(),
            e@.counter == 0,
            e@.info == (Info { delta_micros: (1_000_000u64 / fps as u64) as u64, width, height }),
            e@.nodes == Seq::<NodeManagerView>::empty(),
            e@.signals == Seq::<Option<SignalValue>>::empty(),
            e@.inbox == Seq::<(u64, EngineMessage)>::empty(),
            e@.waiting == Seq::<u64>::empty(),
            e@.wf(),
    {
        let delta_micros = 1_000_000u64 / (fps as u64);
        proof {
            assert(1 <= (1_000_000 as int) / (fps as int) <= 1_000_000) by (nonlinear_arith)
                requires
                    1 <= fps as int <= 1_000_000,
            ;
        }
        let e = Engine {
            scenes: Vec::new(),
            counter: 0,
            info: Info { delta_micros, width, height },
            nodes: Vec::new(),
            signals: SignalTable::new(),
            inbox: VecDeque::new(),
            waiting: Vec::new(),
        };
        proof {
            assert(e@.scenes =~= Seq::<EngineSceneView>::empty());
            assert(e@.nodes =~= Seq::<NodeManagerView>::empty());
        }
        e
    }

    /// Registers the manager of one node kind.  Registration is closed
    /// configuration: it happens before any scene runs.
    pub fn register_node(&mut self, kind: NodeKind)
        requires
            old(self)@.wf(),
        ensures
            final(self)@ == (EngineView {
                nodes: old(self)@.nodes.push(spec_empty_manager(kind)),
                ..old(self)@
            }),
            final(self)@.wf(),
    {
        let manager = AbstractNodeManager::new(kind);
        proof {
            assert(manager@ == spec_empty_manager(kind)) by {
                match manager@ {
                    NodeManagerView::Rect(r) => {
                        assert(r.rects =~= Seq::<crate::rect::NRect>::empty());
                    },
                    NodeManagerView::Audio(a) => {
                        assert(a.audios =~= Seq::<crate::audio::NAudio>::empty());
                    },
                }
            };
        }
        self.nodes.push(manager);
        proof {
            assert(self@.nodes =~= old(self)@.nodes.push(spec_empty_manager(kind)));
            assert(self@.scenes =~= old(self)@.scenes);
        }
    }

    /// Registers one scene described by `script`, under a fresh id.  The
    /// scene starts running at the next tick.
    pub fn create_scene(&mut self, script: Vec<SceneStep>)
        requires
            old(self)@.wf(),
            old(self)@.counter < u64::MAX,
        ensures
            final(self)@ == (EngineView {
                scenes: old(self)@.scenes.push(
                    EngineSceneView {
                        id: old(self)@.counter,
                        task: SceneTaskView {
                            sender: crate::engine_message::EngineSender {
                                id: old(self)@.counter,
                            },
                            info: old(self)@.info,
                            script: script@,
                            pc: 0,
                            status: SceneStatusView::Running,
                            nodes: Seq::empty(),
                        },
                    },
                ),
                counter: (old(self)@.counter + 1) as u64,
                ..old(self)@
            }),
            final(self)@.wf(),
    {
        let id = self.counter;
        self.counter = self.counter + 1;
        // Reading the length exposes the script's size bound to the proof.
        let n = script.len();
        proof {
            assert(n == script@.len());
            assert(script@.len() <= usize::MAX);
        }
        let task = SceneTask::new(id, self.info, script);
        self.scenes.push(EngineScene { id, task });
        proof {
            assert(self@.scenes =~= old(self)@.scenes.push(self@.scenes.last()));
            assert(self@.nodes =~= old(self)@.nodes);
        }
    }

    /// Whether every scene has finished and been pruned.
    pub fn finished(&self) -> (r: bool)
        ensures
            r == (self@.scenes.len() == 0),
    {
        self.scenes.len() == 0
    }

    /// The number of registered scenes still in the registry.
    pub fn scene_count(&self) -> (r: usize)
        ensures
            r == self@.scenes.len(),
    {
        self.scenes.len()
    }

    /// The number of scenes currently parked in a `Present` wait.
    pub fn waiting_count(&self) -> (r: usize)
        ensures
            r == self@.waiting.len(),
    {
        self.waiting.len()
    }

    /// The registered managers, for the host's render pass.
    pub fn managers(&self) -> (r: &Vec<AbstractNodeManager>)
        ensures
            r@ == self.nodes@,
    {
        &self.nodes
    }

    /// The frame metadata.
    pub fn info(&self) -> (r: Info)
        ensures
            r == self@.info,
    {
        self.info
    }
}

/// The index of the first scene with the given id, searching from `i`.
pub open spec fn spec_find_scene(scenes: Seq<EngineSceneView>, id: u64, i: int) -> Option<int>
    decreases scenes.len() - i,
{
    if i < 0 || i >= scenes.len() {
        None
    } else if scenes[i].id == id {
        Some(i)
    } else {
        spec_find_scene(scenes, id, i + 1)
    }
}

/// The scene list and inbox after releasing every queued waiter, front
/// first: each waiter's scene consumes one owed frame (or re-enters its
/// tween), and a scene with more frames owed sends its next `Present`.
pub open spec fn spec_resolve_all(
    scenes: Seq<EngineSceneView>,
    waiting: Seq<u64>,
    inbox: Seq<(u64, EngineMessage)>,
) -> (Seq<EngineSceneView>, Seq<(u64, EngineMessage)>)
    decreases waiting.len(),
{
    if waiting.len() == 0 {
        (scenes, inbox)
    } else {
        let id = waiting[0];
        match spec_find_scene(scenes, id, 0) {
            Some(j) => {
                let (t2, emits) = scenes[j].task.spec_resolve();
                let scenes2 = scenes.update(j, EngineSceneView { id: scenes[j].id, task: t2 });
                let inbox2 = if emits {
                    inbox.push((id, EngineMessage::Present))
                } else {
                    inbox
                };
                spec_resolve_all(scenes2, waiting.subrange(1, waiting.len() as int), inbox2)
            },
            None => spec_resolve_all(scenes, waiting.subrange(1, waiting.len() as int), inbox),
        }
    }
}

/// A found index lies in range and names a scene with the sought id.
pub proof fn lemma_find_scene_props(scenes: Seq<EngineSceneView>, id: u64, i: int)
    ensures
        spec_find_scene(scenes, id, i) matches Some(j) ==> i <= j < scenes.len()
            && scenes[j].id == id,
    decreases scenes.len() - i,
{
    if 0 <= i < scenes.len() && scenes[i].id != id {
        lemma_find_scene_props(scenes, id, i + 1);
    }
}

impl Engine {
    /// The index of the first scene with the given id.
    fn find_scene(&self, id: u64) -> (r: Option<usize>)
        ensures
            match r {
                Some(j) => spec_find_scene(self@.scenes, id, 0) == Some(j as int) && j
                    < self@.scenes.len(),
                None => spec_find_scene(self@.scenes, id, 0) is None,
            },
    {
        let mut j: usize = 0;
        let n = self.scenes.len();
        while j < n
            invariant
                j <= n,
                n == self@.scenes.len(),
                spec_find_scene(self@.scenes, id, 0) == spec_find_scene(
                    self@.scenes,
                    id,
                    j as int,
                ),
            decreases n - j,
        {
            if self.scenes[j].id == id {
                return Some(j);
            }
            j = j + 1;
        }
        None
    }

    /// Releases every waiter parked during the previous tick, in queue
    /// order.  Each released scene consumes one owed frame; a scene with
    /// more frames owed immediately sends its next `Present`, and a parked
    /// tween re-enters its executor.  The waiter queue is left empty.
    #[verifier::loop_isolation(false)]
    pub fn resolve_waiters(&mut self)
        requires
            old(self)@.wf(),
        ensures
            ({
                let (scenes2, inbox2) = spec_resolve_all(
                    old(self)@.scenes,
                    old(self)@.waiting,
                    old(self)@.inbox,
                );
                &&& final(self)@ == (EngineView {
                    scenes: scenes2,
                    inbox: inbox2,
                    waiting: Seq::<u64>::empty(),
                    ..old(self)@
                })
            }),
            final(self)@.wf(),
    {
        let mut w: Vec<u64> = Vec::new();
        core::mem::swap(&mut self.waiting, &mut w);
        let ghost scenes0 = self@.scenes;
        let ghost w0 = w@;
        let ghost inbox0 = self@.inbox;
        let mut k: usize = 0;
        let n = w.len();
        proof {
            assert(self@.waiting =~= Seq::<u64>::empty());
            assert(self@.scenes =~= old(self)@.scenes);
            assert(w0.subrange(0, w0.len() as int) =~= w0);
            assert forall|i: int|
                0 <= i < self@.nodes.len() implies (#[trigger] self@.nodes[i]).wf(
                self@.signals.len() as int,
            ) by {
                assert(old(self)@.nodes[i].wf(old(self)@.signals.len() as int));
            };
        }
        while k < n
            invariant
                k <= n,
                n == w0.len(),
                w@ == w0,
                self@.counter == old(self)@.counter,
                self@.info == old(self)@.info,
                self@.nodes == old(self)@.nodes,
                self@.signals == old(self)@.signals,
                self@.waiting == Seq::<u64>::empty(),
                (EngineView { scenes: self@.scenes, inbox: self@.inbox, ..old(self)@ }).wf(),
                spec_resolve_all(scenes0, w0, inbox0) == spec_resolve_all(
                    self@.scenes,
                    w0.subrange(k as int, w0.len() as int),
                    self@.inbox,
                ),
            decreases n - k,
        {
            let ghost scenes_pre = self@.scenes;
            let ghost inbox_pre = self@.inbox;
            let ghost wrest = w0.subrange(k as int, w0.len() as int);
            let id = w[k];
            proof {
                assert(wrest[0] == id);
                assert(wrest.subrange(1, wrest.len() as int) =~= w0.subrange(
                    k as int + 1,
                    w0.len() as int,
                ));
            }
            match self.find_scene(id) {
                Some(j) => {
                    proof {
                        lemma_find_scene_props(scenes_pre, id, 0);
                        assert(scenes_pre[j as int].task.wf(self@.signals.len() as int));
                        assert(scenes_pre[j as int].task.sender.id == scenes_pre[j as int].id);
                        assert(scenes_pre[j as int].id == id);
                    }
                    let mut sc = self.scenes.remove(j);
                    let emits = sc.task.resolve();
                    if emits {
                        sc.task.sender.send(&mut self.inbox, EngineMessage::Present);
                    }
                    self.scenes.insert(j, sc);
                    proof {
                        let resolved = EngineSceneView {
                            id: scenes_pre[j as int].id,
                            task: scenes_pre[j as int].task.spec_resolve().0,
                        };
                        assert(self@.scenes =~= scenes_pre.update(j as int, resolved));
                        assert(resolved.task.wf(self@.signals.len() as int));
                        assert forall|i: int|
                            0 <= i < self@.scenes.len() implies (
                        #[trigger] self@.scenes[i]).task.wf(self@.signals.len() as int) by {
                            if i != j as int {
                                assert(scenes_pre[i].task.wf(self@.signals.len() as int));
                            }
                        };
                    }
                },
                None => {},
            }
            proof {
                assert forall|i: int|
                    0 <= i < self@.nodes.len() implies (#[trigger] self@.nodes[i]).wf(
                    self@.signals.len() as int,
                ) by {
                    assert(old(self)@.nodes[i].wf(old(self)@.signals.len() as int));
                };
            }
            k = k + 1;
        }
        proof {
            assert(w0.subrange(n as int, w0.len() as int).len() == 0);
        }
    }
}

/// The index of the first manager whose kind tag equals `tag`, searching
/// from `i`.
pub open spec fn spec_find_manager(nodes: Seq<NodeManagerView>, tag: u64, i: int) -> Option<int>
    decreases nodes.len() - i,
{
    if i < 0 || i >= nodes.len() {
        None
    } else if nodes[i].spec_kind().spec_tag() == tag {
        Some(i)
    } else {
        spec_find_manager(nodes, tag, i + 1)
    }
}

/// A found index lies in range and names a manager of the sought tag.
pub proof fn lemma_find_manager_props(nodes: Seq<NodeManagerView>, tag: u64, i: int)
    ensures
        spec_find_manager(nodes, tag, i) matches Some(j) ==> i <= j < nodes.len()
            && nodes[j].spec_kind().spec_tag() == tag,
    decreases nodes.len() - i,
{
    if 0 <= i < nodes.len() && nodes[i].spec_kind().spec_tag() != tag {
        lemma_find_manager_props(nodes, tag, i + 1);
    }
}

/// Every registered manager run through one update pass, front first.
pub open spec fn spec_update_managers(
    nodes: Seq<NodeManagerView>,
    t: Seq<Option<SignalValue>>,
) -> (Seq<NodeManagerView>, Seq<Option<SignalValue>>)
    decreases nodes.len(),
{
    if nodes.len() == 0 {
        (nodes, t)
    } else {
        let (m2, t1) = nodes[0].spec_update(t);
        let (rest, t2) = spec_update_managers(nodes.subrange(1, nodes.len() as int), t1);
        (seq![m2] + rest, t2)
    }
}

impl EngineView {
    /// The engine state and outcome after dispatching one message from the
    /// inbox.  `CreateRef` and `CreateNode` route to the manager whose tag
    /// matches; a missing manager is a fatal configuration error, and a
    /// reply that cannot be delivered — an occupied pending slot, a absent
    /// or non-awaiting scene, a mismatched builder — is a protocol
    /// violation that leaves the state unchanged.  `Present` parks the
    /// sending scene's id in the waiter queue; `Update` runs one update
    /// pass over every manager.
    pub open spec fn spec_dispatch(self, from: u64, msg: EngineMessage) -> (
        EngineView,
        Result<(), EngineError>,
    ) {
        match msg {
            EngineMessage::Present => (
                EngineView { waiting: self.waiting.push(from), ..self },
                Ok(()),
            ),
            EngineMessage::Update => {
                let (nodes2, t2) = spec_update_managers(self.nodes, self.signals);
                (EngineView { nodes: nodes2, signals: t2, ..self }, Ok(()))
            },
            EngineMessage::CreateRef(ty) => {
                match spec_find_manager(self.nodes, ty.id, 0) {
                    None => (self, Err(EngineError::UnregisteredKind(ty.kind))),
                    Some(mi) => {
                        if self.nodes[mi].spec_has_pending() {
                            (self, Err(EngineError::ProtocolViolation))
                        } else {
                            match spec_find_scene(self.scenes, from, 0) {
                                None => (self, Err(EngineError::ProtocolViolation)),
                                Some(sj) => {
                                    match self.scenes[sj].task.status {
                                        SceneStatusView::AwaitingRef(b) => {
                                            let (m2, t2, raw) = self.nodes[mi].spec_create_node(
                                                self.signals,
                                            );
                                            let task2 = SceneTaskView {
                                                status: SceneStatusView::RefReady(b, raw),
                                                ..self.scenes[sj].task
                                            };
                                            (
                                                EngineView {
                                                    nodes: self.nodes.update(mi, m2),
                                                    signals: t2,
                                                    scenes: self.scenes.update(
                                                        sj,
                                                        EngineSceneView {
                                                            id: self.scenes[sj].id,
                                                            task: task2,
                                                        },
                                                    ),
                                                    ..self
                                                },
                                                Ok(()),
                                            )
                                        },
                                        _ => (self, Err(EngineError::ProtocolViolation)),
                                    }
                                },
                            }
                        }
                    },
                }
            },
            EngineMessage::CreateNode(ty, b) => {
                match spec_find_manager(self.nodes, ty.id, 0) {
                    None => (self, Err(EngineError::UnregisteredKind(ty.kind))),
                    Some(mi) => {
                        let (m2, r) = self.nodes[mi].spec_init_node(b);
                        (EngineView { nodes: self.nodes.update(mi, m2), ..self }, r)
                    },
                }
            },
        }
    }
}

impl Engine {
    /// The index of the first manager whose kind tag equals `tag`.
    fn find_manager(&self, tag: u64) -> (r: Option<usize>)
        ensures
            match r {
                Some(j) => spec_find_manager(self@.nodes, tag, 0) == Some(j as int) && j
                    < self@.nodes.len(),
                None => spec_find_manager(self@.nodes, tag, 0) is None,
            },
    {
        let mut j: usize = 0;
        let n = self.nodes.len();
        while j < n
            invariant
                j <= n,
                n == self@.nodes.len(),
                spec_find_manager(self@.nodes, tag, 0) == spec_find_manager(
                    self@.nodes,
                    tag,
                    j as int,
                ),
            decreases n - j,
        {
            if self.nodes[j].ty_id() == tag {
                return Some(j);
            }
            j = j + 1;
        }
        None
    }

    /// Dispatches one message drained from the inbox.
    fn dispatch_message(&mut self, from: u64, msg: EngineMessage) -> (r: Result<
        (),
        EngineError,
    >)
        requires
            old(self)@.wf(),
            msg matches EngineMessage::CreateNode(_, b) ==> b.wf(),
        ensures
            final(self)@ == old(self)@.spec_dispatch(from, msg).0,
            r == old(self)@.spec_dispatch(from, msg).1,
            final(self)@.wf(),
            final(self)@.inbox == old(self)@.inbox,
            final(self)@.counter == old(self)@.counter,
            final(self)@.info == old(self)@.info,
    {
        match msg {
            EngineMessage::Present => self.dispatch_present(from, Ghost(msg)),
            EngineMessage::Update => self.dispatch_update(from, Ghost(msg)),
            EngineMessage::CreateRef(ty) => self.dispatch_create_ref(from, ty, Ghost(msg)),
            EngineMessage::CreateNode(ty, b) => self.dispatch_create_node(from, ty, b, Ghost(
                msg,
            )),
        }
    }

    /// Parks the sending scene's id in the waiter queue.
    fn dispatch_present(&mut self, from: u64, Ghost(msg): Ghost<EngineMessage>) -> (r: Result<
        (),
        EngineError,
    >)
        requires
            old(self)@.wf(),
            msg == EngineMessage::Present,
        ensures
            final(self)@ == old(self)@.spec_dispatch(from, msg).0,
            r == old(self)@.spec_dispatch(from, msg).1,
            final(self)@.wf(),
            final(self)@.inbox == old(self)@.inbox,
            final(self)@.counter == old(self)@.counter,
            final(self)@.info == old(self)@.info,
    {

                self.waiting.push(from);
                proof {
                    assert(self@.scenes =~= old(self)@.scenes);
                    assert(self@.nodes =~= old(self)@.nodes);
                }
                Ok(())
        }

    /// Runs one update pass over every registered manager.
    #[verifier::loop_isolation(false)]
    #[verifier::rlimit(40)]
    fn dispatch_update(&mut self, from: u64, Ghost(msg): Ghost<EngineMessage>) -> (r: Result<
        (),
        EngineError,
    >)
        requires
            old(self)@.wf(),
            msg == EngineMessage::Update,
        ensures
            final(self)@ == old(self)@.spec_dispatch(from, msg).0,
            r == old(self)@.spec_dispatch(from, msg).1,
            final(self)@.wf(),
            final(self)@.inbox == old(self)@.inbox,
            final(self)@.counter == old(self)@.counter,
            final(self)@.info == old(self)@.info,
    {

                let ghost nodes0 = self@.nodes;
                let ghost t0 = self@.signals;
                let mut processed: Vec<AbstractNodeManager> = Vec::new();
                proof {
                    assert(self@.nodes =~= nodes0);
                    assert forall|i: int|
                        0 <= i < self@.nodes.len() implies (#[trigger] self@.nodes[i]).wf(
                        t0.len() as int,
                    ) by {
                        assert(old(self)@.nodes[i].wf(old(self)@.signals.len() as int));
                    };
                    let pview0 = Seq::new(0, |i: int| processed@[i]@);
                    assert(pview0 + spec_update_managers(self@.nodes, self@.signals).0
                        =~= spec_update_managers(self@.nodes, self@.signals).0);
                }
                while self.nodes.len() > 0
                    invariant
                        self@.scenes == old(self)@.scenes,
                        self@.waiting == old(self)@.waiting,
                        self@.inbox == old(self)@.inbox,
                        self@.counter == old(self)@.counter,
                        self@.info == old(self)@.info,
                        table_wf(self@.signals),
                        self@.signals.len() == t0.len(),
                        forall|i: int| 0 <= i < self@.nodes.len() ==> (
                        #[trigger] self@.nodes[i]).wf(t0.len() as int),
                        forall|i: int| 0 <= i < processed@.len() ==> (
                        #[trigger] processed@[i]@).wf(t0.len() as int),
                        ({
                            let (rest, rt) = spec_update_managers(self@.nodes, self@.signals);
                            let (full, ft) = spec_update_managers(nodes0, t0);
                            &&& full == Seq::new(processed@.len(), |i: int| processed@[i]@)
                                + rest
                            &&& ft == rt
                        }),
                    decreases self@.nodes.len(),
                {
                    let ghost nodes_pre = self@.nodes;
                    let ghost t_pre = self@.signals;
                    let mut m = self.nodes.remove(0);
                    proof {
                        assert(self@.nodes =~= nodes_pre.subrange(1, nodes_pre.len() as int));
                        assert(nodes_pre[0].wf(t0.len() as int));
                    }
                    m.update(&mut self.signals);
                    processed.push(m);
                    proof {
                        let (rest, rt) = spec_update_managers(self@.nodes, self@.signals);
                        let pview = Seq::new(processed@.len(), |i: int| processed@[i]@);
                        assert(pview + rest =~= pview.drop_last() + (seq![m@] + rest));
                    }
                }
                let ghost pvec = processed@;
                let ghost pfinal = Seq::new(pvec.len(), |i: int| pvec[i]@);
                proof {
                    assert(pfinal =~= Seq::new(processed@.len(), |i: int| processed@[i]@));
                    assert(spec_update_managers(self@.nodes, self@.signals).0
                        =~= Seq::<NodeManagerView>::empty());
                    assert(pfinal + Seq::<NodeManagerView>::empty() =~= pfinal);
                    assert(spec_update_managers(nodes0, t0).0 == pfinal);
                    assert forall|i: int| 0 <= i < pfinal.len() implies (
                    #[trigger] pfinal[i]).wf(t0.len() as int) by {
                        assert(processed@[i]@.wf(t0.len() as int));
                    };
                }
                self.nodes = processed;
                proof {
                    assert(self.nodes@ == pvec);
                    assert(self@.nodes =~= pfinal);
                    assert(self@.scenes =~= old(self)@.scenes);
                    assert forall|i: int|
                        0 <= i < self@.scenes.len() implies (
                    #[trigger] self@.scenes[i]).task.wf(self@.signals.len() as int) by {
                        assert(old(self)@.scenes[i].task.wf(t0.len() as int));
                    };
                }
                Ok(())
        }

    /// Allocates one new node's channels on the matching manager and
    /// deposits the reply with the awaiting scene.
    #[verifier::rlimit(30)]
    fn dispatch_create_ref(
        &mut self,
        from: u64,
        ty: crate::engine_message::Ty,
        Ghost(msg): Ghost<EngineMessage>,
    ) -> (r: Result<(), EngineError>)
        requires
            old(self)@.wf(),
            msg == EngineMessage::CreateRef(ty),
        ensures
            final(self)@ == old(self)@.spec_dispatch(from, msg).0,
            r == old(self)@.spec_dispatch(from, msg).1,
            final(self)@.wf(),
            final(self)@.inbox == old(self)@.inbox,
            final(self)@.counter == old(self)@.counter,
            final(self)@.info == old(self)@.info,
    {

                let mi = match self.find_manager(ty.id) {
                    None => {
                        return Err(EngineError::UnregisteredKind(ty.kind));
                    },
                    Some(mi) => mi,
                };
                let ghost nodes0 = self@.nodes;
                let ghost scenes0 = self@.scenes;
                let ghost t0 = self@.signals;
                let mut m = self.nodes.remove(mi);
                if m.has_pending() {
                    self.nodes.insert(mi, m);
                    proof {
                        assert(self@.nodes =~= nodes0);
                        assert(self@.scenes =~= scenes0);
                    }
                    return Err(EngineError::ProtocolViolation);
                }
                let sj = match self.find_scene(from) {
                    None => {
                        self.nodes.insert(mi, m);
                        proof {
                            assert(self@.nodes =~= nodes0);
                            assert(self@.scenes =~= scenes0);
                        }
                        return Err(EngineError::ProtocolViolation);
                    },
                    Some(sj) => sj,
                };
                proof {
                    lemma_find_manager_props(nodes0, ty.id, 0);
                    lemma_find_scene_props(scenes0, from, 0);
                    assert(scenes0[sj as int].task.wf(t0.len() as int));
                    assert(nodes0[mi as int].wf(t0.len() as int));
                }
                let mut sc = self.scenes.remove(sj);
                let mut b_opt: Option<crate::node::NodeBuilderKind> = None;
                match &sc.task.status {
                    crate::scene::SceneStatus::AwaitingRef(b) => {
                        b_opt = Some(*b);
                    },
                    _ => {},
                }
                match b_opt {
                    Some(b) => {
                        let raw = m.create_node(&mut self.signals);
                        sc.task.status = crate::scene::SceneStatus::RefReady(b, raw);
                        self.nodes.insert(mi, m);
                        self.scenes.insert(sj, sc);
                        proof {
                            let dv = old(self)@.spec_dispatch(from, msg).0;
                            assert(self@.nodes =~= dv.nodes);
                            assert(self@.scenes =~= dv.scenes);
                            assert(t0.len() <= self@.signals.len());
                            assert forall|i: int|
                                0 <= i < self@.scenes.len() implies (
                            #[trigger] self@.scenes[i]).task.wf(
                                self@.signals.len() as int,
                            ) by {
                                if i != sj as int {
                                    assert(scenes0[i].task.wf(t0.len() as int));
                                    lemma_task_wf_monotone(
                                        scenes0[i].task,
                                        t0.len() as int,
                                        self@.signals.len() as int,
                                    );
                                } else {
                                    lemma_task_wf_monotone(
                                        scenes0[i].task,
                                        t0.len() as int,
                                        self@.signals.len() as int,
                                    );
                                }
                            };
                            assert forall|i: int|
                                0 <= i < self@.nodes.len() implies (
                            #[trigger] self@.nodes[i]).wf(self@.signals.len() as int) by {
                                if i != mi as int {
                                    assert(nodes0[i].wf(t0.len() as int));
                                    lemma_manager_wf_monotone(
                                        nodes0[i],
                                        t0.len() as int,
                                        self@.signals.len() as int,
                                    );
                                }
                            };
                        }
                        Ok(())
                    },
                    None => {
                        self.scenes.insert(sj, sc);
                        self.nodes.insert(mi, m);
                        proof {
                            assert(self@.nodes =~= nodes0);
                            assert(self@.scenes =~= scenes0);
                        }
                        Err(EngineError::ProtocolViolation)
                    },
                }
        }

    /// Hands one builder to the matching manager.
    fn dispatch_create_node(
        &mut self,
        from: u64,
        ty: crate::engine_message::Ty,
        b: crate::node::NodeBuilderKind,
        Ghost(msg): Ghost<EngineMessage>,
    ) -> (r: Result<(), EngineError>)
        requires
            old(self)@.wf(),
            b.wf(),
            msg == EngineMessage::CreateNode(ty, b),
        ensures
            final(self)@ == old(self)@.spec_dispatch(from, msg).0,
            r == old(self)@.spec_dispatch(from, msg).1,
            final(self)@.wf(),
            final(self)@.inbox == old(self)@.inbox,
            final(self)@.counter == old(self)@.counter,
            final(self)@.info == old(self)@.info,
    {
        let mi = match self.find_manager(ty.id) {
            None => {
                return Err(EngineError::UnregisteredKind(ty.kind));
            },
            Some(mi) => mi,
        };
        let ghost nodes0 = self@.nodes;
        proof {
            lemma_find_manager_props(nodes0, ty.id, 0);
            assert(nodes0[mi as int].wf(self@.signals.len() as int));
        }
        let mut m = self.nodes.remove(mi);
        let r = m.init_node(b);
        self.nodes.insert(mi, m);
        proof {
            assert(self@.nodes =~= nodes0.update(
                mi as int,
                nodes0[mi as int].spec_init_node(b).0,
            ));
            assert(self@.scenes =~= old(self)@.scenes);
            assert forall|i: int|
                0 <= i < self@.nodes.len() implies (#[trigger] self@.nodes[i]).wf(
                self@.signals.len() as int,
            ) by {
                if i != mi as int {
                    assert(nodes0[i].wf(self@.signals.len() as int));
                }
            };
        }
        r
    }
}

/// Task well-formedness only bounds slot indices from above, so it is
/// preserved when the signal table grows.
pub proof fn lemma_task_wf_monotone(v: SceneTaskView, n: int, m: int)
    requires
        v.wf(n),
        n <= m,
    ensures
        v.wf(m),
{
    assert forall|i: int| 0 <= i < v.nodes.len() implies (#[trigger] v.nodes[i]).wf(m) by {
        assert(v.nodes[i].wf(n));
    };
}

/// Manager well-formedness only bounds slot indices from above, so it is
/// preserved when the signal table grows.
pub proof fn lemma_manager_wf_monotone(v: NodeManagerView, n: int, m: int)
    requires
        v.wf(n),
        n <= m,
    ensures
        v.wf(m),
{
    match v {
        NodeManagerView::Rect(r) => {
            assert forall|i: int| 0 <= i < r.rects.len() implies (#[trigger] r.rects[i]).wf(
                m,
            ) by {
                assert(r.rects[i].wf(n));
            };
        },
        NodeManagerView::Audio(a) => {
            assert forall|i: int| 0 <= i < a.audios.len() implies (
            #[trigger] a.audios[i]).wf(m) by {
                assert(a.audios[i].wf(n));
            };
        },
    }
}

/// The scenes whose script has not finished, in order.
pub open spec fn spec_prune(scenes: Seq<EngineSceneView>) -> Seq<EngineSceneView>
    decreases scenes.len(),
{
    if scenes.len() == 0 {
        scenes
    } else {
        let rest = spec_prune(scenes.subrange(1, scenes.len() as int));
        if scenes[0].task.live() {
            seq![scenes[0]] + rest
        } else {
            rest
        }
    }
}

/// The total interpreter work the scenes can still consume this tick.
pub open spec fn engine_work(scenes: Seq<EngineSceneView>) -> nat
    decreases scenes.len(),
{
    if scenes.len() == 0 {
        0
    } else {
        crate::scene::task_work(scenes[0].task) + engine_work(
            scenes.subrange(1, scenes.len() as int),
        )
    }
}

/// Work sums over concatenation.
pub proof fn lemma_engine_work_concat(a: Seq<EngineSceneView>, b: Seq<EngineSceneView>)
    ensures
        engine_work(a + b) == engine_work(a) + engine_work(b),
    decreases a.len(),
{
    if a.len() == 0 {
        assert(a + b =~= b);
    } else {
        assert((a + b).subrange(1, (a + b).len() as int) =~= a.subrange(1, a.len() as int) + b);
        lemma_engine_work_concat(a.subrange(1, a.len() as int), b);
    }
}

/// Replacing one scene changes the total work by the difference of the
/// scene's work.
pub proof fn lemma_engine_work_update(scenes: Seq<EngineSceneView>, i: int, v: EngineSceneView)
    requires
        0 <= i < scenes.len(),
    ensures
        engine_work(scenes.update(i, v)) + crate::scene::task_work(scenes[i].task)
            == engine_work(scenes) + crate::scene::task_work(v.task),
    decreases scenes.len(),
{
    if i == 0 {
        assert(scenes.update(0, v).subrange(1, scenes.len() as int) =~= scenes.subrange(
            1,
            scenes.len() as int,
        ));
    } else {
        assert(scenes.update(i, v).subrange(1, scenes.len() as int) =~= scenes.subrange(
            1,
            scenes.len() as int,
        ).update(i - 1, v));
        lemma_engine_work_update(scenes.subrange(1, scenes.len() as int), i - 1, v);
    }
}

/// Pruning finished scenes never increases the total work.
pub proof fn lemma_prune_work(scenes: Seq<EngineSceneView>)
    ensures
        engine_work(spec_prune(scenes)) <= engine_work(scenes),
    decreases scenes.len(),
{
    if scenes.len() > 0 {
        let rest = scenes.subrange(1, scenes.len() as int);
        lemma_prune_work(rest);
        if scenes[0].task.live() {
            lemma_engine_work_concat(seq![scenes[0]], spec_prune(rest));
            assert(seq![scenes[0]].subrange(1, 1) =~= Seq::<EngineSceneView>::empty());
            assert(engine_work(Seq::<EngineSceneView>::empty()) == 0);
            assert(engine_work(seq![scenes[0]]) == crate::scene::task_work(scenes[0].task));
        }
    }
}

/// An update pass over every manager preserves each manager's
/// well-formedness and kind, and the table's length and value bounds.
pub proof fn lemma_update_managers_preserves(
    nodes: Seq<NodeManagerView>,
    t: Seq<Option<SignalValue>>,
)
    requires
        forall|i: int| 0 <= i < nodes.len() ==> (#[trigger] nodes[i]).wf(t.len() as int),
        table_wf(t),
    ensures
        ({
            let (nodes2, t2) = spec_update_managers(nodes, t);
            &&& nodes2.len() == nodes.len()
            &&& forall|i: int| 0 <= i < nodes2.len() ==> (#[trigger] nodes2[i]).wf(
                t.len() as int,
            )
            &&& t2.len() == t.len()
            &&& table_wf(t2)
        }),
    decreases nodes.len(),
{
    if nodes.len() > 0 {
        assert(nodes[0].wf(t.len() as int));
        crate::node::lemma_manager_update_preserves(nodes[0], t);
        let (m2, t1) = nodes[0].spec_update(t);
        let rest = nodes.subrange(1, nodes.len() as int);
        assert forall|i: int| 0 <= i < rest.len() implies (#[trigger] rest[i]).wf(
            t1.len() as int,
        ) by {
            assert(nodes[i + 1].wf(t.len() as int));
        };
        lemma_update_managers_preserves(rest, t1);
        let (out_rest, t2) = spec_update_managers(rest, t1);
        let out = spec_update_managers(nodes, t).0;
        assert(out == seq![m2] + out_rest);
        assert forall|i: int| 0 <= i < out.len() implies (#[trigger] out[i]).wf(
            t.len() as int,
        ) by {
            if i > 0 {
                assert(out_rest[i - 1].wf(t.len() as int));
            }
        };
    }
}

/// Pruning keeps every surviving scene's properties: well-formedness,
/// the sender-id binding, the frame metadata, the counter bound and the
/// strict id order.
pub proof fn lemma_prune_props(s: Seq<EngineSceneView>, n: int, info: Info, counter: u64)
    requires
        forall|i: int| 0 <= i < s.len() ==> (#[trigger] s[i]).task.wf(n),
        forall|i: int| 0 <= i < s.len() ==> (#[trigger] s[i]).task.sender.id == s[i].id,
        forall|i: int| 0 <= i < s.len() ==> (#[trigger] s[i]).task.info == info,
        forall|i: int| 0 <= i < s.len() ==> (#[trigger] s[i]).id < counter,
        forall|i: int, j: int| 0 <= i < j < s.len() ==> (#[trigger] s[i].id) < (
        #[trigger] s[j].id),
    ensures
        spec_prune(s).len() <= s.len(),
        forall|i: int| 0 <= i < spec_prune(s).len() ==> (#[trigger] spec_prune(s)[i]).task.wf(n),
        forall|i: int|
            0 <= i < spec_prune(s).len() ==> (#[trigger] spec_prune(s)[i]).task.sender.id
                == spec_prune(s)[i].id,
        forall|i: int| 0 <= i < spec_prune(s).len() ==> (#[trigger] spec_prune(s)[i]).task.info
            == info,
        forall|i: int| 0 <= i < spec_prune(s).len() ==> (#[trigger] spec_prune(s)[i]).id
            < counter,
        forall|i: int, j: int|
            0 <= i < j < spec_prune(s).len() ==> (#[trigger] spec_prune(s)[i].id) < (
            #[trigger] spec_prune(s)[j].id),
        s.len() > 0 ==> forall|i: int|
            0 <= i < spec_prune(s).len() ==> (#[trigger] spec_prune(s)[i].id) >= s[0].id,
        forall|i: int| 0 <= i < spec_prune(s).len() ==> (#[trigger] spec_prune(s)[i]).task.live(),
    decreases s.len(),
{
    if s.len() > 0 {
        let rest = s.subrange(1, s.len() as int);
        assert forall|i: int| 0 <= i < rest.len() implies (#[trigger] rest[i]).task.wf(n)
            && rest[i].task.sender.id == rest[i].id && rest[i].task.info == info && rest[i].id
            < counter by {
            assert(s[i + 1].task.wf(n));
            assert(s[i + 1].task.sender.id == s[i + 1].id);
            assert(s[i + 1].task.info == info);
            assert(s[i + 1].id < counter);
        };
        assert forall|i: int, j: int|
            0 <= i < j < rest.len() implies (#[trigger] rest[i].id) < (
        #[trigger] rest[j].id) by {
            assert(s[i + 1].id < s[j + 1].id);
        };
        lemma_prune_props(rest, n, info, counter);
        let pr = spec_prune(rest);
        let out = spec_prune(s);
        if s[0].task.live() {
            assert(out == seq![s[0]] + pr);
            assert forall|i: int| 0 <= i < out.len() implies (#[trigger] out[i]).task.wf(n)
                && out[i].task.sender.id == out[i].id && out[i].task.info == info && out[i].id
                < counter && out[i].task.live() && out[i].id >= s[0].id by {
                if i > 0 {
                    assert(pr[i - 1].task.wf(n));
                    assert(pr[i - 1].task.sender.id == pr[i - 1].id);
                    assert(pr[i - 1].task.info == info);
                    assert(pr[i - 1].id < counter);
                    assert(pr[i - 1].task.live());
                    if rest.len() > 0 {
                        assert(pr[i - 1].id >= rest[0].id);
                        assert(rest[0].id == s[1].id);
                        assert(s[0].id < s[1].id);
                    }
                }
            };
            assert forall|i: int, j: int|
                0 <= i < j < out.len() implies (#[trigger] out[i].id) < (
            #[trigger] out[j].id) by {
                if i == 0 {
                    assert(out[j].id == pr[j - 1].id);
                    if rest.len() > 0 {
                        assert(pr[j - 1].id >= rest[0].id);
                        assert(rest[0].id == s[1].id);
                        assert(s[0].id < s[1].id);
                    }
                } else {
                    assert(pr[i - 1].id < pr[j - 1].id);
                }
            };
        } else {
            assert(out == pr);
            assert forall|i: int|
                0 <= i < out.len() implies (#[trigger] out[i].id) >= s[0].id by {
                if rest.len() > 0 {
                    assert(pr[i].id >= rest[0].id);
                    assert(rest[0].id == s[1].id);
                    assert(s[0].id < s[1].id);
                }
            };
        }
    }
}

/// A dispatch preserves the engine's well-formedness and leaves the
/// inbox, counter and frame metadata untouched.
#[verifier::rlimit(60)]
pub proof fn lemma_dispatch_wf(v: EngineView, from: u64, msg: EngineMessage)
    requires
        v.wf(),
        msg matches EngineMessage::CreateNode(_, b) ==> b.wf(),
    ensures
        ({
            let (d, r) = v.spec_dispatch(from, msg);
            &&& d.wf()
            &&& d.counter == v.counter
            &&& d.info == v.info
            &&& d.inbox == v.inbox
            &&& d.waiting == (if msg is Present {
                v.waiting.push(from)
            } else {
                v.waiting
            })
        }),
{
    let (d, r) = v.spec_dispatch(from, msg);
    match msg {
        EngineMessage::Present => {},
        EngineMessage::Update => {
            assert forall|i: int| 0 <= i < v.nodes.len() implies (#[trigger] v.nodes[i]).wf(
                v.signals.len() as int,
            ) by {};
            lemma_update_managers_preserves(v.nodes, v.signals);
        },
        EngineMessage::CreateRef(ty) => {
            match spec_find_manager(v.nodes, ty.id, 0) {
                None => {},
                Some(mi) => {
                    lemma_find_manager_props(v.nodes, ty.id, 0);
                    if !v.nodes[mi].spec_has_pending() {
                        match spec_find_scene(v.scenes, from, 0) {
                            None => {},
                            Some(sj) => {
                                lemma_find_scene_props(v.scenes, from, 0);
                                match v.scenes[sj].task.status {
                                    SceneStatusView::AwaitingRef(b) => {
                                        lemma_create_ref_wf(v, from, mi, sj, b);
                                    },
                                    _ => {},
                                }
                            },
                        }
                    }
                },
            }
        },
        EngineMessage::CreateNode(ty, b) => {
            match spec_find_manager(v.nodes, ty.id, 0) {
                None => {},
                Some(mi) => {
                    lemma_find_manager_props(v.nodes, ty.id, 0);
                    let (m2, ir) = v.nodes[mi].spec_init_node(b);
                    assert(v.nodes[mi].wf(v.signals.len() as int));
                    assert(m2.wf(v.signals.len() as int)) by {
                        match (v.nodes[mi], b) {
                            (NodeManagerView::Rect(rm), crate::node::NodeBuilderKind::Rect(
                                rb,
                            )) => {
                                match rm.pending {
                                    Some(p) => {
                                        let pushed = rm.rects.push(
                                            crate::rect::NRect {
                                                builder: rb,
                                                inner: p,
                                                mesh: crate::rect::spec_build_mesh(rb),
                                            },
                                        );
                                        assert forall|k: int|
                                            0 <= k < pushed.len() implies (
                                        #[trigger] pushed[k]).wf(v.signals.len() as int) by {
                                            if k < rm.rects.len() {
                                                assert(rm.rects[k].wf(v.signals.len() as int));
                                            }
                                        };
                                    },
                                    None => {},
                                }
                            },
                            (NodeManagerView::Audio(am), crate::node::NodeBuilderKind::Audio(
                                ab,
                            )) => {
                                match am.pending {
                                    Some(p) => {
                                        let pushed = am.audios.push(
                                            crate::audio::NAudio { builder: ab, drop: p },
                                        );
                                        assert forall|k: int|
                                            0 <= k < pushed.len() implies (
                                        #[trigger] pushed[k]).wf(v.signals.len() as int) by {
                                            if k < am.audios.len() {
                                                assert(am.audios[k].wf(v.signals.len() as int));
                                            }
                                        };
                                    },
                                    None => {},
                                }
                            },
                            (_, _) => {},
                        }
                    }
                    assert forall|i: int|
                        0 <= i < d.nodes.len() implies (#[trigger] d.nodes[i]).wf(
                        d.signals.len() as int,
                    ) by {
                        if i != mi {
                            assert(v.nodes[i].wf(v.signals.len() as int));
                        }
                    };
                },
            }
        },
    }
}

/// The `CreateRef` success path preserves well-formedness: the table
/// grows by the new node's empty channels, the chosen manager stashes
/// their consumer ends, and the awaiting scene now holds the reply.
#[verifier::rlimit(60)]
proof fn lemma_create_ref_wf(v: EngineView, from: u64, mi: int, sj: int, b:
    crate::node::NodeBuilderKind)
    requires
        v.wf(),
        0 <= mi < v.nodes.len(),
        0 <= sj < v.scenes.len(),
        v.scenes[sj].task.status == SceneStatusView::AwaitingRef(b),
        !v.nodes[mi].spec_has_pending(),
    ensures
        ({
            let (m2, t2, raw) = v.nodes[mi].spec_create_node(v.signals);
            let task2 = SceneTaskView {
                status: SceneStatusView::RefReady(b, raw),
                ..v.scenes[sj].task
            };
            let d = EngineView {
                nodes: v.nodes.update(mi, m2),
                signals: t2,
                scenes: v.scenes.update(
                    sj,
                    EngineSceneView { id: v.scenes[sj].id, task: task2 },
                ),
                ..v
            };
            d.wf()
        }),
{
    let (m2, t2, raw) = v.nodes[mi].spec_create_node(v.signals);
    let t = v.signals;
    let grown: int = match v.nodes[mi] {
        NodeManagerView::Rect(_) => 4,
        NodeManagerView::Audio(_) => 1,
    };
    assert(t2.len() == t.len() + grown);
    assert(table_wf(t2)) by {
        assert forall|i: int| 0 <= i < t2.len() implies (#[trigger] t2[i] matches Some(w)
            ==> w.wf()) by {
            if i < t.len() {
                assert(t2[i] == t[i]);
                assert(t[i] matches Some(w) ==> w.wf());
            } else {
                assert(t2[i] is None);
            }
        };
    }
    assert(v.nodes[mi].wf(t.len() as int));
    assert(m2.wf(t2.len() as int)) by {
        lemma_slot_cast_bounds(t.len() as int);
        match v.nodes[mi] {
            NodeManagerView::Rect(rm) => {
                assert forall|k: int| 0 <= k < rm.rects.len() implies (
                #[trigger] rm.rects[k]).wf(t2.len() as int) by {
                    assert(rm.rects[k].wf(t.len() as int));
                };
            },
            NodeManagerView::Audio(am) => {
                assert forall|k: int| 0 <= k < am.audios.len() implies (
                #[trigger] am.audios[k]).wf(t2.len() as int) by {
                    assert(am.audios[k].wf(t.len() as int));
                };
            },
        }
    }
    let task2 = SceneTaskView { status: SceneStatusView::RefReady(b, raw), ..v.scenes[sj].task };
    assert(v.scenes[sj].task.wf(t.len() as int));
    assert(task2.wf(t2.len() as int)) by {
        lemma_slot_cast_bounds(t.len() as int);
        assert(raw.wf(t2.len() as int));
        crate::engine::lemma_task_wf_monotone(
            SceneTaskView { status: SceneStatusView::Running, ..v.scenes[sj].task },
            t.len() as int,
            t2.len() as int,
        );
        assert forall|k: int| 0 <= k < task2.nodes.len() implies (#[trigger] task2.nodes[k]).wf(
            t2.len() as int,
        ) by {
            assert(v.scenes[sj].task.nodes[k].wf(t.len() as int));
        };
    }
    let d = EngineView {
        nodes: v.nodes.update(mi, m2),
        signals: t2,
        scenes: v.scenes.update(sj, EngineSceneView { id: v.scenes[sj].id, task: task2 }),
        ..v
    };
    assert forall|i: int| 0 <= i < d.scenes.len() implies (#[trigger] d.scenes[i]).task.wf(
        d.signals.len() as int,
    ) by {
        if i != sj {
            assert(v.scenes[i].task.wf(t.len() as int));
            lemma_task_wf_monotone(v.scenes[i].task, t.len() as int, t2.len() as int);
        }
    };
    assert forall|i: int| 0 <= i < d.nodes.len() implies (#[trigger] d.nodes[i]).wf(
        d.signals.len() as int,
    ) by {
        if i != mi {
            assert(v.nodes[i].wf(t.len() as int));
            lemma_manager_wf_monotone(v.nodes[i], t.len() as int, t2.len() as int);
        }
    };
    assert forall|i: int| 0 <= i < d.scenes.len() implies (#[trigger] d.scenes[i]).task.sender.id
        == d.scenes[i].id && d.scenes[i].task.info == d.info && d.scenes[i].id < d.counter by {
        assert(v.scenes[i].task.sender.id == v.scenes[i].id);
        assert(v.scenes[i].task.info == v.info);
        assert(v.scenes[i].id < v.counter);
    };
    assert forall|i: int, j: int| 0 <= i < j < d.scenes.len() implies (
    #[trigger] d.scenes[i].id) < (#[trigger] d.scenes[j].id) by {
        assert(v.scenes[i].id < v.scenes[j].id);
    };
}

/// A slot computed as `len + k` (k < 4) lies inside a table of length
/// `len + 4`, whether or not the sum fits the index type.
proof fn lemma_slot_cast_bounds(len: int)
    requires
        0 <= len,
    ensures
        (len as usize) < len + 1,
        ((len + 1) as usize) < len + 4,
        ((len + 2) as usize) < len + 4,
        ((len + 3) as usize) < len + 4,
        (len as usize) < len + 4,
{
    if len <= usize::MAX {
        assert(len as usize == len);
    } else {
        assert((len as usize) <= usize::MAX);
    }
    if len + 1 <= usize::MAX {
        assert((len + 1) as usize == len + 1);
    } else {
        assert(((len + 1) as usize) <= usize::MAX);
    }
    if len + 2 <= usize::MAX {
        assert((len + 2) as usize == len + 2);
    } else {
        assert(((len + 2) as usize) <= usize::MAX);
    }
    if len + 3 <= usize::MAX {
        assert((len + 3) as usize == len + 3);
    } else {
        assert(((len + 3) as usize) <= usize::MAX);
    }
}

/// On the Ok path a dispatch leaves every scene's remaining work as it
/// was: parking, updates and node creation touch no runnable status, and
/// a `CreateRef` reply moves a scene from awaiting the reply to holding
/// it, which costs the same.
pub proof fn lemma_dispatch_preserves_work(v: EngineView, from: u64, msg: EngineMessage)
    requires
        v.wf(),
    ensures
        v.spec_dispatch(from, msg).1 is Ok ==> engine_work(
            v.spec_dispatch(from, msg).0.scenes,
        ) == engine_work(v.scenes),
{
    match msg {
        EngineMessage::CreateRef(ty) => {
            match spec_find_manager(v.nodes, ty.id, 0) {
                Some(mi) => {
                    if !v.nodes[mi].spec_has_pending() {
                        match spec_find_scene(v.scenes, from, 0) {
                            Some(sj) => {
                                lemma_find_scene_props(v.scenes, from, 0);
                                match v.scenes[sj].task.status {
                                    SceneStatusView::AwaitingRef(b) => {
                                        let (m2, t2, raw) = v.nodes[mi].spec_create_node(
                                            v.signals,
                                        );
                                        let task2 = SceneTaskView {
                                            status: SceneStatusView::RefReady(b, raw),
                                            ..v.scenes[sj].task
                                        };
                                        let sc2 = EngineSceneView {
                                            id: v.scenes[sj].id,
                                            task: task2,
                                        };
                                        assert(crate::scene::task_work(task2)
                                            == crate::scene::task_work(v.scenes[sj].task));
                                        lemma_engine_work_update(v.scenes, sj, sc2);
                                    },
                                    _ => {},
                                }
                            },
                            None => {},
                        }
                    }
                },
                None => {},
            }
        },
        _ => {},
    }
}

/// The index of the first runnable scene, searching from `i`.
pub open spec fn spec_find_runnable(scenes: Seq<EngineSceneView>, i: int) -> Option<int>
    decreases scenes.len() - i,
{
    if i < 0 || i >= scenes.len() {
        None
    } else if scenes[i].task.runnable() {
        Some(i)
    } else {
        spec_find_runnable(scenes, i + 1)
    }
}

/// A found index lies in range and names a runnable scene; a miss means
/// no scene from `i` on is runnable.
pub proof fn lemma_find_runnable_props(scenes: Seq<EngineSceneView>, i: int)
    requires
        0 <= i,
    ensures
        spec_find_runnable(scenes, i) matches Some(j) ==> i <= j < scenes.len()
            && scenes[j].task.runnable(),
        spec_find_runnable(scenes, i) is None ==> forall|k: int|
            i <= k < scenes.len() ==> !(#[trigger] scenes[k]).task.runnable(),
    decreases scenes.len() - i,
{
    if 0 <= i < scenes.len() && !scenes[i].task.runnable() {
        lemma_find_runnable_props(scenes, i + 1);
    }
}

/// One pump run to completion, exactly as the engine's loop executes it:
/// prune the finished scenes; if every live scene is parked, the frame is
/// settled; otherwise dispatch the head of the inbox, or poll the first
/// runnable scene, propagating the first failure; a state with nothing
/// queued and nothing runnable is stuck.
pub open spec fn spec_pump(v: EngineView) -> (EngineView, Result<(), EngineError>)
    decreases engine_work(v.scenes), v.inbox.len(),
        when v.wf()
        via spec_pump_decreases
{
    let p = EngineView { scenes: spec_prune(v.scenes), ..v };
    if p.scenes.len() <= p.waiting.len() {
        (p, Ok(()))
    } else if p.inbox.len() > 0 {
        let from = p.inbox[0].0;
        let msg = p.inbox[0].1;
        let rest = EngineView { inbox: p.inbox.subrange(1, p.inbox.len() as int), ..p };
        let (d, r) = rest.spec_dispatch(from, msg);
        if r is Ok {
            spec_pump(d)
        } else {
            (d, r)
        }
    } else {
        match spec_find_runnable(p.scenes, 0) {
            Some(i) => {
                let (v2, t2, msgs, sr) = p.scenes[i].task.spec_poll(p.signals);
                let after = EngineView {
                    scenes: p.scenes.update(
                        i,
                        EngineSceneView { id: p.scenes[i].id, task: v2 },
                    ),
                    signals: t2,
                    inbox: p.inbox + msgs,
                    ..p
                };
                if sr is Ok {
                    spec_pump(after)
                } else {
                    (after, sr)
                }
            },
            None => (p, Err(EngineError::Stalled)),
        }
    }
}

#[via_fn]
proof fn spec_pump_decreases(v: EngineView) {
    lemma_prune_props(v.scenes, v.signals.len() as int, v.info, v.counter);
    lemma_prune_work(v.scenes);
    let p = EngineView { scenes: spec_prune(v.scenes), ..v };
    assert(p.wf());
    if !(p.scenes.len() <= p.waiting.len()) {
        if p.inbox.len() > 0 {
            let from = p.inbox[0].0;
            let msg = p.inbox[0].1;
            let rest = EngineView { inbox: p.inbox.subrange(1, p.inbox.len() as int), ..p };
            assert(rest.wf()) by {
                assert forall|i: int|
                    0 <= i < rest.inbox.len() implies ((#[trigger] rest.inbox[i]).1 matches
                    EngineMessage::CreateNode(_, b) ==> b.wf()) by {
                    assert(p.inbox[i + 1].1 matches EngineMessage::CreateNode(_, b)
                        ==> b.wf());
                };
            }
            lemma_dispatch_preserves_work(rest, from, msg);
        } else {
            match spec_find_runnable(p.scenes, 0) {
                Some(i) => {
                    lemma_find_runnable_props(p.scenes, 0);
                    assert(p.scenes[i].task.wf(p.signals.len() as int));
                    crate::scene::lemma_poll_decreases_work(p.scenes[i].task, p.signals);
                    let (v2, t2, msgs, sr) = p.scenes[i].task.spec_poll(p.signals);
                    lemma_engine_work_update(
                        p.scenes,
                        i,
                        EngineSceneView { id: p.scenes[i].id, task: v2 },
                    );
                },
                None => {},
            }
        }
    }
}

/// The engine state and outcome of one whole host tick: every waiter
/// parked during the previous tick is released first — exactly once, in
/// queue order, before any new message is drained — and then the pump
/// runs until the frame settles or the first failure surfaces.
pub open spec fn spec_run_tick(v: EngineView) -> (EngineView, Result<(), EngineError>) {
    let (scenes2, inbox2) = spec_resolve_all(v.scenes, v.waiting, v.inbox);
    spec_pump(EngineView { scenes: scenes2, inbox: inbox2, waiting: Seq::empty(), ..v })
}

/// Releasing the queued waiters preserves every scene's well-formedness
/// and identity facts, and appends only `Present` requests to the inbox.
pub proof fn lemma_resolve_all_wf(v: EngineView)
    requires
        v.wf(),
    ensures
        ({
            let (scenes2, inbox2) = spec_resolve_all(v.scenes, v.waiting, v.inbox);
            (EngineView { scenes: scenes2, inbox: inbox2, waiting: Seq::<u64>::empty(), ..v }).wf()
        }),
    decreases v.waiting.len(),
{
    if v.waiting.len() > 0 {
        let id = v.waiting[0];
        let wrest = v.waiting.subrange(1, v.waiting.len() as int);
        match spec_find_scene(v.scenes, id, 0) {
            Some(j) => {
                lemma_find_scene_props(v.scenes, id, 0);
                assert(v.scenes[j].task.wf(v.signals.len() as int));
                let (t2, emits) = v.scenes[j].task.spec_resolve();
                let sc2 = EngineSceneView { id: v.scenes[j].id, task: t2 };
                let scenes2 = v.scenes.update(j, sc2);
                let inbox2 = if emits {
                    v.inbox.push((id, EngineMessage::Present))
                } else {
                    v.inbox
                };
                assert(t2.wf(v.signals.len() as int));
                let mid = EngineView { scenes: scenes2, inbox: inbox2, waiting: wrest, ..v };
                assert(mid.wf()) by {
                    assert forall|i: int|
                        0 <= i < scenes2.len() implies (#[trigger] scenes2[i]).task.wf(
                        v.signals.len() as int,
                    ) && scenes2[i].task.sender.id == scenes2[i].id && scenes2[i].task.info
                        == v.info && scenes2[i].id < v.counter by {
                        if i != j {
                            assert(v.scenes[i].task.wf(v.signals.len() as int));
                            assert(v.scenes[i].task.sender.id == v.scenes[i].id);
                            assert(v.scenes[i].task.info == v.info);
                            assert(v.scenes[i].id < v.counter);
                        } else {
                            assert(v.scenes[j].task.sender.id == v.scenes[j].id);
                            assert(v.scenes[j].task.info == v.info);
                            assert(v.scenes[j].id < v.counter);
                        }
                    };
                    assert forall|i: int, k: int|
                        0 <= i < k < scenes2.len() implies (#[trigger] scenes2[i].id) < (
                    #[trigger] scenes2[k].id) by {
                        assert(v.scenes[i].id < v.scenes[k].id);
                    };
                    assert forall|i: int|
                        0 <= i < inbox2.len() implies ((#[trigger] inbox2[i]).1 matches
                        EngineMessage::CreateNode(_, b) ==> b.wf()) by {
                        if i < v.inbox.len() {
                            assert(v.inbox[i].1 matches EngineMessage::CreateNode(_, b)
                                ==> b.wf());
                        }
                    };
                }
                lemma_resolve_all_wf(mid);
                assert(spec_resolve_all(v.scenes, v.waiting, v.inbox) == spec_resolve_all(
                    scenes2,
                    wrest,
                    inbox2,
                ));
            },
            None => {
                let mid = EngineView { waiting: wrest, ..v };
                assert(mid.wf());
                lemma_resolve_all_wf(mid);
                assert(spec_resolve_all(v.scenes, v.waiting, v.inbox) == spec_resolve_all(
                    v.scenes,
                    wrest,
                    v.inbox,
                ));
            },
        }
    }
}

/// The pump preserves the engine's well-formedness, whatever its outcome.
pub proof fn lemma_pump_wf(v: EngineView)
    requires
        v.wf(),
    ensures
        spec_pump(v).0.wf(),
    decreases engine_work(v.scenes), v.inbox.len(),
{
    lemma_prune_props(v.scenes, v.signals.len() as int, v.info, v.counter);
    lemma_prune_work(v.scenes);
    let p = EngineView { scenes: spec_prune(v.scenes), ..v };
    assert(p.wf());
    if !(p.scenes.len() <= p.waiting.len()) {
        if p.inbox.len() > 0 {
            let from = p.inbox[0].0;
            let msg = p.inbox[0].1;
            let rest = EngineView { inbox: p.inbox.subrange(1, p.inbox.len() as int), ..p };
            assert(rest.wf()) by {
                assert forall|i: int|
                    0 <= i < rest.inbox.len() implies ((#[trigger] rest.inbox[i]).1 matches
                    EngineMessage::CreateNode(_, b) ==> b.wf()) by {
                    assert(p.inbox[i + 1].1 matches EngineMessage::CreateNode(_, b)
                        ==> b.wf());
                };
            }
            assert(msg matches EngineMessage::CreateNode(_, b) ==> b.wf()) by {
                assert(p.inbox[0].1 matches EngineMessage::CreateNode(_, b) ==> b.wf());
            }
            lemma_dispatch_preserves_work(rest, from, msg);
            lemma_dispatch_wf(rest, from, msg);
            let (d, r) = rest.spec_dispatch(from, msg);
            if r is Ok {
                lemma_pump_wf(d);
            }
        } else {
            match spec_find_runnable(p.scenes, 0) {
                Some(i) => {
                    lemma_find_runnable_props(p.scenes, 0);
                    assert(p.scenes[i].task.wf(p.signals.len() as int));
                    crate::scene::lemma_poll_decreases_work(p.scenes[i].task, p.signals);
                    crate::scene::lemma_poll_wf(p.scenes[i].task, p.signals);
                    crate::scene::lemma_poll_msgs_wf(p.scenes[i].task, p.signals);
                    let (v2, t2, msgs, sr) = p.scenes[i].task.spec_poll(p.signals);
                    let sc2 = EngineSceneView { id: p.scenes[i].id, task: v2 };
                    lemma_engine_work_update(p.scenes, i, sc2);
                    let after = EngineView {
                        scenes: p.scenes.update(i, sc2),
                        signals: t2,
                        inbox: p.inbox + msgs,
                        ..p
                    };
                    assert(after.wf()) by {
                        assert forall|k: int|
                            0 <= k < after.scenes.len() implies (
                        #[trigger] after.scenes[k]).task.wf(after.signals.len() as int)
                            && after.scenes[k].task.sender.id == after.scenes[k].id
                            && after.scenes[k].task.info == after.info && after.scenes[k].id
                            < after.counter by {
                            if k != i {
                                assert(p.scenes[k].task.wf(p.signals.len() as int));
                                assert(p.scenes[k].task.sender.id == p.scenes[k].id);
                                assert(p.scenes[k].task.info == p.info);
                                assert(p.scenes[k].id < p.counter);
                            } else {
                                assert(p.scenes[i].task.sender.id == p.scenes[i].id);
                                assert(p.scenes[i].task.info == p.info);
                                assert(p.scenes[i].id < p.counter);
                            }
                        };
                        assert forall|a: int, b: int|
                            0 <= a < b < after.scenes.len() implies (
                        #[trigger] after.scenes[a].id) < (#[trigger] after.scenes[b].id) by {
                            assert(p.scenes[a].id < p.scenes[b].id);
                        };
                        assert forall|k: int|
                            0 <= k < after.inbox.len() implies ((
                        #[trigger] after.inbox[k]).1 matches EngineMessage::CreateNode(_, b)
                            ==> b.wf()) by {
                            assert(after.inbox[k] == msgs[k]);
                        };
                    }
                    if sr is Ok {
                        lemma_pump_wf(after);
                    }
                },
                None => {},
            }
        }
    }
}

/// One whole tick preserves the engine's integrity: from any well-formed
/// state, the state a tick leaves behind is well-formed again.
pub proof fn lemma_run_tick_wf(v: EngineView)
    requires
        v.wf(),
    ensures
        spec_run_tick(v).0.wf(),
{
    lemma_resolve_all_wf(v);
    let (scenes2, inbox2) = spec_resolve_all(v.scenes, v.waiting, v.inbox);
    lemma_pump_wf(
        EngineView { scenes: scenes2, inbox: inbox2, waiting: Seq::<u64>::empty(), ..v },
    );
}

impl Engine {
    /// Removes every finished scene from the registry, keeping order.
    #[verifier::loop_isolation(false)]
    fn prune_scenes(&mut self)
        requires
            old(self)@.wf(),
        ensures
            final(self)@ == (EngineView { scenes: spec_prune(old(self)@.scenes), ..old(self)@ }),
            final(self)@.wf(),
            forall|i: int| 0 <= i < final(self)@.scenes.len() ==> (
            #[trigger] final(self)@.scenes[i]).task.live(),
    {
        let ghost scenes0 = self@.scenes;
        let mut kept: Vec<EngineScene> = Vec::new();
        proof {
            let kview0 = Seq::new(0, |i: int| kept@[i]@);
            assert(kview0 + spec_prune(self@.scenes) =~= spec_prune(self@.scenes));
        }
        while self.scenes.len() > 0
            invariant
                self@.signals == old(self)@.signals,
                self@.nodes == old(self)@.nodes,
                self@.inbox == old(self)@.inbox,
                self@.waiting == old(self)@.waiting,
                self@.counter == old(self)@.counter,
                self@.info == old(self)@.info,
                forall|i: int| 0 <= i < self@.scenes.len() ==> (
                #[trigger] self@.scenes[i]) == scenes0[scenes0.len() - self@.scenes.len() + i],
                self@.scenes.len() <= scenes0.len(),
                spec_prune(scenes0) == Seq::new(kept@.len(), |i: int| kept@[i]@) + spec_prune(
                    self@.scenes,
                ),
                forall|i: int| 0 <= i < kept@.len() ==> (#[trigger] kept@[i]@).task.live(),
                forall|i: int| 0 <= i < kept@.len() ==> (#[trigger] kept@[i]@).task.wf(
                    self@.signals.len() as int,
                ),
                forall|i: int| 0 <= i < kept@.len() ==> (#[trigger] kept@[i]@).task.sender.id
                    == kept@[i]@.id,
                forall|i: int| 0 <= i < kept@.len() ==> (#[trigger] kept@[i]@).task.info
                    == self@.info,
                forall|i: int| 0 <= i < kept@.len() ==> (#[trigger] kept@[i]@).id
                    < self@.counter,
                forall|i: int, j: int| 0 <= i < j < kept@.len() ==> (
                #[trigger] kept@[i]@.id) < (#[trigger] kept@[j]@.id),
                forall|i: int, j: int|
                    0 <= i < kept@.len() && 0 <= j < self@.scenes.len() ==> (
                #[trigger] kept@[i]@.id) < (#[trigger] self@.scenes[j].id),
            decreases self@.scenes.len(),
        {
            let ghost scenes_pre = self@.scenes;
            let ghost kview_pre = Seq::new(kept@.len(), |i: int| kept@[i]@);
            let sc = self.scenes.remove(0);
            proof {
                assert(self@.scenes =~= scenes_pre.subrange(1, scenes_pre.len() as int));
            }
            let live = sc.task.is_live();
            if live {
                kept.push(sc);
                proof {
                    let kview = Seq::new(kept@.len(), |i: int| kept@[i]@);
                    assert(kview =~= kview_pre.push(scenes_pre[0]));
                    assert(kview + spec_prune(self@.scenes) =~= kview_pre + (seq![
                        scenes_pre[0],
                    ] + spec_prune(self@.scenes)));
                }
            }
        }
        proof {
            assert(spec_prune(self@.scenes) =~= Seq::<EngineSceneView>::empty());
            assert(Seq::new(kept@.len(), |i: int| kept@[i]@) + Seq::<
                EngineSceneView,
            >::empty() =~= Seq::new(kept@.len(), |i: int| kept@[i]@));
        }
        let ghost kvec = kept@;
        self.scenes = kept;
        proof {
            assert(self@.scenes =~= Seq::new(kvec.len(), |i: int| kvec[i]@));
        }
    }

    /// The index of the first runnable scene, if any.
    fn find_runnable(&self) -> (r: Option<usize>)
        ensures
            match r {
                Some(i) => spec_find_runnable(self@.scenes, 0) == Some(i as int) && i
                    < self@.scenes.len() && self@.scenes[i as int].task.runnable(),
                None => spec_find_runnable(self@.scenes, 0) is None,
            },
            r is None ==> forall|i: int|
                0 <= i < self@.scenes.len() ==> !(#[trigger] self@.scenes[i]).task.runnable(),
    {
        let mut j: usize = 0;
        let n = self.scenes.len();
        while j < n
            invariant
                j <= n,
                n == self@.scenes.len(),
                spec_find_runnable(self@.scenes, 0) == spec_find_runnable(
                    self@.scenes,
                    j as int,
                ),
                forall|i: int| 0 <= i < j ==> !(#[trigger] self@.scenes[i]).task.runnable(),
            decreases n - j,
        {
            if self.scenes[j].task.is_runnable() {
                return Some(j);
            }
            j = j + 1;
        }
        None
    }

    /// One host tick: releases every waiter parked during the previous
    /// tick, then pumps — drains messages and polls runnable scenes,
    /// pruning finished scenes — until every still-live scene is parked
    /// again, so the frame is settled and the host may render and present.
    /// Fails fatally on a configuration error (an unregistered kind), on a
    /// protocol violation, on a script violation, or — instead of blocking
    /// forever — when a scene is stuck on a reply that cannot come.
    #[verifier::loop_isolation(false)]
    pub fn run(&mut self) -> (r: Result<(), EngineError>)
        requires
            old(self)@.wf(),
        ensures
            final(self)@ == spec_run_tick(old(self)@).0,
            r == spec_run_tick(old(self)@).1,
            final(self)@.wf(),
            final(self)@.counter == old(self)@.counter,
            final(self)@.info == old(self)@.info,
            r is Ok ==> final(self)@.scenes.len() <= final(self)@.waiting.len(),
            r is Ok ==> forall|i: int|
                0 <= i < final(self)@.scenes.len() ==> (
                #[trigger] final(self)@.scenes[i]).task.live(),
            r == Result::<(), EngineError>::Err(EngineError::Stalled) ==> ({
                &&& final(self)@.inbox.len() == 0
                &&& final(self)@.scenes.len() > final(self)@.waiting.len()
                &&& forall|i: int|
                    0 <= i < final(self)@.scenes.len() ==> !(
                    #[trigger] final(self)@.scenes[i]).task.runnable()
            }),
    {
        self.resolve_waiters();
        proof {
            assert(self@ == (EngineView {
                scenes: spec_resolve_all(
                    old(self)@.scenes,
                    old(self)@.waiting,
                    old(self)@.inbox,
                ).0,
                inbox: spec_resolve_all(
                    old(self)@.scenes,
                    old(self)@.waiting,
                    old(self)@.inbox,
                ).1,
                waiting: Seq::<u64>::empty(),
                ..old(self)@
            }));
        }
        loop
            invariant
                self@.wf(),
                self@.counter == old(self)@.counter,
                self@.info == old(self)@.info,
                spec_pump(self@) == spec_run_tick(old(self)@),
            decreases engine_work(self@.scenes), self@.inbox.len(),
        {
            let ghost loop0 = self@;
            self.prune_scenes();
            proof {
                lemma_prune_work(loop0.scenes);
                assert(engine_work(self@.scenes) <= engine_work(loop0.scenes));
                assert(self@ == (EngineView { scenes: spec_prune(loop0.scenes), ..loop0 }));
            }
            if self.scenes.len() <= self.waiting.len() {
                proof {
                    assert(spec_pump(loop0) == (self@, Ok::<(), EngineError>(())));
                }
                return Ok(());
            }
            let ghost pre = self@;
            match self.inbox.pop_front() {
                Some((from, msg)) => {
                    proof {
                        assert(pre.inbox[0] == (from, msg));
                        assert(self@.inbox =~= pre.inbox.subrange(1, pre.inbox.len() as int));
                        assert(pre.inbox[0].1 matches EngineMessage::CreateNode(_, b)
                            ==> b.wf());
                        assert(self@ == (EngineView {
                            inbox: pre.inbox.subrange(1, pre.inbox.len() as int),
                            ..pre
                        }));
                    }
                    let ghost mid = self@;
                    let res = self.dispatch_message(from, msg);
                    proof {
                        lemma_dispatch_preserves_work(mid, from, msg);
                        assert(self@ == mid.spec_dispatch(from, msg).0);
                        assert(spec_pump(loop0) == (if mid.spec_dispatch(from, msg).1 is Ok {
                            spec_pump(self@)
                        } else {
                            (self@, mid.spec_dispatch(from, msg).1)
                        }));
                    }
                    match res {
                        Ok(_) => {},
                        Err(e) => {
                            return Err(e);
                        },
                    }
                },
                None => {
                    match self.find_runnable() {
                        Some(i) => {
                            let ghost scenes_pre = self@.scenes;
                            let mut sc = self.scenes.remove(i);
                            let res = sc.task.poll(&mut self.signals, &mut self.inbox);
                            self.scenes.insert(i, sc);
                            proof {
                                let (v2, t2, msgs, sr) = scenes_pre[i as int].task.spec_poll(
                                    pre.signals,
                                );
                                let sc2 = EngineSceneView {
                                    id: scenes_pre[i as int].id,
                                    task: v2,
                                };
                                assert(self@.scenes =~= scenes_pre.update(i as int, sc2));
                                crate::scene::lemma_poll_decreases_work(
                                    scenes_pre[i as int].task,
                                    pre.signals,
                                );
                                lemma_engine_work_update(scenes_pre, i as int, sc2);
                                crate::scene::lemma_poll_msgs_wf(
                                    scenes_pre[i as int].task,
                                    pre.signals,
                                );
                                assert forall|k: int|
                                    0 <= k < self@.inbox.len() implies ((
                                #[trigger] self@.inbox[k]).1 matches EngineMessage::CreateNode(
                                    _,
                                    b,
                                ) ==> b.wf()) by {
                                    assert(self@.inbox[k] == msgs[k]);
                                };
                                assert forall|k: int|
                                    0 <= k < self@.scenes.len() implies (
                                #[trigger] self@.scenes[k]).task.wf(
                                    self@.signals.len() as int,
                                ) by {
                                    if k != i as int {
                                        assert(scenes_pre[k].task.wf(pre.signals.len() as int));
                                    }
                                };
                                assert(self@.inbox =~= pre.inbox + msgs);
                                assert(self@ == (EngineView {
                                    scenes: pre.scenes.update(i as int, sc2),
                                    signals: t2,
                                    inbox: pre.inbox + msgs,
                                    ..pre
                                }));
                                assert(spec_pump(loop0) == (if sr is Ok {
                                    spec_pump(self@)
                                } else {
                                    (self@, sr)
                                }));
                            }
                            match res {
                                Ok(_) => {},
                                Err(e) => {
                                    return Err(e);
                                },
                            }
                        },
                        None => {
                            proof {
                                assert(spec_pump(loop0) == (
                                    self@,
                                    Err::<(), EngineError>(EngineError::Stalled),
                                ));
                            }
                            return Err(EngineError::Stalled);
                        },
                    }
                },
            }
        }
    }
}

} // verus!
