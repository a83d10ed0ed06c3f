//! Scene tasks: explicit coroutines interpreted by the engine.
//!
//! A scene is a script of steps.  The engine polls the scene's task; each
//! poll runs the task up to its next suspension point, sending protocol
//! messages into the engine's inbox on the way.  A scene suspends exactly
//! when it awaits a `CreateRef` reply, when it parks in a `Present` wait,
//! and between two rounds of a tween executor.

use std::collections::VecDeque;
use vstd::prelude::*;

use crate::color::Color;
use crate::engine_message::{EngineError, EngineMessage, EngineSender, Ty};
use crate::info::Info;
use crate::node::{create_node_ref, spec_create_node_ref, NodeBuilderKind, RawNode, SceneNode};
use crate::rect::{Rect, Vec2};
use crate::signal::{table_wf, SignalTable, SignalValue};
use crate::tween::{executor_wf, spec_round, spec_valid_targets, Executor, Tween};

verus! {

/// One instruction of a scene script.
#[derive(Debug)]
pub enum SceneStep {
    /// Spawn a node: a `CreateRef` round trip followed by `CreateNode`.
    Spawn(NodeBuilderKind),
    /// Send a fresh position through a rectangle's position channel, then
    /// ask for an update pass.
    SetPosition { node: usize, value: Vec2 },
    /// Send a fresh size through a rectangle's size channel, then ask for
    /// an update pass.
    SetSize { node: usize, value: Vec2 },
    /// Send a fresh color through a rectangle's color channel, then ask
    /// for an update pass.
    SetColor { node: usize, value: Color },
    /// Park until the given number of frames have been presented; zero
    /// frames do nothing.
    Present(u32),
    /// Ask for an update pass on every registered manager.
    Update,
    /// Send a node's drop pulse, then ask for an update pass.
    DropNode { node: usize },
    /// Drive the given interpolations in lockstep to completion.
    RunTweens(Vec<Tween>),
}

/// Where a scene stands relative to the engine.
#[derive(Debug)]
pub enum SceneStatus {
    /// Executing between suspension points.
    Running,
    /// Blocked until the `CreateRef` reply for the held builder arrives.
    AwaitingRef(NodeBuilderKind),
    /// The `CreateRef` reply arrived; the node is wired at the next poll.
    RefReady(NodeBuilderKind, RawNode),
    /// Parked in a `Present` wait with `left` frames still owed.
    AwaitingFrame { left: u32 },
    /// Between two rounds of a tween executor.
    InTween(Executor),
    /// The tween executor's end action parked the scene for one frame.
    TweenParked(Executor),
    /// The script has finished; the scene is pruned at the next pump.
    Done,
}

/// The abstract state of a [`SceneStatus`].
pub enum SceneStatusView {
    Running,
    AwaitingRef(NodeBuilderKind),
    RefReady(NodeBuilderKind, RawNode),
    AwaitingFrame { left: u32 },
    InTween(Seq<Tween>),
    TweenParked(Seq<Tween>),
    Done,
}

impl View for SceneStatus {
    type V = SceneStatusView;

    open spec fn view(&self) -> SceneStatusView {
        match self {
            SceneStatus::Running => SceneStatusView::Running,
            SceneStatus::AwaitingRef(b) => SceneStatusView::AwaitingRef(*b),
            SceneStatus::RefReady(b, raw) => SceneStatusView::RefReady(*b, *raw),
            SceneStatus::AwaitingFrame { left } => SceneStatusView::AwaitingFrame {
                left: *left,
            },
            SceneStatus::InTween(e) => SceneStatusView::InTween(e@),
            SceneStatus::TweenParked(e) => SceneStatusView::TweenParked(e@),
            SceneStatus::Done => SceneStatusView::Done,
        }
    }
}

impl RawNode {
    /// Every producer end names a slot inside a table of length `n`.
    pub open spec fn wf(self, n: int) -> bool {
        match self {
            RawNode::Rect(r) => r.position.slot < n && r.size.slot < n && r.color.slot < n
                && r.drop.slot < n,
            RawNode::Audio(a) => a.drop.slot < n,
        }
    }
}

/// The handle injected into each scene: its sending end of the engine's
/// inbox, a copy of the frame metadata, and the interpreter state of the
/// scene's script.
#[derive(Debug)]
pub struct SceneTask {
    pub sender: EngineSender,
    pub info: Info,
    pub script: Vec<SceneStep>,
    pub pc: usize,
    pub status: SceneStatus,
    pub nodes: Vec<SceneNode>,
}

/// The abstract state of a [`SceneTask`].
pub struct SceneTaskView {
    pub sender: EngineSender,
    pub info: Info,
    pub script: Seq<SceneStep>,
    pub pc: usize,
    pub status: SceneStatusView,
    pub nodes: Seq<SceneNode>,
}

impl View for SceneTask {
    type V = SceneTaskView;

    open spec fn view(&self) -> SceneTaskView {
        SceneTaskView {
            sender: self.sender,
            info: self.info,
            script: self.script@,
            pc: self.pc,
            status: self.status@,
            nodes: self.nodes@,
        }
    }
}

impl SceneTaskView {
    /// The scene is mid-step: its program counter still addresses a step.
    pub open spec fn mid_step(self) -> bool {
        self.pc < self.script.len()
    }

    /// Well-formed against a signal table of length `n`: bounded metadata,
    /// program counter inside the script, every node handle and every
    /// status payload inside the table.
    pub open spec fn wf(self, n: int) -> bool {
        &&& self.info.wf()
        &&& self.script.len() <= usize::MAX
        &&& self.pc <= self.script.len()
        &&& forall|i: int| 0 <= i < self.nodes.len() ==> (#[trigger] self.nodes[i]).wf(n)
        &&& match self.status {
            SceneStatusView::Running => true,
            SceneStatusView::AwaitingRef(b) => b.wf() && self.mid_step(),
            SceneStatusView::RefReady(b, raw) => b.wf() && raw.wf(n) && self.mid_step(),
            SceneStatusView::AwaitingFrame { left } => left > 0 && self.mid_step(),
            SceneStatusView::InTween(ts) => executor_wf(ts) && self.mid_step(),
            SceneStatusView::TweenParked(ts) => executor_wf(ts) && self.mid_step(),
            SceneStatusView::Done => true,
        }
    }

    /// A scene is runnable when polling it can make progress without an
    /// engine reply: it is executing, holds a fresh `CreateRef` reply, or
    /// stands between two tween rounds.
    pub open spec fn runnable(self) -> bool {
        self.status is Running || self.status is RefReady || self.status is InTween
    }

    /// A scene is live until its script has finished.
    pub open spec fn live(self) -> bool {
        !(self.status is Done)
    }

    /// The task state, signal table, emitted messages and outcome of one
    /// poll.  A poll of a non-runnable scene changes nothing.
    pub open spec fn spec_poll(self, t: Seq<Option<SignalValue>>) -> (
        SceneTaskView,
        Seq<Option<SignalValue>>,
        Seq<(u64, EngineMessage)>,
        Result<(), EngineError>,
    ) {
        let id = self.sender.id;
        let none = Seq::<(u64, EngineMessage)>::empty();
        match self.status {
            SceneStatusView::Running => {
                if self.pc >= self.script.len() {
                    (SceneTaskView { status: SceneStatusView::Done, ..self }, t, none, Ok(()))
                } else {
                    match self.script[self.pc as int] {
                        SceneStep::Spawn(b) => {
                            if b.wf() {
                                (
                                    SceneTaskView {
                                        status: SceneStatusView::AwaitingRef(b),
                                        ..self
                                    },
                                    t,
                                    seq![
                                        (
                                            id,
                                            EngineMessage::CreateRef(
                                                Ty::spec_of(b.spec_kind()),
                                            ),
                                        ),
                                    ],
                                    Ok(()),
                                )
                            } else {
                                (self, t, none, Err(EngineError::ScriptViolation))
                            }
                        },
                        SceneStep::SetPosition { node, value } => self.spec_set_pair(
                            t,
                            node,
                            value,
                            true,
                        ),
                        SceneStep::SetSize { node, value } => self.spec_set_pair(
                            t,
                            node,
                            value,
                            false,
                        ),
                        SceneStep::SetColor { node, value } => {
                            if node >= self.nodes.len() || !(self.nodes[node as int]
                                is Rect) {
                                (self, t, none, Err(EngineError::ScriptViolation))
                            } else {
                                match self.nodes[node as int] {
                                    SceneNode::Rect(r) => {
                                        let nv = SignalValue::Color(value);
                                        let r2 = Rect { color: r.color.spec_set(nv), ..r };
                                        (
                                            SceneTaskView {
                                                pc: (self.pc + 1) as usize,
                                                nodes: self.nodes.update(
                                                    node as int,
                                                    SceneNode::Rect(r2),
                                                ),
                                                ..self
                                            },
                                            t.update(r.color.inner.slot as int, Some(nv)),
                                            seq![(id, EngineMessage::Update)],
                                            Ok(()),
                                        )
                                    },
                                    _ => (self, t, none, Err(EngineError::ScriptViolation)),
                                }
                            }
                        },
                        SceneStep::Present(frames) => {
                            if frames == 0 {
                                (
                                    SceneTaskView { pc: (self.pc + 1) as usize, ..self },
                                    t,
                                    none,
                                    Ok(()),
                                )
                            } else {
                                (
                                    SceneTaskView {
                                        status: SceneStatusView::AwaitingFrame {
                                            left: frames,
                                        },
                                        ..self
                                    },
                                    t,
                                    seq![(id, EngineMessage::Present)],
                                    Ok(()),
                                )
                            }
                        },
                        SceneStep::Update => (
                            SceneTaskView { pc: (self.pc + 1) as usize, ..self },
                            t,
                            seq![(id, EngineMessage::Update)],
                            Ok(()),
                        ),
                        SceneStep::DropNode { node } => {
                            if node >= self.nodes.len() {
                                (self, t, none, Err(EngineError::ScriptViolation))
                            } else {
                                match self.nodes[node as int] {
                                    SceneNode::Rect(r) => {
                                        let r2 = Rect {
                                            drop: r.drop.spec_set(SignalValue::Unit),
                                            dropped: true,
                                            ..r
                                        };
                                        (
                                            SceneTaskView {
                                                pc: (self.pc + 1) as usize,
                                                nodes: self.nodes.update(
                                                    node as int,
                                                    SceneNode::Rect(r2),
                                                ),
                                                ..self
                                            },
                                            t.update(
                                                r.drop.inner.slot as int,
                                                Some(SignalValue::Unit),
                                            ),
                                            seq![
                                                (id, EngineMessage::Update),
                                                (id, EngineMessage::Update),
                                            ],
                                            Ok(()),
                                        )
                                    },
                                    SceneNode::Audio(a) => {
                                        let a2 = crate::audio::Audio {
                                            drop: a.drop.spec_set(SignalValue::Unit),
                                            dropped: true,
                                        };
                                        (
                                            SceneTaskView {
                                                pc: (self.pc + 1) as usize,
                                                nodes: self.nodes.update(
                                                    node as int,
                                                    SceneNode::Audio(a2),
                                                ),
                                                ..self
                                            },
                                            t.update(
                                                a.drop.inner.slot as int,
                                                Some(SignalValue::Unit),
                                            ),
                                            seq![
                                                (id, EngineMessage::Update),
                                                (id, EngineMessage::Update),
                                            ],
                                            Ok(()),
                                        )
                                    },
                                }
                            }
                        },
                        SceneStep::RunTweens(ts) => {
                            if executor_wf(ts@) {
                                (
                                    SceneTaskView {
                                        status: SceneStatusView::InTween(ts@),
                                        ..self
                                    },
                                    t,
                                    none,
                                    Ok(()),
                                )
                            } else {
                                (self, t, none, Err(EngineError::ScriptViolation))
                            }
                        },
                    }
                }
            },
            SceneStatusView::RefReady(b, raw) => {
                match spec_create_node_ref(b, raw) {
                    Ok(node) => (
                        SceneTaskView {
                            pc: (self.pc + 1) as usize,
                            status: SceneStatusView::Running,
                            nodes: self.nodes.push(node),
                            ..self
                        },
                        t,
                        seq![
                            (
                                id,
                                EngineMessage::CreateNode(Ty::spec_of(b.spec_kind()), b),
                            ),
                        ],
                        Ok(()),
                    ),
                    Err(e) => (self, t, none, Err(e)),
                }
            },
            SceneStatusView::InTween(ts) => {
                if !spec_valid_targets(ts, self.nodes) {
                    (self, t, none, Err(EngineError::ScriptViolation))
                } else {
                    let (st, nd, tb, msgs, done) = spec_round(
                        ts,
                        self.nodes,
                        t,
                        id,
                        self.info.delta_micros,
                    );
                    if done {
                        (
                            SceneTaskView {
                                pc: (self.pc + 1) as usize,
                                status: SceneStatusView::Running,
                                nodes: nd,
                                ..self
                            },
                            tb,
                            msgs,
                            Ok(()),
                        )
                    } else {
                        (
                            SceneTaskView {
                                status: SceneStatusView::TweenParked(st),
                                nodes: nd,
                                ..self
                            },
                            tb,
                            msgs,
                            Ok(()),
                        )
                    }
                }
            },
            _ => (self, t, none, Ok(())),
        }
    }

    /// Shared shape of the position and size steps: send the pair through
    /// the node's channel and ask for an update pass.
    pub open spec fn spec_set_pair(
        self,
        t: Seq<Option<SignalValue>>,
        node: usize,
        value: Vec2,
        position: bool,
    ) -> (
        SceneTaskView,
        Seq<Option<SignalValue>>,
        Seq<(u64, EngineMessage)>,
        Result<(), EngineError>,
    ) {
        let id = self.sender.id;
        let none = Seq::<(u64, EngineMessage)>::empty();
        if node >= self.nodes.len() || !(self.nodes[node as int] is Rect) || !value.wf() {
            (self, t, none, Err(EngineError::ScriptViolation))
        } else {
            match self.nodes[node as int] {
                SceneNode::Rect(r) => {
                    let nv = SignalValue::Pair(value.x, value.y);
                    let r2 = if position {
                        Rect { position: r.position.spec_set(nv), ..r }
                    } else {
                        Rect { size: r.size.spec_set(nv), ..r }
                    };
                    let slot = if position {
                        r.position.inner.slot
                    } else {
                        r.size.inner.slot
                    };
                    (
                        SceneTaskView {
                            pc: (self.pc + 1) as usize,
                            nodes: self.nodes.update(node as int, SceneNode::Rect(r2)),
                            ..self
                        },
                        t.update(slot as int, Some(nv)),
                        seq![(id, EngineMessage::Update)],
                        Ok(()),
                    )
                },
                _ => (self, t, none, Err(EngineError::ScriptViolation)),
            }
        }
    }
}

impl SceneTask {
    /// A fresh task for `script`, bound to scene id `id`.
    pub fn new(id: u64, info: Info, script: Vec<SceneStep>) -> (task: SceneTask)
        ensures
            task@ == (SceneTaskView {
                sender: EngineSender { id },
                info,
                script: script@,
                pc: 0,
                status: SceneStatusView::Running,
                nodes: Seq::<SceneNode>::empty(),
            }),
    {
        SceneTask {
            sender: EngineSender { id },
            info,
            script,
            pc: 0,
            status: SceneStatus::Running,
            nodes: Vec::new(),
        }
    }

    /// A copy of the frame metadata.
    pub fn info(&self) -> (r: Info)
        ensures
            r == self.info,
    {
        self.info
    }

    /// The frame rate implied by the frame metadata.
    pub fn fps(&self) -> (r: u64)
        requires
            self@.info.wf(),
        ensures
            r == self.info.spec_fps(),
    {
        self.info.fps()
    }

    /// The frame interval in microseconds.
    pub fn delta(&self) -> (r: u64)
        ensures
            r == self.info.delta_micros,
    {
        self.info.delta_micros
    }

    /// Starts collecting a lockstep group of interpolations; the result
    /// becomes a `RunTweens` script step.
    pub fn tween(&self, tween: Tween) -> (b: crate::tween::TweenBuilder)
        ensures
            b.tweens@ == seq![tween],
    {
        crate::tween::TweenBuilder::new(tween)
    }

    /// Asks the engine for an update pass on every registered manager.
    pub fn update(&self, inbox: &mut VecDeque<(u64, EngineMessage)>)
        ensures
            final(inbox)@ == old(inbox)@.push((self.sender.id, EngineMessage::Update)),
    {
        self.sender.send(inbox, EngineMessage::Update);
    }

    /// Runs the scene up to its next suspension point, sending protocol
    /// messages into `inbox` on the way.
    pub fn poll(&mut self, table: &mut SignalTable, inbox: &mut VecDeque<(u64, EngineMessage)>)
        -> (r: Result<(), EngineError>)
        requires
            old(self)@.wf(old(table)@.len() as int),
            table_wf(old(table)@),
        ensures
            ({
                let (v2, t2, msgs, sr) = old(self)@.spec_poll(old(table)@);
                &&& final(self)@ == v2
                &&& final(table)@ == t2
                &&& final(inbox)@ == old(inbox)@ + msgs
                &&& r == sr
            }),
            final(table)@.len() == old(table)@.len(),
            table_wf(final(table)@),
            final(self)@.wf(final(table)@.len() as int),
            final(self)@.sender == old(self)@.sender,
            final(self)@.info == old(self)@.info,
            final(self)@.script == old(self)@.script,
    {
        let mut cur = SceneStatus::Running;
        core::mem::swap(&mut self.status, &mut cur);
        match cur {
            SceneStatus::Running => {
                if self.pc >= self.script.len() {
                    self.status = SceneStatus::Done;
                    return Ok(());
                }
                self.status = SceneStatus::Running;
                self.poll_step(table, inbox)
            },
            SceneStatus::AwaitingRef(b) => {
                self.status = SceneStatus::AwaitingRef(b);
                Ok(())
            },
            SceneStatus::RefReady(b, raw) => {
                let scriptlen = self.script.len();
                proof {
                    assert(self.pc < scriptlen);
                }
                match create_node_ref(&b, raw) {
                    Ok(node) => {
                        self.nodes.push(node);
                        self.sender.send(
                            inbox,
                            EngineMessage::CreateNode(Ty::of(b.kind()), b),
                        );
                        self.pc = self.pc + 1;
                        self.status = SceneStatus::Running;
                        Ok(())
                    },
                    Err(e) => {
                        self.status = SceneStatus::RefReady(b, raw);
                        Err(e)
                    },
                }
            },
            SceneStatus::AwaitingFrame { left } => {
                self.status = SceneStatus::AwaitingFrame { left };
                Ok(())
            },
            SceneStatus::InTween(mut ex) => {
                let delta = self.info.delta_micros;
                let scriptlen = self.script.len();
                proof {
                    assert(self.pc < scriptlen);
                }
                match ex.poll(&mut self.nodes, table, &self.sender, inbox, delta) {
                    Ok(true) => {
                        self.pc = self.pc + 1;
                        self.status = SceneStatus::Running;
                        Ok(())
                    },
                    Ok(false) => {
                        self.status = SceneStatus::TweenParked(ex);
                        Ok(())
                    },
                    Err(e) => {
                        self.status = SceneStatus::InTween(ex);
                        Err(e)
                    },
                }
            },
            SceneStatus::TweenParked(ex) => {
                self.status = SceneStatus::TweenParked(ex);
                Ok(())
            },
            SceneStatus::Done => {
                self.status = SceneStatus::Done;
                Ok(())
            },
        }
    }

    /// Executes the script step under the program counter; the scene is
    /// running and the counter addresses a step.
    #[verifier::loop_isolation(false)]
    fn poll_step(&mut self, table: &mut SignalTable, inbox: &mut VecDeque<(u64, EngineMessage)>)
        -> (r: Result<(), EngineError>)
        requires
            old(self)@.wf(old(table)@.len() as int),
            table_wf(old(table)@),
            old(self)@.status is Running,
            old(self)@.pc < old(self)@.script.len(),
        ensures
            ({
                let (v2, t2, msgs, sr) = old(self)@.spec_poll(old(table)@);
                &&& final(self)@ == v2
                &&& final(table)@ == t2
                &&& final(inbox)@ == old(inbox)@ + msgs
                &&& r == sr
            }),
            final(table)@.len() == old(table)@.len(),
            table_wf(final(table)@),
            final(self)@.wf(final(table)@.len() as int),
            final(self)@.sender == old(self)@.sender,
            final(self)@.info == old(self)@.info,
            final(self)@.script == old(self)@.script,
    {
        let pc = self.pc;
        let scriptlen = self.script.len();
        proof {
            assert(pc < scriptlen);
        }
        match &self.script[pc] {
            SceneStep::Spawn(b) => {
                let builder = *b;
                if !builder.bounded() {
                    return Err(EngineError::ScriptViolation);
                }
                self.sender.send(inbox, EngineMessage::CreateRef(Ty::of(builder.kind())));
                self.status = SceneStatus::AwaitingRef(builder);
                Ok(())
            },
            SceneStep::SetPosition { node, value } => {
                let node = *node;
                let value = *value;
                self.set_pair(table, inbox, node, value, true)
            },
            SceneStep::SetSize { node, value } => {
                let node = *node;
                let value = *value;
                self.set_pair(table, inbox, node, value, false)
            },
            SceneStep::SetColor { node, value } => {
                let node = *node;
                let value = *value;
                if node >= self.nodes.len() {
                    return Err(EngineError::ScriptViolation);
                }
                let mut handle = self.nodes.remove(node);
                match &mut handle {
                    SceneNode::Rect(r) => {
                        r.color.set(table, SignalValue::Color(value));
                        self.nodes.insert(node, handle);
                        self.sender.send(inbox, EngineMessage::Update);
                        self.pc = pc + 1;
                        proof {
                            assert(self.nodes@ =~= old(self)@.nodes.update(
                                node as int,
                                self.nodes@[node as int],
                            ));
                        }
                        Ok(())
                    },
                    _ => {
                        self.nodes.insert(node, handle);
                        proof {
                            assert(self.nodes@ =~= old(self)@.nodes);
                        }
                        Err(EngineError::ScriptViolation)
                    },
                }
            },
            SceneStep::Present(frames) => {
                let frames = *frames;
                if frames == 0 {
                    self.pc = pc + 1;
                    Ok(())
                } else {
                    self.sender.send(inbox, EngineMessage::Present);
                    self.status = SceneStatus::AwaitingFrame { left: frames };
                    Ok(())
                }
            },
            SceneStep::Update => {
                self.sender.send(inbox, EngineMessage::Update);
                self.pc = pc + 1;
                Ok(())
            },
            SceneStep::DropNode { node } => {
                let node = *node;
                if node >= self.nodes.len() {
                    return Err(EngineError::ScriptViolation);
                }
                let mut handle = self.nodes.remove(node);
                match &mut handle {
                    SceneNode::Rect(r) => {
                        r.drop(table);
                    },
                    SceneNode::Audio(a) => {
                        a.drop(table);
                    },
                }
                self.nodes.insert(node, handle);
                self.sender.send(inbox, EngineMessage::Update);
                self.sender.send(inbox, EngineMessage::Update);
                self.pc = pc + 1;
                proof {
                    assert(self.nodes@ =~= old(self)@.nodes.update(
                        node as int,
                        self.nodes@[node as int],
                    ));
                }
                Ok(())
            },
            SceneStep::RunTweens(ts) => {
                let mut steps: Vec<Tween> = Vec::new();
                let mut i: usize = 0;
                let n = ts.len();
                while i < n
                    invariant
                        i <= n,
                        n == ts@.len(),
                        steps@ == ts@.subrange(0, i as int),
                        forall|j: int| 0 <= j < i ==> (#[trigger] ts@[j]).wf(),
                    decreases n - i,
                {
                    let tw = ts[i];
                    if !(tw.time_micros > 0 && tw.time_micros <= crate::tween::MAX_TWEEN_MICROS
                        && tw.elapsed_micros <= tw.time_micros && tw.from
                        >= -crate::signal::COORD_LIMIT && tw.from <= crate::signal::COORD_LIMIT
                        && tw.to >= -crate::signal::COORD_LIMIT && tw.to
                        <= crate::signal::COORD_LIMIT) {
                        proof {
                            assert(!ts@[i as int].wf());
                            assert(!executor_wf(ts@));
                        }
                        return Err(EngineError::ScriptViolation);
                    }
                    steps.push(tw);
                    proof {
                        assert(steps@ =~= ts@.subrange(0, i as int + 1));
                    }
                    i = i + 1;
                }
                proof {
                    assert(steps@ =~= ts@);
                }
                self.status = SceneStatus::InTween(Executor { steps });
                Ok(())
            },
        }
    }

    /// Shared body of the position and size steps.
    fn set_pair(
        &mut self,
        table: &mut SignalTable,
        inbox: &mut VecDeque<(u64, EngineMessage)>,
        node: usize,
        value: Vec2,
        position: bool,
    ) -> (r: Result<(), EngineError>)
        requires
            old(self)@.wf(old(table)@.len() as int),
            table_wf(old(table)@),
            old(self)@.status is Running,
            old(self)@.pc < old(self)@.script.len(),
        ensures
            ({
                let (v2, t2, msgs, sr) = old(self)@.spec_set_pair(old(table)@, node, value,
                    position);
                &&& final(self)@ == v2
                &&& final(table)@ == t2
                &&& final(inbox)@ == old(inbox)@ + msgs
                &&& r == sr
            }),
            final(table)@.len() == old(table)@.len(),
            table_wf(final(table)@),
            final(self)@.wf(final(table)@.len() as int),
            final(self)@.sender == old(self)@.sender,
            final(self)@.info == old(self)@.info,
            final(self)@.script == old(self)@.script,
    {
        let scriptlen = self.script.len();
        proof {
            assert(self.pc < scriptlen);
        }
        if node >= self.nodes.len() {
            return Err(EngineError::ScriptViolation);
        }
        if !(value.x >= -crate::signal::COORD_LIMIT && value.x <= crate::signal::COORD_LIMIT
            && value.y >= -crate::signal::COORD_LIMIT && value.y
            <= crate::signal::COORD_LIMIT) {
            return Err(EngineError::ScriptViolation);
        }
        let mut handle = self.nodes.remove(node);
        match &mut handle {
            SceneNode::Rect(r) => {
                if position {
                    r.position.set(table, SignalValue::Pair(value.x, value.y));
                } else {
                    r.size.set(table, SignalValue::Pair(value.x, value.y));
                }
                self.nodes.insert(node, handle);
                self.sender.send(inbox, EngineMessage::Update);
                self.pc = self.pc + 1;
                proof {
                    assert(self.nodes@ =~= old(self)@.nodes.update(
                        node as int,
                        self.nodes@[node as int],
                    ));
                }
                Ok(())
            },
            _ => {
                self.nodes.insert(node, handle);
                proof {
                    assert(self.nodes@ =~= old(self)@.nodes);
                }
                Err(EngineError::ScriptViolation)
            },
        }
    }
}

impl SceneTaskView {
    /// The task after one frame resolution, and whether it immediately
    /// sends the next `Present` because more frames are owed.  Resolution
    /// touches only parked scenes: an `AwaitingFrame` scene consumes one
    /// owed frame, a `TweenParked` scene re-enters its tween; any other
    /// scene is left alone.
    pub open spec fn spec_resolve(self) -> (SceneTaskView, bool) {
        match self.status {
            SceneStatusView::AwaitingFrame { left } => {
                if left <= 1 {
                    (
                        SceneTaskView {
                            pc: (self.pc + 1) as usize,
                            status: SceneStatusView::Running,
                            ..self
                        },
                        false,
                    )
                } else {
                    (
                        SceneTaskView {
                            status: SceneStatusView::AwaitingFrame { left: (left - 1) as u32 },
                            ..self
                        },
                        true,
                    )
                }
            },
            SceneStatusView::TweenParked(ts) => (
                SceneTaskView { status: SceneStatusView::InTween(ts), ..self },
                false,
            ),
            _ => (self, false),
        }
    }
}

impl SceneTask {
    /// Consumes one owed frame of a parked scene; the result tells the
    /// engine whether the next owed `Present` must be sent.
    pub fn resolve(&mut self) -> (emits: bool)
        requires
            (old(self)@.status matches SceneStatusView::AwaitingFrame { .. }) ==> old(
                self,
            )@.mid_step(),
        ensures
            ({
                let (v2, em) = old(self)@.spec_resolve();
                &&& final(self)@ == v2
                &&& emits == em
            }),
    {
        let mut cur = SceneStatus::Running;
        core::mem::swap(&mut self.status, &mut cur);
        proof {
            assert(cur@ == old(self)@.status);
        }
        match cur {
            SceneStatus::AwaitingFrame { left } => {
                if left <= 1 {
                    let scriptlen = self.script.len();
                    proof {
                        assert(old(self)@.status matches SceneStatusView::AwaitingFrame { .. });
                        assert(self.pc < scriptlen);
                    }
                    self.pc = self.pc + 1;
                    self.status = SceneStatus::Running;
                    false
                } else {
                    self.status = SceneStatus::AwaitingFrame { left: left - 1 };
                    true
                }
            },
            SceneStatus::TweenParked(ex) => {
                self.status = SceneStatus::InTween(ex);
                false
            },
            other => {
                self.status = other;
                false
            },
        }
    }
}

/// The task after `k` frame resolutions.
pub open spec fn spec_resolve_iter(v: SceneTaskView, k: nat) -> SceneTaskView
    decreases k,
{
    if k == 0 {
        v
    } else {
        spec_resolve_iter(v.spec_resolve().0, (k - 1) as nat)
    }
}

/// A scene that entered a `Present(n)` wait resumes exactly once per
/// settled frame, never early and never skipped: after each of the first
/// `n - 1` frame resolutions it is parked again with one frame fewer owed
/// and its program counter unmoved, and exactly the `n`-th resolution lets
/// it advance past the `Present` step.
pub proof fn lemma_present_blocks_n_frames(v: SceneTaskView, n: u32, k: nat)
    requires
        v.status == (SceneStatusView::AwaitingFrame { left: n }),
        n > 0,
        v.mid_step(),
        v.pc < usize::MAX,
        k <= n,
    ensures
        k < n ==> spec_resolve_iter(v, k).status == (SceneStatusView::AwaitingFrame {
            left: (n - k) as u32,
        }) && spec_resolve_iter(v, k).pc == v.pc,
        k == n ==> spec_resolve_iter(v, k).status is Running && spec_resolve_iter(v, k).pc
            == v.pc + 1,
    decreases k,
{
    if k > 0 {
        let (v1, _em) = v.spec_resolve();
        if n == 1 {
            assert(v1.status is Running && v1.pc == v.pc + 1);
            lemma_resolve_fixpoint_running(v1, (k - 1) as nat);
        } else {
            lemma_present_blocks_n_frames(v1, (n - 1) as u32, (k - 1) as nat);
        }
    }
}

/// Frame resolution does not touch a running scene.
pub proof fn lemma_resolve_fixpoint_running(v: SceneTaskView, k: nat)
    requires
        v.status is Running,
    ensures
        spec_resolve_iter(v, k) == v,
    decreases k,
{
    if k > 0 {
        lemma_resolve_fixpoint_running(v.spec_resolve().0, (k - 1) as nat);
    }
}

impl SceneTask {
    /// Whether the scene's script is still unfinished.
    pub fn is_live(&self) -> (r: bool)
        ensures
            r == self@.live(),
    {
        match &self.status {
            SceneStatus::Done => false,
            _ => true,
        }
    }

    /// Whether polling the scene can make progress without an engine reply.
    pub fn is_runnable(&self) -> (r: bool)
        ensures
            r == self@.runnable(),
    {
        match &self.status {
            SceneStatus::Running => true,
            SceneStatus::RefReady(_, _) => true,
            SceneStatus::InTween(_) => true,
            _ => false,
        }
    }
}

/// An upper bound on the polls one script step can take within one tick.
pub open spec fn step_cost(s: SceneStep) -> nat {
    match s {
        SceneStep::Spawn(_) => 2,
        SceneStep::DropNode { .. } => 2,
        SceneStep::RunTweens(ts) => 2 + ts@.len(),
        _ => 1,
    }
}

/// The work remaining in a script from step `pc` on.
pub open spec fn suffix_cost(script: Seq<SceneStep>, pc: int) -> nat
    decreases script.len() - pc,
{
    if pc < 0 || pc >= script.len() {
        0
    } else {
        step_cost(script[pc]) + suffix_cost(script, pc + 1)
    }
}

/// The polls a scene can still consume within the current tick.  A parked
/// or finished scene consumes none until the next tick.
pub open spec fn task_work(v: SceneTaskView) -> nat {
    match v.status {
        SceneStatusView::Running => 1 + suffix_cost(v.script, v.pc as int),
        SceneStatusView::AwaitingRef(_) => 2 + suffix_cost(v.script, v.pc as int + 1),
        SceneStatusView::RefReady(_, _) => 2 + suffix_cost(v.script, v.pc as int + 1),
        SceneStatusView::InTween(ts) => 2 + ts.len() + suffix_cost(v.script, v.pc as int + 1),
        SceneStatusView::AwaitingFrame { .. } => 0,
        SceneStatusView::TweenParked(_) => 0,
        SceneStatusView::Done => 0,
    }
}

/// Polling a runnable scene strictly decreases its remaining work for the
/// tick, so the engine's pump makes progress.
pub proof fn lemma_poll_decreases_work(v: SceneTaskView, t: Seq<Option<SignalValue>>)
    requires
        v.wf(t.len() as int),
        v.runnable(),
        v.script.len() <= usize::MAX,
    ensures
        v.spec_poll(t).3 is Ok ==> task_work(v.spec_poll(t).0) < task_work(v),
{
    let (v2, t2, msgs, r) = v.spec_poll(t);
    match v.status {
        SceneStatusView::Running => {
            if v.pc < v.script.len() {
                assert(suffix_cost(v.script, v.pc as int) == step_cost(
                    v.script[v.pc as int],
                ) + suffix_cost(v.script, v.pc as int + 1));
                match v.script[v.pc as int] {
                    SceneStep::Spawn(b) => {
                        assert(r is Ok ==> task_work(v2) < task_work(v));
                    },
                    SceneStep::SetPosition { node, value } => {
                        assert(r is Ok ==> task_work(v2) < task_work(v));
                    },
                    SceneStep::SetSize { node, value } => {
                        assert(r is Ok ==> task_work(v2) < task_work(v));
                    },
                    SceneStep::SetColor { node, value } => {
                        assert(r is Ok ==> task_work(v2) < task_work(v));
                    },
                    SceneStep::Present(frames) => {
                        assert(r is Ok ==> task_work(v2) < task_work(v));
                    },
                    SceneStep::Update => {
                        assert(r is Ok ==> task_work(v2) < task_work(v));
                    },
                    SceneStep::DropNode { node } => {
                        assert(r is Ok ==> task_work(v2) < task_work(v));
                    },
                    SceneStep::RunTweens(ts) => {
                        assert(r is Ok ==> task_work(v2) < task_work(v));
                    },
                }
            } else {
                assert(v2.status is Done);
            }
        },
        SceneStatusView::RefReady(b, raw) => {},
        SceneStatusView::InTween(ts) => {
            if spec_valid_targets(ts, v.nodes) {
                let (st, nd, tb, ms, done) = crate::tween::spec_round(
                    ts,
                    v.nodes,
                    t,
                    v.sender.id,
                    v.info.delta_micros,
                );
                crate::tween::lemma_round_steps_len(
                    ts,
                    v.nodes,
                    t,
                    v.sender.id,
                    v.info.delta_micros,
                );
                crate::tween::lemma_unfinished_len(
                    crate::tween::spec_round_steps(
                        ts,
                        v.nodes,
                        t,
                        v.sender.id,
                        v.info.delta_micros,
                    ).0,
                );
            }
        },
        _ => {},
    }
}

/// Every message a poll emits is a protocol request whose payload is
/// well-formed: a `CreateNode` always carries a bounded builder.
pub proof fn lemma_poll_msgs_wf(v: SceneTaskView, t: Seq<Option<SignalValue>>)
    requires
        v.wf(t.len() as int),
    ensures
        forall|i: int|
            0 <= i < v.spec_poll(t).2.len() ==> ((#[trigger] v.spec_poll(t).2[i]).1 matches
                EngineMessage::CreateNode(_, b) ==> b.wf()),
{
    let msgs = v.spec_poll(t).2;
    match v.status {
        SceneStatusView::InTween(ts) => {
            if spec_valid_targets(ts, v.nodes) {
                crate::tween::lemma_round_steps_msgs(
                    ts,
                    v.nodes,
                    t,
                    v.sender.id,
                    v.info.delta_micros,
                );
                assert forall|i: int|
                    0 <= i < msgs.len() implies ((#[trigger] msgs[i]).1 matches
                    EngineMessage::CreateNode(_, b) ==> b.wf()) by {
                    let base = crate::tween::spec_round_steps(
                        ts,
                        v.nodes,
                        t,
                        v.sender.id,
                        v.info.delta_micros,
                    ).3;
                    if i < base.len() {
                        assert(base[i] == (v.sender.id, EngineMessage::Update));
                    }
                };
            }
        },
        _ => {},
    }
}

/// A poll preserves well-formedness: the task stays well-formed against
/// the table, whose length and value bounds are kept, and the scene's
/// identity, metadata and script never change.
pub proof fn lemma_poll_wf(v: SceneTaskView, t: Seq<Option<SignalValue>>)
    requires
        v.wf(t.len() as int),
        table_wf(t),
    ensures
        ({
            let (v2, t2, msgs, r) = v.spec_poll(t);
            &&& v2.wf(t2.len() as int)
            &&& t2.len() == t.len()
            &&& table_wf(t2)
            &&& v2.sender == v.sender
            &&& v2.info == v.info
            &&& v2.script == v.script
        }),
{
    let (v2, t2, msgs, r) = v.spec_poll(t);
    match v.status {
        SceneStatusView::Running => {
            if v.pc < v.script.len() {
                match v.script[v.pc as int] {
                    SceneStep::Spawn(b) => {},
                    SceneStep::SetPosition { node, value } => {
                        lemma_set_pair_wf(v, t, node, value, true);
                    },
                    SceneStep::SetSize { node, value } => {
                        lemma_set_pair_wf(v, t, node, value, false);
                    },
                    SceneStep::SetColor { node, value } => {
                        if node < v.nodes.len() && v.nodes[node as int] is Rect {
                            match v.nodes[node as int] {
                                SceneNode::Rect(rh) => {
                                    assert(v.nodes[node as int].wf(t.len() as int));
                                    let nv = SignalValue::Color(value);
                                    let r2 = Rect { color: rh.color.spec_set(nv), ..rh };
                                    assert(r2.wf(t.len() as int));
                                    lemma_table_store_wf(t, rh.color.inner.slot as int, nv);
                                    assert forall|i: int|
                                        0 <= i < v2.nodes.len() implies (
                                    #[trigger] v2.nodes[i]).wf(t2.len() as int) by {
                                        if i != node {
                                            assert(v.nodes[i].wf(t.len() as int));
                                        }
                                    };
                                },
                                _ => {},
                            }
                        }
                    },
                    SceneStep::Present(frames) => {},
                    SceneStep::Update => {},
                    SceneStep::DropNode { node } => {
                        if node < v.nodes.len() {
                            assert(v.nodes[node as int].wf(t.len() as int));
                            match v.nodes[node as int] {
                                SceneNode::Rect(rh) => {
                                    lemma_table_store_wf(
                                        t,
                                        rh.drop.inner.slot as int,
                                        SignalValue::Unit,
                                    );
                                },
                                SceneNode::Audio(ah) => {
                                    lemma_table_store_wf(
                                        t,
                                        ah.drop.inner.slot as int,
                                        SignalValue::Unit,
                                    );
                                },
                            }
                            assert forall|i: int|
                                0 <= i < v2.nodes.len() implies (#[trigger] v2.nodes[i]).wf(
                                t2.len() as int,
                            ) by {
                                if i != node {
                                    assert(v.nodes[i].wf(t.len() as int));
                                }
                            };
                        }
                    },
                    SceneStep::RunTweens(ts) => {},
                }
            }
        },
        SceneStatusView::RefReady(b, raw) => {
            match crate::node::spec_create_node_ref(b, raw) {
                Ok(node) => {
                    assert(node.wf(t.len() as int));
                    assert forall|i: int|
                        0 <= i < v2.nodes.len() implies (#[trigger] v2.nodes[i]).wf(
                        t2.len() as int,
                    ) by {
                        if i < v.nodes.len() {
                            assert(v.nodes[i].wf(t.len() as int));
                        }
                    };
                },
                Err(_) => {},
            }
        },
        SceneStatusView::InTween(ts) => {
            if spec_valid_targets(ts, v.nodes) {
                crate::tween::lemma_round_steps_preserves(
                    ts,
                    v.nodes,
                    t,
                    v.sender.id,
                    v.info.delta_micros,
                );
                crate::tween::lemma_unfinished_wf(
                    crate::tween::spec_round_steps(
                        ts,
                        v.nodes,
                        t,
                        v.sender.id,
                        v.info.delta_micros,
                    ).0,
                );
            }
        },
        _ => {},
    }
}

/// Shared preservation argument of the position and size steps.
proof fn lemma_set_pair_wf(
    v: SceneTaskView,
    t: Seq<Option<SignalValue>>,
    node: usize,
    value: Vec2,
    position: bool,
)
    requires
        v.wf(t.len() as int),
        table_wf(t),
        v.status is Running,
        v.mid_step(),
    ensures
        ({
            let (v2, t2, msgs, r) = v.spec_set_pair(t, node, value, position);
            &&& v2.wf(t2.len() as int)
            &&& t2.len() == t.len()
            &&& table_wf(t2)
            &&& v2.sender == v.sender
            &&& v2.info == v.info
            &&& v2.script == v.script
        }),
{
    let (v2, t2, msgs, r) = v.spec_set_pair(t, node, value, position);
    if node < v.nodes.len() && v.nodes[node as int] is Rect && value.wf() {
        match v.nodes[node as int] {
            SceneNode::Rect(rh) => {
                assert(v.nodes[node as int].wf(t.len() as int));
                let nv = SignalValue::Pair(value.x, value.y);
                let slot = if position {
                    rh.position.inner.slot
                } else {
                    rh.size.inner.slot
                };
                lemma_table_store_wf(t, slot as int, nv);
                assert forall|i: int|
                    0 <= i < v2.nodes.len() implies (#[trigger] v2.nodes[i]).wf(
                    t2.len() as int,
                ) by {
                    if i != node {
                        assert(v.nodes[i].wf(t.len() as int));
                    }
                };
            },
            _ => {},
        }
    }
}

/// Storing a well-formed value keeps the whole table well-formed.
pub proof fn lemma_table_store_wf(t: Seq<Option<SignalValue>>, slot: int, nv: SignalValue)
    requires
        0 <= slot < t.len(),
        table_wf(t),
        nv.wf(),
    ensures
        table_wf(t.update(slot, Some(nv))),
{
    let t2 = t.update(slot, Some(nv));
    assert forall|i: int| 0 <= i < t2.len() implies (#[trigger] t2[i] matches Some(w)
        ==> w.wf()) by {
        if i != slot {
            assert(t[i] matches Some(w) ==> w.wf());
        }
    };
}

} // verus!
