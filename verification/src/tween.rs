//! Time-driven interpolation, synchronized to the frame clock.
//!
//! A [`Tween`] drives one component of one node's property from a start
//! value to an end value over a fixed duration.  The [`Executor`] runs any
//! number of tweens in lockstep: each round it advances every unfinished
//! tween by the frame interval, applies the interpolated values through the
//! nodes' signal channels, and then runs one shared end action — a single
//! `Present` — so that no tween advances into its next round before its
//! peers have reached the same checkpoint.  The executor resolves once
//! every tween has reached its target bound.

use std::collections::VecDeque;
use vstd::prelude::*;

use crate::engine_message::{EngineError, EngineMessage, EngineSender};
use crate::node::SceneNode;
use crate::rect::Rect;
use crate::signal::{table_wf, SignalTable, SignalValue, COORD_LIMIT};

verus! {

/// Largest duration a tween may take, in microseconds (1000 seconds).
pub const MAX_TWEEN_MICROS: u64 = 1_000_000_000;

/// Which component of a rectangle's properties a tween drives.
#[derive(Clone, Copy, Debug, PartialEq, Eq, Structural)]
pub enum TweenField {
    PositionX,
    PositionY,
    SizeX,
    SizeY,
}

/// The property component of one node that a tween drives.
#[derive(Clone, Copy, Debug, PartialEq, Eq, Structural)]
pub struct TweenTarget {
    /// Index of the node in the scene's node list.
    pub node: usize,
    /// The driven component.
    pub field: TweenField,
}

/// One interpolation: a range, a duration, the elapsed time and a target.
#[derive(Clone, Copy, Debug, PartialEq, Eq, Structural)]
pub struct Tween {
    pub from: i64,
    pub to: i64,
    pub time_micros: u64,
    pub elapsed_micros: u64,
    pub target: TweenTarget,
}

impl Tween {
    /// Bounded range, positive bounded duration, elapsed time within it.
    pub open spec fn wf(self) -> bool {
        &&& -COORD_LIMIT <= self.from <= COORD_LIMIT
        &&& -COORD_LIMIT <= self.to <= COORD_LIMIT
        &&& 0 < self.time_micros <= MAX_TWEEN_MICROS
        &&& self.elapsed_micros <= self.time_micros
    }

    /// A tween has crossed its target bound once its whole duration has
    /// elapsed.
    pub open spec fn spec_done(self) -> bool {
        self.elapsed_micros == self.time_micros
    }

    /// A fresh tween over `[from, to]` lasting `time_micros`, driving
    /// `target`.
    pub fn new(from: i64, to: i64, time_micros: u64, target: TweenTarget) -> (t: Tween)
        requires
            -COORD_LIMIT <= from <= COORD_LIMIT,
            -COORD_LIMIT <= to <= COORD_LIMIT,
            0 < time_micros <= MAX_TWEEN_MICROS,
        ensures
            t == (Tween { from, to, time_micros, elapsed_micros: 0, target }),
            t.wf(),
    {
        Tween { from, to, time_micros, elapsed_micros: 0, target }
    }

    /// The tween after one frame of `delta` microseconds, its elapsed time
    /// capped at the duration.
    pub open spec fn spec_advance(self, delta: u64) -> Tween {
        if self.elapsed_micros + delta >= self.time_micros {
            Tween { elapsed_micros: self.time_micros, ..self }
        } else {
            Tween { elapsed_micros: (self.elapsed_micros + delta) as u64, ..self }
        }
    }

    /// The interpolated value at the tween's elapsed time.
    pub open spec fn spec_value(self) -> int {
        spec_lerp(
            self.from as int,
            self.to as int,
            self.elapsed_micros as int,
            self.time_micros as int,
        )
    }
}

/// Linear interpolation from `from` to `to` at time `num / den`, rounded
/// toward `from`.
pub open spec fn spec_lerp(from: int, to: int, num: int, den: int) -> int
    recommends
        0 < den,
        0 <= num <= den,
{
    if to >= from {
        from + (to - from) * num / den
    } else {
        from - (from - to) * num / den
    }
}

/// The interpolated value never leaves the closed range between `from`
/// and `to`, and the endpoints are exact: at time zero it is `from`, at
/// full time it is `to`.
pub proof fn lemma_lerp_bounds(from: int, to: int, num: int, den: int)
    requires
        0 < den,
        0 <= num <= den,
    ensures
        to >= from ==> from <= spec_lerp(from, to, num, den) <= to,
        to < from ==> to <= spec_lerp(from, to, num, den) <= from,
        num == 0 ==> spec_lerp(from, to, num, den) == from,
        num == den ==> spec_lerp(from, to, num, den) == to,
{
    if to >= from {
        let d = to - from;
        assert(0 <= d * num) by (nonlinear_arith)
            requires
                0 <= d,
                0 <= num,
        ;
        assert(d * num <= d * den) by (nonlinear_arith)
            requires
                0 <= d,
                0 <= num <= den,
        ;
        assert(0 <= d * num / den <= d) by (nonlinear_arith)
            requires
                0 < den,
                0 <= d * num,
                d * num <= d * den,
        ;
        if num == 0 {
            assert(d * 0 == 0);
        }
        if num == den {
            assert(d * den / den == d) by (nonlinear_arith)
                requires
                    0 < den,
            ;
        }
    } else {
        let d = from - to;
        assert(0 <= d * num) by (nonlinear_arith)
            requires
                0 <= d,
                0 <= num,
        ;
        assert(d * num <= d * den) by (nonlinear_arith)
            requires
                0 <= d,
                0 <= num <= den,
        ;
        assert(0 <= d * num / den <= d) by (nonlinear_arith)
            requires
                0 < den,
                0 <= d * num,
                d * num <= d * den,
        ;
        if num == 0 {
            assert(d * 0 == 0);
        }
        if num == den {
            assert(d * den / den == d) by (nonlinear_arith)
                requires
                    0 < den,
            ;
        }
    }
}

/// Linear interpolation from `from` to `to` at time `num / den`.
pub fn lerp(from: i64, to: i64, num: u64, den: u64) -> (r: i64)
    requires
        -COORD_LIMIT <= from <= COORD_LIMIT,
        -COORD_LIMIT <= to <= COORD_LIMIT,
        0 < den <= MAX_TWEEN_MICROS,
        num <= den,
    ensures
        r == spec_lerp(from as int, to as int, num as int, den as int),
        -COORD_LIMIT <= r <= COORD_LIMIT,
{
    proof {
        lemma_lerp_bounds(from as int, to as int, num as int, den as int);
    }
    if to >= from {
        let diff = (to - from) as u64;
        proof {
            assert(diff * num <= 2_000_000_000 * 1_000_000_000) by (nonlinear_arith)
                requires
                    diff <= 2_000_000_000,
                    num <= 1_000_000_000,
            ;
            assert((diff as int) * (num as int) / (den as int) <= diff as int)
                by (nonlinear_arith)
                requires
                    0 < den,
                    num <= den,
            ;
        }
        from + ((diff * num / den) as i64)
    } else {
        let diff = (from - to) as u64;
        proof {
            assert(diff * num <= 2_000_000_000 * 1_000_000_000) by (nonlinear_arith)
                requires
                    diff <= 2_000_000_000,
                    num <= 1_000_000_000,
            ;
            assert((diff as int) * (num as int) / (den as int) <= diff as int)
                by (nonlinear_arith)
                requires
                    0 < den,
                    num <= den,
            ;
        }
        from - ((diff * num / den) as i64)
    }
}

/// The rectangle handle, target slot and channel value after driving one
/// property component to `v`; the other component of the driven pair keeps
/// its cached value.
pub open spec fn spec_drive_rect(r: Rect, field: TweenField, v: int) -> (Rect, usize, SignalValue) {
    match field {
        TweenField::PositionX => {
            let nv = match r.position.value {
                SignalValue::Pair(x, y) => SignalValue::Pair(v as i64, y),
                _ => SignalValue::Pair(v as i64, 0),
            };
            (Rect { position: r.position.spec_set(nv), ..r }, r.position.inner.slot, nv)
        },
        TweenField::PositionY => {
            let nv = match r.position.value {
                SignalValue::Pair(x, y) => SignalValue::Pair(x, v as i64),
                _ => SignalValue::Pair(0, v as i64),
            };
            (Rect { position: r.position.spec_set(nv), ..r }, r.position.inner.slot, nv)
        },
        TweenField::SizeX => {
            let nv = match r.size.value {
                SignalValue::Pair(x, y) => SignalValue::Pair(v as i64, y),
                _ => SignalValue::Pair(v as i64, 0),
            };
            (Rect { size: r.size.spec_set(nv), ..r }, r.size.inner.slot, nv)
        },
        TweenField::SizeY => {
            let nv = match r.size.value {
                SignalValue::Pair(x, y) => SignalValue::Pair(x, v as i64),
                _ => SignalValue::Pair(0, v as i64),
            };
            (Rect { size: r.size.spec_set(nv), ..r }, r.size.inner.slot, nv)
        },
    }
}

/// Drives one property component of a rectangle to `v`, through its signal
/// channel.
fn drive_rect(r: &mut Rect, field: TweenField, v: i64, table: &mut SignalTable)
    requires
        old(r).wf(old(table)@.len() as int),
        -COORD_LIMIT <= v <= COORD_LIMIT,
        table_wf(old(table)@),
    ensures
        ({
            let (r2, slot, nv) = spec_drive_rect(*old(r), field, v as int);
            &&& *final(r) == r2
            &&& final(table)@ == old(table)@.update(slot as int, Some(nv))
        }),
        final(table)@.len() == old(table)@.len(),
        table_wf(final(table)@),
        final(r).wf(final(table)@.len() as int),
{
    match field {
        TweenField::PositionX => {
            let nv = match r.position.get() {
                SignalValue::Pair(_, y) => SignalValue::Pair(v, y),
                _ => SignalValue::Pair(v, 0),
            };
            r.position.set(table, nv);
        },
        TweenField::PositionY => {
            let nv = match r.position.get() {
                SignalValue::Pair(x, _) => SignalValue::Pair(x, v),
                _ => SignalValue::Pair(0, v),
            };
            r.position.set(table, nv);
        },
        TweenField::SizeX => {
            let nv = match r.size.get() {
                SignalValue::Pair(_, y) => SignalValue::Pair(v, y),
                _ => SignalValue::Pair(v, 0),
            };
            r.size.set(table, nv);
        },
        TweenField::SizeY => {
            let nv = match r.size.get() {
                SignalValue::Pair(x, _) => SignalValue::Pair(x, v),
                _ => SignalValue::Pair(0, v),
            };
            r.size.set(table, nv);
        },
    }
}

/// Every tween in the list is well-formed.
pub open spec fn executor_wf(steps: Seq<Tween>) -> bool {
    forall|i: int| 0 <= i < steps.len() ==> (#[trigger] steps[i]).wf()
}

/// Every tween's target names an existing rectangle node.
pub open spec fn spec_valid_targets(steps: Seq<Tween>, nodes: Seq<SceneNode>) -> bool {
    forall|i: int| 0 <= i < steps.len() ==> (#[trigger] steps[i]).target.node < nodes.len()
        && nodes[steps[i].target.node as int] is Rect
}

/// One round of step processing: each tween, front first, advances by the
/// frame interval and applies its interpolated value through its target's
/// signal channel, asking for an update pass after each application.
pub open spec fn spec_round_steps(
    steps: Seq<Tween>,
    nodes: Seq<SceneNode>,
    t: Seq<Option<SignalValue>>,
    id: u64,
    delta: u64,
) -> (Seq<Tween>, Seq<SceneNode>, Seq<Option<SignalValue>>, Seq<(u64, EngineMessage)>)
    decreases steps.len(),
{
    if steps.len() == 0 {
        (steps, nodes, t, Seq::<(u64, EngineMessage)>::empty())
    } else {
        let tw = steps[0].spec_advance(delta);
        let v = tw.spec_value();
        match nodes[tw.target.node as int] {
            SceneNode::Rect(r) => {
                let (r2, slot, nv) = spec_drive_rect(r, tw.target.field, v);
                let nodes2 = nodes.update(tw.target.node as int, SceneNode::Rect(r2));
                let t2 = t.update(slot as int, Some(nv));
                let (srest, nrest, trest, mrest) = spec_round_steps(
                    steps.subrange(1, steps.len() as int),
                    nodes2,
                    t2,
                    id,
                    delta,
                );
                (
                    seq![tw] + srest,
                    nrest,
                    trest,
                    seq![(id, EngineMessage::Update)] + mrest,
                )
            },
            _ => {
                let (srest, nrest, trest, mrest) = spec_round_steps(
                    steps.subrange(1, steps.len() as int),
                    nodes,
                    t,
                    id,
                    delta,
                );
                (seq![tw] + srest, nrest, trest, mrest)
            },
        }
    }
}

/// The tweens that have not yet crossed their bound, in order.
pub open spec fn spec_unfinished(steps: Seq<Tween>) -> Seq<Tween>
    decreases steps.len(),
{
    if steps.len() == 0 {
        steps
    } else {
        let rest = spec_unfinished(steps.subrange(1, steps.len() as int));
        if !steps[0].spec_done() {
            seq![steps[0]] + rest
        } else {
            rest
        }
    }
}

/// One full executor round: all steps advance and apply in lockstep, the
/// finished ones leave, and — while any step remains — the shared end
/// action fires exactly once: a single `Present` parking the scene for one
/// frame.  The round reports completion when no step remains.
pub open spec fn spec_round(
    steps: Seq<Tween>,
    nodes: Seq<SceneNode>,
    t: Seq<Option<SignalValue>>,
    id: u64,
    delta: u64,
) -> (Seq<Tween>, Seq<SceneNode>, Seq<Option<SignalValue>>, Seq<(u64, EngineMessage)>, bool) {
    let (adv, nodes2, t2, msgs) = spec_round_steps(steps, nodes, t, id, delta);
    let remaining = spec_unfinished(adv);
    if remaining.len() > 0 {
        (remaining, nodes2, t2, msgs.push((id, EngineMessage::Present)), false)
    } else {
        (remaining, nodes2, t2, msgs, true)
    }
}

/// Runs any number of tweens in lockstep rounds, with one shared `Present`
/// per round as the end action.
#[derive(Debug)]
pub struct Executor {
    pub steps: Vec<Tween>,
}

impl View for Executor {
    type V = Seq<Tween>;

    open spec fn view(&self) -> Seq<Tween> {
        self.steps@
    }
}

impl Executor {
    /// An executor with no steps.
    pub fn new() -> (e: Executor)
        ensures
            e@ == Seq::<Tween>::empty(),
    {
        Executor { steps: Vec::new() }
    }

    /// The executor extended by one interpolation step.
    pub fn add(self, tween: Tween) -> (e: Executor)
        ensures
            e@ == self@.push(tween),
    {
        let mut e = self;
        e.steps.push(tween);
        e
    }

    /// Runs one round: advances every step by `delta_micros`, applies the
    /// interpolated values through the targets' signal channels, removes
    /// the steps that crossed their bound, and fires the shared end action
    /// (one `Present`) while steps remain.  Returns whether the executor
    /// has resolved.  A step whose target is not a live rectangle handle
    /// is reported as an error before anything changes.
    pub fn poll(
        &mut self,
        nodes: &mut Vec<SceneNode>,
        table: &mut SignalTable,
        sender: &EngineSender,
        inbox: &mut VecDeque<(u64, EngineMessage)>,
        delta_micros: u64,
    ) -> (r: Result<bool, EngineError>)
        requires
            executor_wf(old(self)@),
            forall|i: int| 0 <= i < old(nodes)@.len() ==> (#[trigger] old(nodes)@[i]).wf(
                old(table)@.len() as int,
            ),
            table_wf(old(table)@),
            delta_micros <= crate::info::MAX_DELTA_MICROS,
        ensures
            r is Err <==> !spec_valid_targets(old(self)@, old(nodes)@),
            r matches Err(e) ==> e == EngineError::ScriptViolation && *final(self) == *old(self)
                && *final(nodes) == *old(nodes) && *final(table) == *old(table) && *final(inbox)
                == *old(inbox),
            r matches Ok(done) ==> ({
                let (st, nd, tb, msgs, d) = spec_round(
                    old(self)@,
                    old(nodes)@,
                    old(table)@,
                    sender.id,
                    delta_micros,
                );
                &&& final(self)@ == st
                &&& final(nodes)@ == nd
                &&& final(table)@ == tb
                &&& final(inbox)@ == old(inbox)@ + msgs
                &&& done == d
            }),
            r is Ok ==> executor_wf(final(self)@) && final(table)@.len() == old(table)@.len()
                && table_wf(final(table)@) && final(nodes)@.len() == old(nodes)@.len() && (
            forall|i: int|
                0 <= i < final(nodes)@.len() ==> (#[trigger] final(nodes)@[i]).wf(
                    final(table)@.len() as int,
                )),
    {
        // Validate every target before touching anything.
        let mut i: usize = 0;
        while i < self.steps.len()
            invariant
                i <= self.steps@.len(),
                forall|j: int| 0 <= j < i ==> (#[trigger] self.steps@[j]).target.node
                    < nodes@.len() && nodes@[self.steps@[j].target.node as int] is Rect,
            decreases self.steps@.len() - i,
        {
            let tw = self.steps[i];
            if tw.target.node >= nodes.len() {
                return Err(EngineError::ScriptViolation);
            }
            match nodes[tw.target.node] {
                SceneNode::Rect(_) => {},
                _ => {
                    return Err(EngineError::ScriptViolation);
                },
            }
            i = i + 1;
        }
        let ghost st0 = self.steps@;
        let ghost n0 = nodes@;
        let ghost t0 = table@;
        let ghost inbox0 = inbox@;
        let mut advanced: Vec<Tween> = Vec::new();
        while self.steps.len() > 0
            invariant
                executor_wf(self.steps@),
                executor_wf(advanced@),
                table@.len() == t0.len(),
                table_wf(table@),
                nodes@.len() == n0.len(),
                forall|i: int| 0 <= i < nodes@.len() ==> (#[trigger] nodes@[i]).wf(
                    t0.len() as int,
                ),
                spec_valid_targets(self.steps@, nodes@),
                delta_micros <= crate::info::MAX_DELTA_MICROS,
                ({
                    let (rs, rn, rt, rm) = spec_round_steps(
                        self.steps@,
                        nodes@,
                        table@,
                        sender.id,
                        delta_micros,
                    );
                    let (fs, fx, ft, fm) = spec_round_steps(st0, n0, t0, sender.id, delta_micros);
                    &&& fs == advanced@ + rs
                    &&& fx == rn
                    &&& ft == rt
                    &&& inbox0 + fm == inbox@ + rm
                }),
            decreases self.steps@.len(),
        {
            let ghost steps_pre = self.steps@;
            let ghost nodes_pre = nodes@;
            let tw = self.steps.remove(0);
            proof {
                assert(self.steps@ == steps_pre.subrange(1, steps_pre.len() as int));
                assert(steps_pre[0].wf());
            }
            let e2 = if tw.elapsed_micros + delta_micros >= tw.time_micros {
                tw.time_micros
            } else {
                tw.elapsed_micros + delta_micros
            };
            let tw2 = Tween { elapsed_micros: e2, ..tw };
            proof {
                assert(tw2 == tw.spec_advance(delta_micros));
            }
            let v = lerp(tw2.from, tw2.to, tw2.elapsed_micros, tw2.time_micros);
            let idx = tw2.target.node;
            let mut node = nodes.remove(idx);
            match &mut node {
                SceneNode::Rect(r) => {
                    drive_rect(r, tw2.target.field, v, table);
                },
                _ => {},
            }
            nodes.insert(idx, node);
            proof {
                assert(nodes@ =~= nodes_pre.update(
                    idx as int,
                    match nodes_pre[idx as int] {
                        SceneNode::Rect(r) => SceneNode::Rect(
                            spec_drive_rect(
                                r,
                                tw2.target.field,
                                tw2.spec_value(),
                            ).0,
                        ),
                        other => other,
                    },
                ));
            }
            sender.send(inbox, EngineMessage::Update);
            advanced.push(tw2);
            proof {
                let (rs, rn, rt, rm) = spec_round_steps(
                    self.steps@,
                    nodes@,
                    table@,
                    sender.id,
                    delta_micros,
                );
                assert(advanced@ + rs =~= advanced@.drop_last() + (seq![tw2] + rs));
                assert(inbox@ =~= inbox@.subrange(0, inbox@.len() - 1).push(
                    (sender.id, EngineMessage::Update),
                ));
            }
        }
        proof {
            let (rs, rn, rt, rm) = spec_round_steps(
                self.steps@,
                nodes@,
                table@,
                sender.id,
                delta_micros,
            );
            assert(advanced@ + rs =~= advanced@);
            assert(inbox0 + spec_round_steps(st0, n0, t0, sender.id, delta_micros).3
                =~= inbox@);
        }
        // Keep only the steps that have not crossed their bound.
        let ghost adv0 = advanced@;
        let mut remaining: Vec<Tween> = Vec::new();
        while advanced.len() > 0
            invariant
                executor_wf(advanced@),
                executor_wf(remaining@),
                spec_unfinished(adv0) == remaining@ + spec_unfinished(advanced@),
            decreases advanced@.len(),
        {
            let ghost adv_pre = advanced@;
            let tw = advanced.remove(0);
            proof {
                assert(advanced@ == adv_pre.subrange(1, adv_pre.len() as int));
            }
            if tw.elapsed_micros < tw.time_micros {
                remaining.push(tw);
                proof {
                    let rest = spec_unfinished(advanced@);
                    assert(remaining@ + rest =~= remaining@.drop_last() + (seq![tw] + rest));
                }
            }
        }
        proof {
            assert(remaining@ + spec_unfinished(advanced@) =~= remaining@);
        }
        let done = remaining.len() == 0;
        if !done {
            sender.send(inbox, EngineMessage::Present);
        }
        self.steps = remaining;
        Ok(done)
    }
}

/// Collects the interpolation steps that one `RunTweens` script step will
/// drive in lockstep.
#[derive(Debug)]
pub struct TweenBuilder {
    pub tweens: Vec<Tween>,
}

impl TweenBuilder {
    /// A builder holding one step.
    pub fn new(tween: Tween) -> (b: TweenBuilder)
        ensures
            b.tweens@ == seq![tween],
    {
        let mut tweens: Vec<Tween> = Vec::new();
        tweens.push(tween);
        TweenBuilder { tweens }
    }

    /// The builder extended by one parallel step.
    pub fn tween(self, tween: Tween) -> (b: TweenBuilder)
        ensures
            b.tweens@ == self.tweens@.push(tween),
    {
        let mut b = self;
        b.tweens.push(tween);
        b
    }

    /// The collected steps.
    pub fn into_tweens(self) -> (r: Vec<Tween>)
        ensures
            r@ == self.tweens@,
    {
        self.tweens
    }
}

/// A round advances steps one for one.
pub proof fn lemma_round_steps_len(
    steps: Seq<Tween>,
    nodes: Seq<SceneNode>,
    t: Seq<Option<SignalValue>>,
    id: u64,
    delta: u64,
)
    ensures
        spec_round_steps(steps, nodes, t, id, delta).0.len() == steps.len(),
    decreases steps.len(),
{
    if steps.len() > 0 {
        let tw = steps[0].spec_advance(delta);
        match nodes[tw.target.node as int] {
            SceneNode::Rect(r) => {
                let (r2, slot, nv) = spec_drive_rect(r, tw.target.field, tw.spec_value());
                lemma_round_steps_len(
                    steps.subrange(1, steps.len() as int),
                    nodes.update(tw.target.node as int, SceneNode::Rect(r2)),
                    t.update(slot as int, Some(nv)),
                    id,
                    delta,
                );
            },
            _ => {
                lemma_round_steps_len(steps.subrange(1, steps.len() as int), nodes, t, id, delta);
            },
        }
    }
}

/// Dropping the finished steps never lengthens the list.
pub proof fn lemma_unfinished_len(steps: Seq<Tween>)
    ensures
        spec_unfinished(steps).len() <= steps.len(),
    decreases steps.len(),
{
    if steps.len() > 0 {
        lemma_unfinished_len(steps.subrange(1, steps.len() as int));
    }
}

/// A round of step processing emits update requests only.
pub proof fn lemma_round_steps_msgs(
    steps: Seq<Tween>,
    nodes: Seq<SceneNode>,
    t: Seq<Option<SignalValue>>,
    id: u64,
    delta: u64,
)
    ensures
        forall|i: int|
            0 <= i < spec_round_steps(steps, nodes, t, id, delta).3.len() ==> (
            #[trigger] spec_round_steps(steps, nodes, t, id, delta).3[i]) == (
                id,
                EngineMessage::Update,
            ),
    decreases steps.len(),
{
    if steps.len() > 0 {
        let tw = steps[0].spec_advance(delta);
        let full = spec_round_steps(steps, nodes, t, id, delta).3;
        match nodes[tw.target.node as int] {
            SceneNode::Rect(r) => {
                let (r2, slot, nv) = spec_drive_rect(r, tw.target.field, tw.spec_value());
                let nodes2 = nodes.update(tw.target.node as int, SceneNode::Rect(r2));
                let t2 = t.update(slot as int, Some(nv));
                lemma_round_steps_msgs(
                    steps.subrange(1, steps.len() as int),
                    nodes2,
                    t2,
                    id,
                    delta,
                );
                let rest = spec_round_steps(
                    steps.subrange(1, steps.len() as int),
                    nodes2,
                    t2,
                    id,
                    delta,
                ).3;
                assert(full == seq![(id, EngineMessage::Update)] + rest);
                assert forall|i: int| 0 <= i < full.len() implies #[trigger] full[i] == (
                    id,
                    EngineMessage::Update,
                ) by {
                    if i > 0 {
                        assert(rest[i - 1] == (id, EngineMessage::Update));
                    }
                };
            },
            _ => {
                lemma_round_steps_msgs(
                    steps.subrange(1, steps.len() as int),
                    nodes,
                    t,
                    id,
                    delta,
                );
                let rest = spec_round_steps(
                    steps.subrange(1, steps.len() as int),
                    nodes,
                    t,
                    id,
                    delta,
                ).3;
                assert(full == rest);
                assert forall|i: int| 0 <= i < full.len() implies #[trigger] full[i] == (
                    id,
                    EngineMessage::Update,
                ) by {
                    assert(rest[i] == (id, EngineMessage::Update));
                };
            },
        }
    }
}

/// Lockstep: within one round every step advances by exactly the same
/// frame interval — no step runs ahead of its peers.
pub proof fn lemma_round_lockstep(
    steps: Seq<Tween>,
    nodes: Seq<SceneNode>,
    t: Seq<Option<SignalValue>>,
    id: u64,
    delta: u64,
)
    ensures
        spec_round_steps(steps, nodes, t, id, delta).0.len() == steps.len(),
        forall|i: int|
            0 <= i < steps.len() ==> #[trigger] spec_round_steps(steps, nodes, t, id, delta).0[i]
                == steps[i].spec_advance(delta),
    decreases steps.len(),
{
    if steps.len() > 0 {
        let tw = steps[0].spec_advance(delta);
        let full = spec_round_steps(steps, nodes, t, id, delta).0;
        let sub = steps.subrange(1, steps.len() as int);
        match nodes[tw.target.node as int] {
            SceneNode::Rect(r) => {
                let (r2, slot, nv) = spec_drive_rect(r, tw.target.field, tw.spec_value());
                let nodes2 = nodes.update(tw.target.node as int, SceneNode::Rect(r2));
                let t2 = t.update(slot as int, Some(nv));
                lemma_round_lockstep(sub, nodes2, t2, id, delta);
                let rest = spec_round_steps(sub, nodes2, t2, id, delta).0;
                assert(full == seq![tw] + rest);
                assert forall|i: int|
                    0 <= i < steps.len() implies #[trigger] full[i] == steps[i].spec_advance(
                    delta,
                ) by {
                    if i > 0 {
                        assert(rest[i - 1] == sub[i - 1].spec_advance(delta));
                        assert(sub[i - 1] == steps[i]);
                    }
                };
            },
            _ => {
                lemma_round_lockstep(sub, nodes, t, id, delta);
                let rest = spec_round_steps(sub, nodes, t, id, delta).0;
                assert(full == seq![tw] + rest);
                assert forall|i: int|
                    0 <= i < steps.len() implies #[trigger] full[i] == steps[i].spec_advance(
                    delta,
                ) by {
                    if i > 0 {
                        assert(rest[i - 1] == sub[i - 1].spec_advance(delta));
                        assert(sub[i - 1] == steps[i]);
                    }
                };
            },
        }
    }
}

/// A round of step processing leaves the table's length unchanged, keeps
/// every stored value and every node handle well-formed, and keeps every
/// advanced step well-formed.
pub proof fn lemma_round_steps_preserves(
    steps: Seq<Tween>,
    nodes: Seq<SceneNode>,
    t: Seq<Option<SignalValue>>,
    id: u64,
    delta: u64,
)
    requires
        executor_wf(steps),
        spec_valid_targets(steps, nodes),
        forall|i: int| 0 <= i < nodes.len() ==> (#[trigger] nodes[i]).wf(t.len() as int),
        table_wf(t),
    ensures
        ({
            let (st, nd, tb, msgs) = spec_round_steps(steps, nodes, t, id, delta);
            &&& executor_wf(st)
            &&& nd.len() == nodes.len()
            &&& forall|i: int| 0 <= i < nd.len() ==> (#[trigger] nd[i]).wf(t.len() as int)
            &&& tb.len() == t.len()
            &&& table_wf(tb)
        }),
    decreases steps.len(),
{
    if steps.len() > 0 {
        assert(steps[0].wf());
        let tw = steps[0].spec_advance(delta);
        assert(tw.wf());
        let v = tw.spec_value();
        lemma_lerp_bounds(tw.from as int, tw.to as int, tw.elapsed_micros as int,
            tw.time_micros as int);
        assert(-COORD_LIMIT <= v <= COORD_LIMIT);
        let sub = steps.subrange(1, steps.len() as int);
        assert forall|i: int| 0 <= i < sub.len() implies (#[trigger] sub[i]).wf() by {
            assert(steps[i + 1].wf());
        };
        assert(steps[0].target.node < nodes.len() && nodes[steps[0].target.node as int]
            is Rect);
        assert(tw.target == steps[0].target);
        match nodes[tw.target.node as int] {
            SceneNode::Rect(r) => {
                let (r2, slot, nv) = spec_drive_rect(r, tw.target.field, v);
                let nodes2 = nodes.update(tw.target.node as int, SceneNode::Rect(r2));
                let t2 = t.update(slot as int, Some(nv));
                assert(nodes[tw.target.node as int].wf(t.len() as int));
                assert(nv.wf());
                assert(r2.wf(t.len() as int));
                assert forall|i: int| 0 <= i < nodes2.len() implies (#[trigger] nodes2[i]).wf(
                    t2.len() as int,
                ) by {
                    if i != tw.target.node {
                        assert(nodes[i].wf(t.len() as int));
                    }
                };
                assert(spec_valid_targets(sub, nodes2)) by {
                    assert forall|i: int|
                        0 <= i < sub.len() implies (#[trigger] sub[i]).target.node
                        < nodes2.len() && nodes2[sub[i].target.node as int] is Rect by {
                        assert(steps[i + 1].target.node < nodes.len() && nodes[steps[i
                            + 1].target.node as int] is Rect);
                    };
                }
                assert(table_wf(t2)) by {
                    assert forall|i: int|
                        0 <= i < t2.len() implies (#[trigger] t2[i] matches Some(w)
                        ==> w.wf()) by {
                        if i != slot {
                            assert(t[i] matches Some(w) ==> w.wf());
                        }
                    };
                }
                lemma_round_steps_preserves(sub, nodes2, t2, id, delta);
                let (srest, nrest, trest, mrest) = spec_round_steps(sub, nodes2, t2, id, delta);
                let full = spec_round_steps(steps, nodes, t, id, delta).0;
                assert(full == seq![tw] + srest);
                assert forall|i: int| 0 <= i < full.len() implies (#[trigger] full[i]).wf() by {
                    if i > 0 {
                        assert(srest[i - 1].wf());
                    }
                };
            },
            _ => {
                lemma_round_steps_preserves(sub, nodes, t, id, delta);
                let srest = spec_round_steps(sub, nodes, t, id, delta).0;
                let full = spec_round_steps(steps, nodes, t, id, delta).0;
                assert(full == seq![tw] + srest);
                assert forall|i: int| 0 <= i < full.len() implies (#[trigger] full[i]).wf() by {
                    if i > 0 {
                        assert(srest[i - 1].wf());
                    }
                };
            },
        }
    }
}

/// Dropping the finished steps keeps every remaining step well-formed.
pub proof fn lemma_unfinished_wf(steps: Seq<Tween>)
    requires
        executor_wf(steps),
    ensures
        executor_wf(spec_unfinished(steps)),
    decreases steps.len(),
{
    if steps.len() > 0 {
        let sub = steps.subrange(1, steps.len() as int);
        assert forall|i: int| 0 <= i < sub.len() implies (#[trigger] sub[i]).wf() by {
            assert(steps[i + 1].wf());
        };
        lemma_unfinished_wf(sub);
        let rest = spec_unfinished(sub);
        let out = spec_unfinished(steps);
        assert(steps[0].wf());
        assert forall|i: int| 0 <= i < out.len() implies (#[trigger] out[i]).wf() by {
            if !steps[0].spec_done() {
                if i > 0 {
                    assert(rest[i - 1].wf());
                }
            } else {
                assert(rest[i].wf());
            }
        };
    }
}

} // verus!
