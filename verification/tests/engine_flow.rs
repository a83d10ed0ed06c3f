//! End-to-end scenarios driving the engine through whole host ticks.

use motion_man::audio::AudioBuilder;
use motion_man::color::Color;
use motion_man::engine::Engine;
use motion_man::engine_message::{EngineError, NodeKind};
use motion_man::node::{AbstractNodeManager, NodeBuilderKind};
use motion_man::rect::{RectBuilder, Vec2};
use motion_man::scene::SceneStep;
use motion_man::tween::{Tween, TweenField, TweenTarget};

fn rect_builder() -> RectBuilder {
    RectBuilder::new(Vec2::new(1_000_000, 1_000_000), Color::red())
}

fn rect_manager(engine: &Engine) -> &motion_man::rect::RectNodeManager {
    for manager in engine.managers() {
        if let AbstractNodeManager::Rect(m) = manager {
            return m;
        }
    }
    panic!("no rectangle manager registered");
}

/// A scene that calls `Present(1)` n times resumes exactly once per settled
/// frame: it stays parked for n ticks and finishes on the tick after.
#[test]
fn present_resumes_once_per_frame() {
    let mut engine = Engine::new(60, 1920, 1080);
    engine.register_node(NodeKind::Rect);
    let script = vec![
        SceneStep::Present(1),
        SceneStep::Present(1),
        SceneStep::Present(1),
    ];
    engine.create_scene(script);

    for tick in 0..3 {
        assert!(engine.run().is_ok(), "tick {tick} failed");
        assert_eq!(engine.scene_count(), 1, "scene left early at tick {tick}");
        assert_eq!(engine.waiting_count(), 1, "scene not parked at tick {tick}");
        assert!(!engine.finished());
    }
    // The third owed frame was presented; the next tick releases the scene
    // and it runs to completion.
    assert!(engine.run().is_ok());
    assert!(engine.finished());
    assert_eq!(engine.waiting_count(), 0);
}

/// `Present(0)` does nothing: the scene runs straight to completion within
/// one tick.
#[test]
fn present_zero_frames_is_a_no_op() {
    let mut engine = Engine::new(60, 1920, 1080);
    engine.register_node(NodeKind::Rect);
    engine.create_scene(vec![SceneStep::Present(0), SceneStep::Present(0)]);
    assert!(engine.run().is_ok());
    assert!(engine.finished());
}

/// The pump does not return while any scene can still run: a second scene
/// mid-computation is driven until it blocks too, within the same tick.
#[test]
fn pump_settles_only_when_every_scene_blocks() {
    let mut engine = Engine::new(60, 1920, 1080);
    engine.register_node(NodeKind::Rect);
    // One scene parks immediately.
    engine.create_scene(vec![SceneStep::Present(1)]);
    // The other is mid-computation: it spawns a node and changes it before
    // blocking.
    engine.create_scene(vec![
        SceneStep::Spawn(NodeBuilderKind::Rect(rect_builder())),
        SceneStep::SetColor { node: 0, value: Color::blue() },
        SceneStep::Update,
        SceneStep::Present(1),
    ]);

    assert!(engine.run().is_ok());
    // The tick is settled only now: both scenes are parked, and the second
    // scene's whole computation has been dispatched — its node exists and
    // already carries the new color.
    assert_eq!(engine.scene_count(), 2);
    assert_eq!(engine.waiting_count(), 2);
    let m = rect_manager(&engine);
    assert_eq!(m.rects.len(), 1);
    assert_eq!(m.rects[0].builder.color, Color::blue());
}

/// End-to-end: one registered kind, one scene that creates a node, recolors
/// it, presents one frame and then drops it.  After the first tick the
/// manager holds one live node with the new color; after the drop
/// round-trip the live-node count is zero.
#[test]
fn create_recolor_present_drop() {
    let mut engine = Engine::new(60, 1920, 1080);
    engine.register_node(NodeKind::Rect);
    engine.register_node(NodeKind::Audio);
    engine.create_scene(vec![
        SceneStep::Spawn(NodeBuilderKind::Rect(rect_builder())),
        SceneStep::SetColor { node: 0, value: Color::green() },
        SceneStep::Present(1),
        SceneStep::DropNode { node: 0 },
    ]);

    assert!(engine.run().is_ok());
    {
        let m = rect_manager(&engine);
        assert_eq!(m.rects.len(), 1, "node not live after first tick");
        assert_eq!(m.rects[0].builder.color, Color::green(), "color not applied");
        // The mesh was rebuilt from the changed builder.
        assert_eq!(m.rects[0].mesh.v0.color, Color::green());
    }

    assert!(engine.run().is_ok());
    {
        let m = rect_manager(&engine);
        assert_eq!(m.rects.len(), 0, "node not removed after drop round-trip");
    }
    assert!(engine.finished());
}

/// Audio clips follow the same create/drop protocol through their manager.
#[test]
fn audio_clip_lifecycle() {
    let mut engine = Engine::new(60, 1920, 1080);
    engine.register_node(NodeKind::Rect);
    engine.register_node(NodeKind::Audio);
    engine.create_scene(vec![
        SceneStep::Spawn(NodeBuilderKind::Audio(AudioBuilder::new(7))),
        SceneStep::Present(1),
        SceneStep::DropNode { node: 0 },
    ]);

    assert!(engine.run().is_ok());
    let live = engine.managers().iter().find_map(|m| match m {
        AbstractNodeManager::Audio(a) => Some(a.audios.len()),
        _ => None,
    });
    assert_eq!(live, Some(1));
    assert!(engine.run().is_ok());
    let live = engine.managers().iter().find_map(|m| match m {
        AbstractNodeManager::Audio(a) => Some(a.audios.len()),
        _ => None,
    });
    assert_eq!(live, Some(0));
    assert!(engine.finished());
}

/// Two parallel tweens over [0, 1] and [1, 0] (in fixed-point units of one
/// millionth) with duration 1.0 s and frame interval 0.1 s advance in
/// lockstep: after 5 ticks each has progressed to exactly one half,
/// accounting for direction, and each round fires exactly one shared
/// `Present`, not one per step.
#[test]
fn parallel_tweens_advance_in_lockstep() {
    // 10 fps gives a frame interval of exactly 100_000 microseconds.
    let mut engine = Engine::new(10, 1920, 1080);
    engine.register_node(NodeKind::Rect);
    let up = Tween::new(
        0,
        1_000_000,
        1_000_000,
        TweenTarget { node: 0, field: TweenField::PositionX },
    );
    let down = Tween::new(
        1_000_000,
        0,
        1_000_000,
        TweenTarget { node: 0, field: TweenField::PositionY },
    );
    engine.create_scene(vec![
        SceneStep::Spawn(NodeBuilderKind::Rect(
            RectBuilder::new(Vec2::new(500_000, 500_000), Color::red())
                .with_position(Vec2::new(0, 1_000_000)),
        )),
        SceneStep::RunTweens(vec![up, down]),
    ]);

    for tick in 0..5 {
        assert!(engine.run().is_ok(), "tick {tick} failed");
        // The shared end action parks the scene exactly once per round.
        assert_eq!(engine.waiting_count(), 1, "one Present per round at tick {tick}");
    }
    {
        let m = rect_manager(&engine);
        assert_eq!(
            m.rects[0].builder.position,
            Vec2::new(500_000, 500_000),
            "both tweens at exactly one half after 5 ticks"
        );
    }

    // Five more rounds reach the exact endpoints; the final round retires
    // both steps without an end action and the scene finishes.
    for _ in 0..5 {
        assert!(engine.run().is_ok());
    }
    {
        let m = rect_manager(&engine);
        assert_eq!(m.rects[0].builder.position, Vec2::new(1_000_000, 0));
    }
    assert!(engine.run().is_ok());
    assert!(engine.finished());
}

/// Spawning a kind with no registered manager is a fatal configuration
/// error naming the missing kind.
#[test]
fn unregistered_kind_is_fatal() {
    let mut engine = Engine::new(60, 1920, 1080);
    engine.register_node(NodeKind::Rect);
    engine.create_scene(vec![SceneStep::Spawn(NodeBuilderKind::Audio(AudioBuilder::new(0)))]);
    assert_eq!(engine.run(), Err(EngineError::UnregisteredKind(NodeKind::Audio)));
}

/// A script addressing a node handle it does not own is a script violation.
#[test]
fn bad_node_reference_is_fatal() {
    let mut engine = Engine::new(60, 1920, 1080);
    engine.register_node(NodeKind::Rect);
    engine.create_scene(vec![SceneStep::SetPosition {
        node: 3,
        value: Vec2::new(0, 0),
    }]);
    assert_eq!(engine.run(), Err(EngineError::ScriptViolation));
}

/// A coordinate beyond the representable range is rejected rather than
/// silently wrapped.
#[test]
fn out_of_range_value_is_fatal() {
    let mut engine = Engine::new(60, 1920, 1080);
    engine.register_node(NodeKind::Rect);
    engine.create_scene(vec![
        SceneStep::Spawn(NodeBuilderKind::Rect(rect_builder())),
        SceneStep::SetPosition { node: 0, value: Vec2::new(i64::MAX, 0) },
    ]);
    assert_eq!(engine.run(), Err(EngineError::ScriptViolation));
}

/// An engine with no scenes settles immediately and reports completion.
#[test]
fn empty_engine_is_finished() {
    let mut engine = Engine::new(60, 1920, 1080);
    engine.register_node(NodeKind::Rect);
    assert!(engine.finished());
    assert!(engine.run().is_ok());
    assert!(engine.finished());
}

/// Two scenes spawning on the same manager do not cross their create
/// sequences: the pump drains each message before polling the next scene,
/// so every `CreateRef` is answered and consumed before another arrives.
#[test]
fn concurrent_spawns_do_not_cross_wire() {
    let mut engine = Engine::new(60, 1920, 1080);
    engine.register_node(NodeKind::Rect);
    engine.create_scene(vec![
        SceneStep::Spawn(NodeBuilderKind::Rect(rect_builder())),
        SceneStep::Present(1),
    ]);
    engine.create_scene(vec![
        SceneStep::Spawn(NodeBuilderKind::Rect(
            RectBuilder::new(Vec2::new(1, 2), Color::blue()),
        )),
        SceneStep::Present(1),
    ]);
    assert!(engine.run().is_ok());
    let m = rect_manager(&engine);
    assert_eq!(m.rects.len(), 2);
    assert!(m.pending.is_none());
    assert_eq!(m.rects[0].builder.color, Color::red());
    assert_eq!(m.rects[1].builder.color, Color::blue());
}

/// An empty tween group resolves immediately, without a parked frame.
#[test]
fn empty_tween_group_resolves_at_once() {
    let mut engine = Engine::new(60, 1920, 1080);
    engine.register_node(NodeKind::Rect);
    engine.create_scene(vec![SceneStep::RunTweens(vec![])]);
    assert!(engine.run().is_ok());
    assert!(engine.finished());
}

/// Dropping a node twice is harmless: the second pulse finds no node to
/// remove.
#[test]
fn double_drop_is_harmless() {
    let mut engine = Engine::new(60, 1920, 1080);
    engine.register_node(NodeKind::Rect);
    engine.create_scene(vec![
        SceneStep::Spawn(NodeBuilderKind::Rect(rect_builder())),
        SceneStep::DropNode { node: 0 },
        SceneStep::Present(1),
        SceneStep::DropNode { node: 0 },
    ]);
    assert!(engine.run().is_ok());
    assert_eq!(rect_manager(&engine).rects.len(), 0);
    assert!(engine.run().is_ok());
    assert!(engine.finished());
    assert_eq!(rect_manager(&engine).rects.len(), 0);
}

/// The engine derives the frame interval from the frame rate.
#[test]
fn engine_derives_frame_interval() {
    let engine = Engine::new(60, 1920, 1080);
    assert_eq!(engine.info().delta_micros, 16_666);
    assert_eq!(engine.info().width, 1920);
    assert_eq!(engine.info().height, 1080);
    let engine = Engine::new(10, 640, 480);
    assert_eq!(engine.info().delta_micros, 100_000);
}
