//! Unit tests for the library's components.

use motion_man::audio::AudioNodeManager;
use motion_man::element::AbstractElementBuilder;
use motion_man::color::Color;
use motion_man::engine_message::{EngineError, NodeKind, Ty};
use motion_man::gcx::shader::ShaderBuilder;
use motion_man::info::Info;
use motion_man::media::AVCodecType;
use motion_man::node::NodeBuilderKind;
use motion_man::rect::{build_mesh, RectBuilder, RectNodeManager, Vec2};
use motion_man::signal::{create_signal, Signal, SignalTable, SignalValue};
use motion_man::tween::{lerp, Executor, Tween, TweenBuilder, TweenField, TweenTarget};

/// Latest-value-wins: the consumer observes only the second value, while
/// the producer's synchronous read returns the value just sent after each
/// send.
#[test]
fn signal_latest_value_wins() {
    let mut table = SignalTable::new();
    let (producer, consumer) = create_signal(&mut table);
    let mut signal = Signal::new(producer, SignalValue::Scalar(0));

    signal.set(&mut table, SignalValue::Scalar(7));
    assert_eq!(signal.get(), SignalValue::Scalar(7));
    signal.set(&mut table, SignalValue::Scalar(9));
    assert_eq!(signal.get(), SignalValue::Scalar(9));

    assert_eq!(consumer.get(&mut table), Some(SignalValue::Scalar(9)));
    // The slot is emptied by the poll.
    assert_eq!(consumer.get(&mut table), None);
}

/// Distinct channels never share a slot.
#[test]
fn signals_are_independent() {
    let mut table = SignalTable::new();
    let (p1, c1) = create_signal(&mut table);
    let (p2, c2) = create_signal(&mut table);
    let mut s1 = Signal::new(p1, SignalValue::Unit);
    let mut s2 = Signal::new(p2, SignalValue::Unit);
    s1.set(&mut table, SignalValue::Scalar(1));
    s2.set(&mut table, SignalValue::Scalar(2));
    assert_eq!(c1.get(&mut table), Some(SignalValue::Scalar(1)));
    assert_eq!(c2.get(&mut table), Some(SignalValue::Scalar(2)));
}

/// `CreateRef` followed by `CreateNode` wires the node to exactly the
/// channels whose producer ends `create_node` returned.
#[test]
fn create_node_wires_the_companion_channels() {
    let mut table = SignalTable::new();
    let mut manager = RectNodeManager::default();
    let raw = manager.create_node(&mut table);
    let builder = RectBuilder::new(Vec2::new(10, 20), Color::red());
    assert!(manager.init_node(builder).is_ok());

    assert_eq!(manager.rects.len(), 1);
    let inner = &manager.rects[0].inner;
    assert_eq!(inner.position.slot, raw.position.slot);
    assert_eq!(inner.size.slot, raw.size.slot);
    assert_eq!(inner.color.slot, raw.color.slot);
    assert_eq!(inner.drop.slot, raw.drop.slot);
    assert!(manager.pending.is_none());
}

/// `CreateNode` without a preceding `CreateRef` is a protocol violation.
#[test]
fn init_without_pending_is_a_protocol_violation() {
    let mut manager = RectNodeManager::default();
    let builder = RectBuilder::new(Vec2::new(1, 1), Color::red());
    assert_eq!(manager.init_node(builder), Err(EngineError::ProtocolViolation));

    let mut audio = AudioNodeManager::default();
    assert_eq!(
        audio.init_node(motion_man::audio::AudioBuilder::new(0)),
        Err(EngineError::ProtocolViolation)
    );
}

/// The mesh corners derive exactly from size and position, in fan order.
#[test]
fn mesh_corners_are_exact() {
    let b = RectBuilder::new(Vec2::new(100, 50), Color::blue()).with_position(Vec2::new(7, -3));
    let mesh = build_mesh(&b);
    assert_eq!(mesh.v0.position, Vec2::new(-93, -53));
    assert_eq!(mesh.v1.position, Vec2::new(-93, 47));
    assert_eq!(mesh.v2.position, Vec2::new(107, 47));
    assert_eq!(mesh.v3.position, Vec2::new(107, -53));
    assert_eq!(mesh.v0.color, Color::blue());
}

/// The packed color layout is `0xBBGGRRAA`.
#[test]
fn color_unpacks_bytes() {
    let c = Color::from_packed(0x40_30_20_10);
    assert_eq!(c.a, 0x10);
    assert_eq!(c.r, 0x20);
    assert_eq!(c.g, 0x30);
    assert_eq!(c.b, 0x40);
    assert_eq!(Color::new(1, 2, 3, 4), Color { r: 1, g: 2, b: 3, a: 4 });
}

/// Frames per second round to the nearest whole number.
#[test]
fn fps_rounds_to_nearest() {
    let info = Info { delta_micros: 16_666, width: 1920, height: 1080 };
    assert_eq!(info.fps(), 60);
    let info = Info { delta_micros: 100_000, width: 1, height: 1 };
    assert_eq!(info.fps(), 10);
    let info = Info { delta_micros: 1_000_000, width: 1, height: 1 };
    assert_eq!(info.fps(), 1);
}

/// Interpolation is exact at the endpoints and at exact fractions, in both
/// directions.
#[test]
fn lerp_is_exact() {
    assert_eq!(lerp(0, 1_000_000, 0, 1_000_000), 0);
    assert_eq!(lerp(0, 1_000_000, 500_000, 1_000_000), 500_000);
    assert_eq!(lerp(0, 1_000_000, 1_000_000, 1_000_000), 1_000_000);
    assert_eq!(lerp(1_000_000, 0, 500_000, 1_000_000), 500_000);
    assert_eq!(lerp(1_000_000, 0, 1_000_000, 1_000_000), 0);
    assert_eq!(lerp(-100, 100, 1, 4), -50);
}

/// Tween construction starts at zero elapsed time.
#[test]
fn tween_starts_fresh() {
    let t = Tween::new(0, 10, 1_000, TweenTarget { node: 0, field: TweenField::SizeX });
    assert_eq!(t.elapsed_micros, 0);
    assert_eq!(t.from, 0);
    assert_eq!(t.to, 10);
    assert_eq!(t.time_micros, 1_000);
}

/// Builders collect steps in order.
#[test]
fn tween_builder_collects_steps() {
    let a = Tween::new(0, 1, 10, TweenTarget { node: 0, field: TweenField::PositionX });
    let b = Tween::new(1, 0, 10, TweenTarget { node: 0, field: TweenField::PositionY });
    let tweens = TweenBuilder::new(a).tween(b).into_tweens();
    assert_eq!(tweens.len(), 2);
    assert_eq!(tweens[0], a);
    assert_eq!(tweens[1], b);

    let e = Executor::new().add(a).add(b);
    assert_eq!(e.steps.len(), 2);
}

/// The shader builder keeps each stage source it is given.
#[test]
fn shader_builder_keeps_sources() {
    let b = ShaderBuilder::new()
        .vertex("void main() {}".to_string())
        .fragment("void main() { discard; }".to_string());
    assert_eq!(b.vertex.as_ref().map(|v| v.src.as_str()), Some("void main() {}"));
    assert_eq!(
        b.fragment.as_ref().map(|f| f.src.as_str()),
        Some("void main() { discard; }")
    );
    assert!(b.compute.is_none());
    let b = b.compute("void main() { return; }".to_string());
    assert!(b.compute.is_some());
    let d = ShaderBuilder::default();
    assert!(d.vertex.is_none() && d.fragment.is_none() && d.compute.is_none());
}

/// The demuxer's numeric medium codes decode to codec types.
#[test]
fn codec_type_decodes_medium_codes() {
    assert_eq!(AVCodecType::from(0), AVCodecType::Video);
    assert_eq!(AVCodecType::from(1), AVCodecType::Audio);
    assert_eq!(AVCodecType::from(2), AVCodecType::Data);
    assert_eq!(AVCodecType::from(3), AVCodecType::Subtitle);
    assert_eq!(AVCodecType::from(4), AVCodecType::Attachment);
    assert_eq!(AVCodecType::from(5), AVCodecType::Nb);
    assert_eq!(AVCodecType::from(-1), AVCodecType::Unknown);
    assert_eq!(AVCodecType::from(99), AVCodecType::Unknown);
}

/// Node kinds map to distinct runtime tags.
#[test]
fn kind_tags_are_distinct() {
    let rect = Ty::of(NodeKind::Rect);
    let audio = Ty::of(NodeKind::Audio);
    assert_ne!(rect.id, audio.id);
    assert_eq!(rect.kind, NodeKind::Rect);
    assert_eq!(rect.name(), "RectNodeManager");
    assert_eq!(audio.name(), "AudioNodeManager");
}

/// The erased builder face reports the tag of its kind.
#[test]
fn erased_builder_reports_its_kind() {
    let b = NodeBuilderKind::Rect(RectBuilder::new(Vec2::new(1, 1), Color::red()));
    assert_eq!(b.node_id(), Ty::of(NodeKind::Rect));
    let a = NodeBuilderKind::Audio(motion_man::audio::AudioBuilder::new(3));
    assert_eq!(a.node_id(), Ty::of(NodeKind::Audio));
}
