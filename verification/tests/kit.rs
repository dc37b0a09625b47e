use touchbar::kit::{
    content, fixed, flexible, rgba_paint, theme_paint, theme_paint_with_opacity, visual_transform,
    Animation, AnimationPlayback, Canvas2d, CanvasColor, CanvasCommand, CanvasPathSegment,
    CanvasPoint, ColorRole, CrossAxisAlignment, Easing, GpuEffect, Icon, ImageFit, ImageTint, Node,
    Path2d, Pressable, Representation, ResponsiveVariant, Scalar, TextAlign, ViewBuilder,
    HUNDRED_BITS, ONE_BITS, SIXTY_BITS, SIX_BITS, ZERO_BITS,
};

fn n(value: f32) -> Scalar {
    Scalar::from_bits(value.to_bits())
}

fn p(x: f32, y: f32) -> CanvasPoint {
    CanvasPoint { x: n(x), y: n(y) }
}

fn value(scalar: Scalar) -> f32 {
    f32::from_bits(scalar.bits)
}

#[test]
fn numbers_are_kept_by_their_bits() {
    for (bits, number) in [
        (ZERO_BITS, 0.0),
        (ONE_BITS, 1.0),
        (SIX_BITS, 6.0),
        (SIXTY_BITS, 60.0),
        (HUNDRED_BITS, 100.0),
    ] {
        assert_eq!(f32::from_bits(bits), number);
    }
}

#[test]
fn canvas_builder_emits_semantic_and_literal_commands() {
    let mut canvas = Canvas2d::new("Build activity", n(100.0), n(50.0));
    let mut path = Path2d::new();
    path.move_to(p(2.0, 25.0)).quadratic_to(p(25.0, 2.0), p(50.0, 25.0)).cubic_to(
        p(60.0, 40.0),
        p(80.0, 4.0),
        p(98.0, 25.0),
    );
    let mut fill = Path2d::new();
    fill.move_to(p(42.0, 8.0)).line_to(p(58.0, 25.0)).line_to(p(42.0, 42.0)).close();
    assert_eq!(fill.segments[3], CanvasPathSegment::Close);
    canvas
        .fill_rect(n(0.0), n(0.0), n(100.0), n(50.0), n(5.0), theme_paint(ColorRole::Track))
        .polyline(
            vec![p(0.0, 40.0), p(50.0, 10.0), p(100.0, 30.0)],
            n(2.0),
            theme_paint_with_opacity(ColorRole::Accent, n(0.8)),
        )
        .fill_circle(p(50.0, 10.0), n(3.0), rgba_paint(n(1.0), n(0.2), n(0.1), n(1.0)))
        .fill_linear_gradient_rect(
            n(0.0),
            n(44.0),
            n(100.0),
            n(6.0),
            n(3.0),
            p(0.0, 47.0),
            p(100.0, 47.0),
            theme_paint(ColorRole::Accent),
            theme_paint_with_opacity(ColorRole::Muted, n(0.3)),
        )
        .stroke_path(path, n(1.5), theme_paint(ColorRole::Foreground))
        .fill_path(fill, theme_paint(ColorRole::Accent))
        .text(
            n(4.0),
            n(4.0),
            n(40.0),
            n(12.0),
            "42%".into(),
            n(10.0),
            theme_paint(ColorRole::Foreground),
            TextAlign::Leading,
        );
    let mut builder = ViewBuilder::new();
    let root = canvas.finish(&mut builder);
    let view = builder.finish(root);
    let Node::Canvas(canvas) = &view.nodes[0] else {
        panic!("builder did not emit a canvas node");
    };
    assert_eq!(canvas.label, "Build activity");
    assert_eq!(canvas.commands.len(), 7);
    assert!(matches!(canvas.commands[1], CanvasCommand::Polyline(_)));
    assert!(matches!(canvas.commands[2], CanvasCommand::FillCircle(_)));
    assert!(matches!(canvas.commands[3], CanvasCommand::FillLinearGradientRect(_)));
    assert!(matches!(canvas.commands[4], CanvasCommand::StrokePath(_)));
    assert!(matches!(canvas.commands[5], CanvasCommand::FillPath(_)));
}

#[test]
fn animation_builder_wraps_any_retained_node() {
    let mut builder = ViewBuilder::new();
    let label = builder.label("Listening", n(11.0), ColorRole::Foreground);
    let root = builder.motion(
        label,
        Animation::new(7, 800)
            .from(visual_transform(n(-4.0), n(0.0), n(0.9), n(0.0)))
            .to(visual_transform(n(0.0), n(0.0), n(1.0), n(1.0)))
            .easing(Easing::Linear)
            .playback(AnimationPlayback::Alternate),
    );
    let view = builder.finish(root);
    let Node::Motion(motion) = &view.nodes[root as usize] else {
        panic!("builder did not emit a motion node");
    };
    assert_eq!(motion.animation_id, 7);
    assert_eq!(motion.duration_ms, 800);
    assert_eq!(value(motion.start_transform.translation_x), -4.0);
    assert_eq!(motion.playback, AnimationPlayback::Alternate);
    assert_eq!(motion.child, label);
}

#[test]
fn image_builder_references_only_a_logical_asset_and_semantic_tint() {
    let mut builder = ViewBuilder::new();
    let root = builder.image(
        "touchbar-wordmark",
        "TouchBar",
        ImageFit::Contain,
        ImageTint::Mask(ColorRole::Accent),
    );
    let view = builder.finish(root);
    let Node::Image(image) = &view.nodes[root as usize] else {
        panic!("builder did not emit an image node")
    };
    assert_eq!(image.asset_id, "touchbar-wordmark");
    assert_eq!(image.label, "TouchBar");
    assert_eq!(value(image.opacity), 1.0);
    assert!(matches!(image.tint, ImageTint::Mask(ColorRole::Accent)));
}

#[test]
fn gpu_effect_builder_exposes_only_bounded_source_parameters_and_timing() {
    let source = "let amount = sin(uv.x + time); let color = mix(background, accent, amount);";
    let mut builder = ViewBuilder::new();
    let root = builder.shader_effect(
        GpuEffect::new(9, "Ambient wave", source)
            .parameters(vec![n(0.25), n(0.75)])
            .opacity(n(0.6))
            .preferred_size(n(240.0), n(60.0))
            .animate(4_000),
    );
    let view = builder.finish(root);
    let Node::ShaderEffect(effect) = &view.nodes[root as usize] else {
        panic!("builder did not emit a shader-effect node")
    };
    assert_eq!(effect.effect_id, 9);
    assert_eq!(effect.source, source);
    let parameters: Vec<f32> = effect.parameters.iter().map(|number| value(*number)).collect();
    assert_eq!(parameters, [0.25, 0.75]);
    assert_eq!(value(effect.opacity), 0.6);
    assert_eq!(value(effect.preferred_width), 240.0);
    assert_eq!(effect.animation_period_ms, Some(4_000));
}

#[test]
fn nodes_are_numbered_in_order() {
    let mut builder = ViewBuilder::default();
    let play = builder.icon(Icon { code: 3 }, ColorRole::OnAccent, "Play");
    let empty = builder.empty();
    let button = builder.button(5, "Go", None, true, false);
    assert_eq!((play, empty, button), (0, 1, 2));
    let row = builder.row(
        vec![
            fixed(play, n(20.0)),
            flexible(empty, n(1.0), n(2.0), n(3.0)),
            content(button, n(4.0), n(9.0)),
        ],
        n(2.0),
        n(1.0),
    );
    let column = builder.column(vec![fixed(row, n(20.0))], n(0.0), n(0.0));
    let layer = builder.layer(vec![row, column]);
    let panel = builder.panel(layer, ColorRole::Surface, n(4.0), n(2.0));
    let pressable = builder.pressable(7, "Press", panel, Pressable::accent());
    let slider = builder.slider(8, "Seek", n(0.5));
    let meter = builder.meter("Level", n(0.5), Some(n(0.75)));
    let progress = builder.progress("Done", n(0.25), ColorRole::Accent);
    let faded = builder.opacity(pressable, n(0.5));
    let root = builder.responsive(
        9,
        vec![ResponsiveVariant {
            representation: Representation::Minimal,
            minimum_width: n(40.0),
            node: faded,
        }],
    );
    assert_eq!((slider, meter, progress, root), (8, 9, 10, 12));
    let view = builder.finish(root);
    assert_eq!(view.root, root);
    assert_eq!(view.nodes.len(), 13);
    let Node::Row(row) = &view.nodes[3] else { panic!() };
    assert_eq!(row.align, CrossAxisAlignment::Stretch);
    assert_eq!(value(row.children[0].layout.grow), 0.0);
    assert_eq!(value(row.children[1].layout.grow), 1.0);
    assert!(row.children[2].layout.intrinsic);
    assert_eq!(row.children[2].layout.basis, n(4.0));
    let Node::Pressable(pressed) = &view.nodes[7] else { panic!() };
    assert_eq!(pressed.background, Some(ColorRole::Accent));
    assert_eq!(pressed.content_foreground, Some(ColorRole::OnAccent));
    assert_eq!(value(pressed.padding), 6.0);
    let Node::Progress(done) = &view.nodes[10] else { panic!() };
    assert_eq!(done.track, ColorRole::Track);
    let Node::Responsive(responsive) = &view.nodes[12] else { panic!() };
    assert_eq!(responsive.widget_id, 9);
}

#[test]
fn styles_and_paints_have_defaults() {
    assert_eq!(Pressable::plain().background, None);
    assert_eq!(Pressable::plain().padding, n(0.0));
    assert_eq!(Pressable::control().pressed_background, Some(ColorRole::ControlPressed));
    assert_eq!(theme_paint(ColorRole::Muted).opacity, n(1.0));
    assert!(matches!(
        rgba_paint(n(0.1), n(0.2), n(0.3), n(0.4)).color,
        CanvasColor::Rgba(color) if color.alpha == n(0.4)
    ));
    let effect = GpuEffect::new(1, "a", "b");
    assert_eq!((effect.preferred_width, effect.preferred_height), (n(100.0), n(60.0)));
    assert_eq!(effect.animation_period_ms, None);
    let animation = Animation::new(1, 2);
    assert_eq!(animation.easing, Easing::EaseInOut);
    assert_eq!(animation.playback, AnimationPlayback::Once);
    assert_eq!(animation.from, visual_transform(n(0.0), n(0.0), n(1.0), n(1.0)));
    let mut canvas = Canvas2d::new("x", n(1.0), n(1.0));
    canvas.line(p(0.0, 0.0), p(1.0, 1.0), n(1.0), theme_paint(ColorRole::Accent));
    assert!(matches!(canvas.commands[0], CanvasCommand::Line(_)));
}
