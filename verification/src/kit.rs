//! Building the views that a plugin shows, out of nothing but semantic roles.
//!
//! Lengths, positions and shares are numbers of single precision. They are
//! only ever handed on, so they are kept by their bits.
use vstd::prelude::*;

use crate::text;

verus! {

/// The number of a node of a view.
pub type NodeId = u32;

/// A number of single precision, by the bits of its IEEE 754 form.
#[derive(Clone, Copy, Debug, PartialEq, Eq, Structural)]
pub struct Scalar {
    pub bits: u32,
}

impl Scalar {
    pub fn from_bits(bits: u32) -> (scalar: Self)
        ensures
            scalar == (Scalar { bits }),
    {
        Scalar { bits }
    }
}

/// The bits of 0.
pub const ZERO_BITS: u32 = 0;

/// The bits of 1.
pub const ONE_BITS: u32 = 0x3f80_0000;

/// The bits of 6.
pub const SIX_BITS: u32 = 0x40c0_0000;

/// The bits of 60.
pub const SIXTY_BITS: u32 = 0x4270_0000;

/// The bits of 100.
pub const HUNDRED_BITS: u32 = 0x42c8_0000;

/// What a colour is for.
#[derive(Clone, Copy, Debug, PartialEq, Eq, Structural)]
pub enum ColorRole {
    Background,
    Surface,
    SurfaceHover,
    SurfacePressed,
    Foreground,
    Muted,
    Accent,
    OnAccent,
    Destructive,
    Control,
    ControlPressed,
    Track,
}

/// An icon, by its number in the set of the host.
#[derive(Clone, Copy, Debug, PartialEq, Eq, Structural)]
pub struct Icon {
    pub code: u32,
}

#[derive(Clone, Copy, Debug, PartialEq, Eq, Structural)]
pub enum TextAlign {
    Leading,
    Center,
    Trailing,
}

#[derive(Clone, Copy, Debug, PartialEq, Eq, Structural)]
pub enum CrossAxisAlignment {
    Start,
    Center,
    End,
    Stretch,
}

#[derive(Clone, Copy, Debug, PartialEq, Eq, Structural)]
pub enum Easing {
    Linear,
    EaseIn,
    EaseOut,
    EaseInOut,
}

#[derive(Clone, Copy, Debug, PartialEq, Eq, Structural)]
pub enum AnimationPlayback {
    Once,
    Loop,
    Alternate,
}

#[derive(Clone, Copy, Debug, PartialEq, Eq, Structural)]
pub enum ImageFit {
    Contain,
    Cover,
    Fill,
}

/// How an image is coloured.
#[derive(Clone, Copy, Debug, PartialEq, Eq, Structural)]
pub enum ImageTint {
    Original,
    Mask(ColorRole),
}

/// How much of something is shown.
#[derive(Clone, Copy, Debug, PartialEq, Eq, Structural)]
pub enum Representation {
    Minimal,
    Compact,
    Full,
}

/// How a child takes its share of a row.
#[derive(Clone, Copy, Debug, PartialEq, Eq, Structural)]
pub struct Flex {
    pub minimum: Scalar,
    pub basis: Scalar,
    pub maximum: Scalar,
    pub grow: Scalar,
    pub shrink: Scalar,
    pub visibility_priority: i32,
    pub required: bool,
    pub intrinsic: bool,
}

/// A child of a row or a column.
#[derive(Clone, Copy, Debug, PartialEq, Eq, Structural)]
pub struct FlexChild {
    pub node: NodeId,
    pub layout: Flex,
}

/// Where and how something is painted.
#[derive(Clone, Copy, Debug, PartialEq, Eq, Structural)]
pub struct VisualTransform {
    pub translation_x: Scalar,
    pub translation_y: Scalar,
    pub scale: Scalar,
    pub opacity: Scalar,
}

/// A point of a canvas.
#[derive(Clone, Copy, Debug, PartialEq, Eq, Structural)]
pub struct CanvasPoint {
    pub x: Scalar,
    pub y: Scalar,
}

/// A literal colour.
#[derive(Clone, Copy, Debug, PartialEq, Eq, Structural)]
pub struct Rgba {
    pub red: Scalar,
    pub green: Scalar,
    pub blue: Scalar,
    pub alpha: Scalar,
}

/// The colour of a paint.
#[derive(Clone, Copy, Debug, PartialEq, Eq, Structural)]
pub enum CanvasColor {
    Role(ColorRole),
    Rgba(Rgba),
}

/// What something is painted with.
#[derive(Clone, Copy, Debug, PartialEq, Eq, Structural)]
pub struct CanvasPaint {
    pub color: CanvasColor,
    pub opacity: Scalar,
}

/// A part of a path.
#[derive(Clone, Copy, Debug, PartialEq, Eq, Structural)]
pub enum CanvasPathSegment {
    MoveTo(CanvasPoint),
    LineTo(CanvasPoint),
    QuadraticTo { control: CanvasPoint, endpoint: CanvasPoint },
    CubicTo { control_one: CanvasPoint, control_two: CanvasPoint, endpoint: CanvasPoint },
    Close,
}

/// A command of a canvas.
#[derive(Clone, Copy, Debug, PartialEq, Eq, Structural)]
pub struct CanvasRect {
    pub x: Scalar,
    pub y: Scalar,
    pub width: Scalar,
    pub height: Scalar,
    pub radius: Scalar,
    pub paint: CanvasPaint,
}

/// A command of a canvas.
#[derive(Clone, Copy, Debug, PartialEq, Eq, Structural)]
pub struct CanvasLine {
    pub start: CanvasPoint,
    pub end: CanvasPoint,
    pub width: Scalar,
    pub paint: CanvasPaint,
}

/// A command of a canvas.
#[derive(Clone, Debug, PartialEq, Eq)]
pub struct CanvasPolyline {
    pub points: Vec<CanvasPoint>,
    pub width: Scalar,
    pub paint: CanvasPaint,
}

/// A command of a canvas.
#[derive(Clone, Copy, Debug, PartialEq, Eq, Structural)]
pub struct CanvasCircle {
    pub center: CanvasPoint,
    pub radius: Scalar,
    pub paint: CanvasPaint,
}

/// A command of a canvas.
#[derive(Clone, Copy, Debug, PartialEq, Eq, Structural)]
pub struct CanvasGradientRect {
    pub x: Scalar,
    pub y: Scalar,
    pub width: Scalar,
    pub height: Scalar,
    pub radius: Scalar,
    pub start: CanvasPoint,
    pub end: CanvasPoint,
    pub start_color: CanvasPaint,
    pub end_color: CanvasPaint,
}

/// A command of a canvas.
#[derive(Clone, Debug, PartialEq, Eq)]
pub struct CanvasPath {
    pub segments: Vec<CanvasPathSegment>,
    pub width: Scalar,
    pub paint: CanvasPaint,
}

/// A command of a canvas.
#[derive(Clone, Debug, PartialEq, Eq)]
pub struct CanvasFillPath {
    pub segments: Vec<CanvasPathSegment>,
    pub paint: CanvasPaint,
}

/// A command of a canvas.
#[derive(Clone, Debug, PartialEq, Eq)]
pub struct CanvasText {
    pub x: Scalar,
    pub y: Scalar,
    pub width: Scalar,
    pub height: Scalar,
    pub text: String,
    pub size: Scalar,
    pub color: CanvasPaint,
    pub align: TextAlign,
}

/// What is drawn on a canvas.
#[derive(Clone, Debug, PartialEq, Eq)]
pub enum CanvasCommand {
    FillRect(CanvasRect),
    Line(CanvasLine),
    Polyline(CanvasPolyline),
    FillCircle(CanvasCircle),
    FillLinearGradientRect(CanvasGradientRect),
    StrokePath(CanvasPath),
    FillPath(CanvasFillPath),
    Text(CanvasText),
}

/// One of several ways to show something.
#[derive(Clone, Copy, Debug, PartialEq, Eq, Structural)]
pub struct ResponsiveVariant {
    pub representation: Representation,
    pub minimum_width: Scalar,
    pub node: NodeId,
}

/// A node of a view.
#[derive(Clone, Debug, PartialEq, Eq)]
pub struct LabelNode {
    pub text: String,
    pub size: Scalar,
    pub color: ColorRole,
    pub align: TextAlign,
}

/// A node of a view.
#[derive(Clone, Debug, PartialEq, Eq)]
pub struct IconNode {
    pub icon: Icon,
    pub color: ColorRole,
    pub label: String,
}

/// A node of a view.
#[derive(Clone, Debug, PartialEq, Eq)]
pub struct AssetImageNode {
    pub asset_id: String,
    pub label: String,
    pub opacity: Scalar,
    pub fit: ImageFit,
    pub tint: ImageTint,
}

/// A node of a view.
#[derive(Clone, Debug, PartialEq, Eq)]
pub struct ButtonNode {
    pub widget_id: u64,
    pub label: String,
    pub icon: Option<Icon>,
    pub pressed: bool,
    pub selected: bool,
}

/// A node of a view.
#[derive(Clone, Debug, PartialEq, Eq)]
pub struct ContainerNode {
    pub gap: Scalar,
    pub padding: Scalar,
    pub align: CrossAxisAlignment,
    pub children: Vec<FlexChild>,
}

/// A node of a view.
#[derive(Clone, Debug, PartialEq, Eq)]
pub struct LayerNode {
    pub children: Vec<NodeId>,
}

/// A node of a view.
#[derive(Clone, Debug, PartialEq, Eq)]
pub struct PanelNode {
    pub radius: Scalar,
    pub color: ColorRole,
    pub padding: Scalar,
    pub child: NodeId,
}

/// A node of a view.
#[derive(Clone, Debug, PartialEq, Eq)]
pub struct PressableNode {
    pub widget_id: u64,
    pub label: String,
    pub pressed: bool,
    pub selected: Option<bool>,
    pub hold_ms: Option<u32>,
    pub background: Option<ColorRole>,
    pub pressed_background: Option<ColorRole>,
    pub content_foreground: Option<ColorRole>,
    pub corner_radius: Option<Scalar>,
    pub padding: Scalar,
    pub child: NodeId,
}

/// A node of a view.
#[derive(Clone, Debug, PartialEq, Eq)]
pub struct SliderNode {
    pub widget_id: u64,
    pub label: String,
    pub value: Scalar,
}

/// A node of a view.
#[derive(Clone, Debug, PartialEq, Eq)]
pub struct MeterNode {
    pub label: String,
    pub value: Scalar,
    pub peak: Option<Scalar>,
}

/// A node of a view.
#[derive(Clone, Debug, PartialEq, Eq)]
pub struct ProgressNode {
    pub label: String,
    pub value: Scalar,
    pub track: ColorRole,
    pub fill: ColorRole,
}

/// A node of a view.
#[derive(Clone, Debug, PartialEq, Eq)]
pub struct OpacityNode {
    pub opacity: Scalar,
    pub child: NodeId,
}

/// A node of a view.
#[derive(Clone, Debug, PartialEq, Eq)]
pub struct MotionNode {
    pub animation_id: u64,
    pub start_transform: VisualTransform,
    pub end_transform: VisualTransform,
    pub duration_ms: u32,
    pub easing: Easing,
    pub playback: AnimationPlayback,
    pub child: NodeId,
}

/// A node of a view.
#[derive(Clone, Debug, PartialEq, Eq)]
pub struct CanvasNode {
    pub label: String,
    pub viewbox_width: Scalar,
    pub viewbox_height: Scalar,
    pub commands: Vec<CanvasCommand>,
}

/// A node of a view.
#[derive(Clone, Debug, PartialEq, Eq)]
pub struct ShaderEffectNode {
    pub effect_id: u64,
    pub label: String,
    pub source: String,
    pub parameters: Vec<Scalar>,
    pub opacity: Scalar,
    pub preferred_width: Scalar,
    pub preferred_height: Scalar,
    pub animation_period_ms: Option<u32>,
}

/// A node of a view.
#[derive(Clone, Debug, PartialEq, Eq)]
pub struct ResponsiveNode {
    pub widget_id: u64,
    pub variants: Vec<ResponsiveVariant>,
}

/// A node of a view.
#[derive(Clone, Debug, PartialEq, Eq)]
pub enum Node {
    Empty,
    Label(LabelNode),
    Icon(IconNode),
    Image(AssetImageNode),
    Button(ButtonNode),
    Row(ContainerNode),
    Column(ContainerNode),
    Layer(LayerNode),
    Panel(PanelNode),
    Pressable(PressableNode),
    Slider(SliderNode),
    Meter(MeterNode),
    Progress(ProgressNode),
    Opacity(OpacityNode),
    Motion(MotionNode),
    Canvas(CanvasNode),
    ShaderEffect(ShaderEffectNode),
    Responsive(ResponsiveNode),
}

/// A view: its nodes, and which of them is shown.
#[derive(Clone, Debug, PartialEq, Eq)]
pub struct ViewTree {
    pub root: NodeId,
    pub nodes: Vec<Node>,
}

/// How something that can be pressed looks.
#[derive(Clone, Copy, Debug, PartialEq, Eq, Structural)]
pub struct Pressable {
    pub pressed: bool,
    pub selected: Option<bool>,
    pub hold_ms: Option<u32>,
    pub background: Option<ColorRole>,
    pub pressed_background: Option<ColorRole>,
    pub content_foreground: Option<ColorRole>,
    pub corner_radius: Option<Scalar>,
    pub padding: Scalar,
}

/// How a control looks.
pub open spec fn control_style() -> Pressable {
    Pressable {
        pressed: false,
        selected: None,
        hold_ms: None,
        background: Some(ColorRole::Control),
        pressed_background: Some(ColorRole::ControlPressed),
        content_foreground: None,
        corner_radius: None,
        padding: Scalar { bits: SIX_BITS },
    }
}

impl Pressable {
    pub fn control() -> (style: Self)
        ensures
            style == control_style(),
    {
        Pressable {
            pressed: false,
            selected: None,
            hold_ms: None,
            background: Some(ColorRole::Control),
            pressed_background: Some(ColorRole::ControlPressed),
            content_foreground: None,
            corner_radius: None,
            padding: Scalar { bits: SIX_BITS },
        }
    }

    pub fn accent() -> (style: Self)
        ensures
            style == (Pressable {
                background: Some(ColorRole::Accent),
                content_foreground: Some(ColorRole::OnAccent),
                ..control_style()
            }),
    {
        let mut style = Pressable::control();
        style.background = Some(ColorRole::Accent);
        style.content_foreground = Some(ColorRole::OnAccent);
        style
    }

    pub fn plain() -> (style: Self)
        ensures
            style == (Pressable {
                background: None,
                padding: Scalar { bits: ZERO_BITS },
                ..control_style()
            }),
    {
        let mut style = Pressable::control();
        style.background = None;
        style.padding = Scalar { bits: ZERO_BITS };
        style
    }
}

/// A procedural effect: straight-line source that ends in a colour.
#[derive(Clone, Debug, PartialEq, Eq)]
pub struct GpuEffect {
    pub id: u64,
    pub label: String,
    pub source: String,
    pub parameters: Vec<Scalar>,
    pub opacity: Scalar,
    pub preferred_width: Scalar,
    pub preferred_height: Scalar,
    pub animation_period_ms: Option<u32>,
}

impl GpuEffect {
    pub fn new(id: u64, label: &str, source: &str) -> (effect: Self)
        ensures
            effect.id == id,
            effect.label@ == label@,
            effect.source@ == source@,
            effect.parameters@.len() == 0,
            effect.opacity.bits == ONE_BITS,
            effect.preferred_width.bits == HUNDRED_BITS,
            effect.preferred_height.bits == SIXTY_BITS,
            effect.animation_period_ms is None,
    {
        GpuEffect {
            id,
            label: text::copied(label),
            source: text::copied(source),
            parameters: Vec::new(),
            opacity: Scalar { bits: ONE_BITS },
            preferred_width: Scalar { bits: HUNDRED_BITS },
            preferred_height: Scalar { bits: SIXTY_BITS },
            animation_period_ms: None,
        }
    }

    pub fn parameters(self, values: Vec<Scalar>) -> (effect: Self)
        ensures
            effect == (GpuEffect { parameters: values, ..self }),
    {
        let mut effect = self;
        effect.parameters = values;
        effect
    }

    pub fn opacity(self, opacity: Scalar) -> (effect: Self)
        ensures
            effect == (GpuEffect { opacity, ..self }),
    {
        let mut effect = self;
        effect.opacity = opacity;
        effect
    }

    pub fn preferred_size(self, width: Scalar, height: Scalar) -> (effect: Self)
        ensures
            effect == (GpuEffect { preferred_width: width, preferred_height: height, ..self }),
    {
        let mut effect = self;
        effect.preferred_width = width;
        effect.preferred_height = height;
        effect
    }

    pub fn animate(self, period_ms: u32) -> (effect: Self)
        ensures
            effect == (GpuEffect { animation_period_ms: Some(period_ms), ..self }),
    {
        let mut effect = self;
        effect.animation_period_ms = Some(period_ms);
        effect
    }
}

/// A change of how something is painted, which the host times.
#[derive(Clone, Copy, Debug, PartialEq, Eq, Structural)]
pub struct Animation {
    pub id: u64,
    pub from: VisualTransform,
    pub to: VisualTransform,
    pub duration_ms: u32,
    pub easing: Easing,
    pub playback: AnimationPlayback,
}

/// Everything as it is.
pub open spec fn unchanged() -> VisualTransform {
    VisualTransform {
        translation_x: Scalar { bits: ZERO_BITS },
        translation_y: Scalar { bits: ZERO_BITS },
        scale: Scalar { bits: ONE_BITS },
        opacity: Scalar { bits: ONE_BITS },
    }
}

pub fn visual_transform(
    translation_x: Scalar,
    translation_y: Scalar,
    scale: Scalar,
    opacity: Scalar,
) -> (transform: VisualTransform)
    ensures
        transform == (VisualTransform { translation_x, translation_y, scale, opacity }),
{
    VisualTransform { translation_x, translation_y, scale, opacity }
}

impl Animation {
    pub fn new(id: u64, duration_ms: u32) -> (animation: Self)
        ensures
            animation == (Animation {
                id,
                from: unchanged(),
                to: unchanged(),
                duration_ms,
                easing: Easing::EaseInOut,
                playback: AnimationPlayback::Once,
            }),
    {
        let still = visual_transform(
            Scalar { bits: ZERO_BITS },
            Scalar { bits: ZERO_BITS },
            Scalar { bits: ONE_BITS },
            Scalar { bits: ONE_BITS },
        );
        Animation {
            id,
            from: still,
            to: still,
            duration_ms,
            easing: Easing::EaseInOut,
            playback: AnimationPlayback::Once,
        }
    }

    pub fn from(self, from: VisualTransform) -> (animation: Self)
        ensures
            animation == (Animation { from, ..self }),
    {
        let mut animation = self;
        animation.from = from;
        animation
    }

    pub fn to(self, to: VisualTransform) -> (animation: Self)
        ensures
            animation == (Animation { to, ..self }),
    {
        let mut animation = self;
        animation.to = to;
        animation
    }

    pub fn easing(self, easing: Easing) -> (animation: Self)
        ensures
            animation == (Animation { easing, ..self }),
    {
        let mut animation = self;
        animation.easing = easing;
        animation
    }

    pub fn playback(self, playback: AnimationPlayback) -> (animation: Self)
        ensures
            animation == (Animation { playback, ..self }),
    {
        let mut animation = self;
        animation.playback = playback;
        animation
    }
}

/// A path, part by part.
#[derive(Clone, Debug, PartialEq, Eq)]
pub struct Path2d {
    pub segments: Vec<CanvasPathSegment>,
}

impl Default for Path2d {
    fn default() -> (path: Self)
        ensures
            path.segments@.len() == 0,
    {
        Path2d { segments: Vec::new() }
    }
}

impl Path2d {
    pub fn new() -> (path: Self)
        ensures
            path.segments@.len() == 0,
    {
        Path2d { segments: Vec::new() }
    }

    pub fn move_to(&mut self, point: CanvasPoint) -> (this: &mut Self)
        ensures
            this.segments@ == old(self).segments@.push(CanvasPathSegment::MoveTo(point)),
            *final(self) == *final(this),
    {
        self.segments.push(CanvasPathSegment::MoveTo(point));
        self
    }

    pub fn line_to(&mut self, point: CanvasPoint) -> (this: &mut Self)
        ensures
            this.segments@ == old(self).segments@.push(CanvasPathSegment::LineTo(point)),
            *final(self) == *final(this),
    {
        self.segments.push(CanvasPathSegment::LineTo(point));
        self
    }

    pub fn quadratic_to(&mut self, control: CanvasPoint, endpoint: CanvasPoint) -> (this: &mut Self)
        ensures
            this.segments@ == old(self).segments@.push(
                CanvasPathSegment::QuadraticTo { control, endpoint },
            ),
            *final(self) == *final(this),
    {
        self.segments.push(CanvasPathSegment::QuadraticTo { control, endpoint });
        self
    }

    pub fn cubic_to(
        &mut self,
        control_one: CanvasPoint,
        control_two: CanvasPoint,
        endpoint: CanvasPoint,
    ) -> (this: &mut Self)
        ensures
            this.segments@ == old(self).segments@.push(
                CanvasPathSegment::CubicTo { control_one, control_two, endpoint },
            ),
            *final(self) == *final(this),
    {
        self.segments.push(CanvasPathSegment::CubicTo { control_one, control_two, endpoint });
        self
    }

    pub fn close(&mut self) -> (this: &mut Self)
        ensures
            this.segments@ == old(self).segments@.push(CanvasPathSegment::Close),
            *final(self) == *final(this),
    {
        self.segments.push(CanvasPathSegment::Close);
        self
    }
}

/// A canvas, command by command.
#[derive(Clone, Debug, PartialEq, Eq)]
pub struct Canvas2d {
    pub label: String,
    pub viewbox_width: Scalar,
    pub viewbox_height: Scalar,
    pub commands: Vec<CanvasCommand>,
}

/// One more command on a canvas.
pub open spec fn draws(before: Canvas2d, after: Canvas2d, command: CanvasCommand) -> bool {
    &&& after.label == before.label
    &&& after.viewbox_width == before.viewbox_width
    &&& after.viewbox_height == before.viewbox_height
    &&& after.commands@ == before.commands@.push(command)
}

impl Canvas2d {
    pub fn new(label: &str, viewbox_width: Scalar, viewbox_height: Scalar) -> (canvas: Self)
        ensures
            canvas.label@ == label@,
            canvas.viewbox_width == viewbox_width,
            canvas.viewbox_height == viewbox_height,
            canvas.commands@.len() == 0,
    {
        Canvas2d {
            label: text::copied(label),
            viewbox_width,
            viewbox_height,
            commands: Vec::new(),
        }
    }

    pub fn fill_rect(
        &mut self,
        x: Scalar,
        y: Scalar,
        width: Scalar,
        height: Scalar,
        radius: Scalar,
        paint: CanvasPaint,
    ) -> (this: &mut Self)
        ensures
            draws(
                *old(self),
                *this,
                CanvasCommand::FillRect(CanvasRect { x, y, width, height, radius, paint }),
            ),
            *final(self) == *final(this),
    {
        self.commands.push(
            CanvasCommand::FillRect(CanvasRect { x, y, width, height, radius, paint }),
        );
        self
    }

    pub fn line(
        &mut self,
        start: CanvasPoint,
        end: CanvasPoint,
        width: Scalar,
        paint: CanvasPaint,
    ) -> (this: &mut Self)
        ensures
            draws(*old(self), *this, CanvasCommand::Line(CanvasLine { start, end, width, paint })),
            *final(self) == *final(this),
    {
        self.commands.push(CanvasCommand::Line(CanvasLine { start, end, width, paint }));
        self
    }

    pub fn polyline(
        &mut self,
        points: Vec<CanvasPoint>,
        width: Scalar,
        paint: CanvasPaint,
    ) -> (this: &mut Self)
        ensures
            draws(
                *old(self),
                *this,
                CanvasCommand::Polyline(CanvasPolyline { points, width, paint }),
            ),
            *final(self) == *final(this),
    {
        self.commands.push(CanvasCommand::Polyline(CanvasPolyline { points, width, paint }));
        self
    }

    pub fn fill_circle(
        &mut self,
        center: CanvasPoint,
        radius: Scalar,
        paint: CanvasPaint,
    ) -> (this: &mut Self)
        ensures
            draws(
                *old(self),
                *this,
                CanvasCommand::FillCircle(CanvasCircle { center, radius, paint }),
            ),
            *final(self) == *final(this),
    {
        self.commands.push(CanvasCommand::FillCircle(CanvasCircle { center, radius, paint }));
        self
    }

    pub fn fill_linear_gradient_rect(
        &mut self,
        x: Scalar,
        y: Scalar,
        width: Scalar,
        height: Scalar,
        radius: Scalar,
        start: CanvasPoint,
        end: CanvasPoint,
        start_color: CanvasPaint,
        end_color: CanvasPaint,
    ) -> (this: &mut Self)
        ensures
            draws(*old(self), *this, CanvasCommand::FillLinearGradientRect(
                CanvasGradientRect {
                    x,
                    y,
                    width,
                    height,
                    radius,
                    start,
                    end,
                    start_color,
                    end_color,
                },
            )),
            *final(self) == *final(this),
    {
        self.commands.push(CanvasCommand::FillLinearGradientRect(
                CanvasGradientRect {
                    x,
                    y,
                    width,
                    height,
                    radius,
                    start,
                    end,
                    start_color,
                    end_color,
                },
            ));
        self
    }

    pub fn stroke_path(
        &mut self,
        path: Path2d,
        width: Scalar,
        paint: CanvasPaint,
    ) -> (this: &mut Self)
        ensures
            draws(
                *old(self),
                *this,
                CanvasCommand::StrokePath(CanvasPath { segments: path.segments, width, paint }),
            ),
            *final(self) == *final(this),
    {
        self.commands.push(
            CanvasCommand::StrokePath(CanvasPath { segments: path.segments, width, paint }),
        );
        self
    }

    pub fn fill_path(
        &mut self,
        path: Path2d,
        paint: CanvasPaint,
    ) -> (this: &mut Self)
        ensures
            draws(
                *old(self),
                *this,
                CanvasCommand::FillPath(CanvasFillPath { segments: path.segments, paint }),
            ),
            *final(self) == *final(this),
    {
        self.commands.push(
            CanvasCommand::FillPath(CanvasFillPath { segments: path.segments, paint }),
        );
        self
    }

    pub fn text(
        &mut self,
        x: Scalar,
        y: Scalar,
        width: Scalar,
        height: Scalar,
        text: String,
        size: Scalar,
        paint: CanvasPaint,
        align: TextAlign,
    ) -> (this: &mut Self)
        ensures
            draws(
                *old(self),
                *this,
                CanvasCommand::Text(
                    CanvasText { x, y, width, height, text, size, color: paint, align },
                ),
            ),
            *final(self) == *final(this),
    {
        self.commands.push(
            CanvasCommand::Text(
                CanvasText { x, y, width, height, text, size, color: paint, align },
            ),
        );
        self
    }

    /// Puts the canvas into a view.
    pub fn finish(self, builder: &mut ViewBuilder) -> (id: NodeId)
        requires
            old(builder).nodes().len() <= u32::MAX,
        ensures
            adds(
                old(builder).nodes(),
                final(builder).nodes(),
                id,
                Node::Canvas(
                    CanvasNode {
                        label: self.label,
                        viewbox_width: self.viewbox_width,
                        viewbox_height: self.viewbox_height,
                        commands: self.commands,
                    },
                ),
            ),
    {
        builder.canvas(self.label, self.viewbox_width, self.viewbox_height, self.commands)
    }
}

pub fn theme_paint(color: ColorRole) -> (paint: CanvasPaint)
    ensures
        paint == (CanvasPaint {
            color: CanvasColor::Role(color),
            opacity: Scalar { bits: ONE_BITS },
        }),
{
    CanvasPaint { color: CanvasColor::Role(color), opacity: Scalar { bits: ONE_BITS } }
}

pub fn theme_paint_with_opacity(color: ColorRole, opacity: Scalar) -> (paint: CanvasPaint)
    ensures
        paint == (CanvasPaint { color: CanvasColor::Role(color), opacity }),
{
    CanvasPaint { color: CanvasColor::Role(color), opacity }
}

pub fn rgba_paint(red: Scalar, green: Scalar, blue: Scalar, alpha: Scalar) -> (paint: CanvasPaint)
    ensures
        paint == (CanvasPaint {
            color: CanvasColor::Rgba(Rgba { red, green, blue, alpha }),
            opacity: Scalar { bits: ONE_BITS },
        }),
{
    CanvasPaint {
        color: CanvasColor::Rgba(Rgba { red, green, blue, alpha }),
        opacity: Scalar { bits: ONE_BITS },
    }
}

fn flex(
    minimum: Scalar,
    basis: Scalar,
    maximum: Scalar,
    grow: u32,
    shrink: u32,
    intrinsic: bool,
) -> (layout:
    Flex)
    ensures
        layout == flexed(minimum, basis, maximum, grow, shrink, intrinsic),
{
    Flex {
        minimum,
        basis,
        maximum,
        grow: Scalar { bits: grow },
        shrink: Scalar { bits: shrink },
        visibility_priority: 0,
        required: false,
        intrinsic,
    }
}

/// A share with the given bits of growth and shrinkage.
pub open spec fn flexed(
    minimum: Scalar,
    basis: Scalar,
    maximum: Scalar,
    grow: u32,
    shrink: u32,
    intrinsic: bool,
) -> Flex {
    Flex {
        minimum,
        basis,
        maximum,
        grow: Scalar { bits: grow },
        shrink: Scalar { bits: shrink },
        visibility_priority: 0,
        required: false,
        intrinsic,
    }
}

/// A child of one width only.
pub fn fixed(node: NodeId, width: Scalar) -> (child: FlexChild)
    ensures
        child == (FlexChild {
            node,
            layout: flexed(width, width, width, ZERO_BITS, ZERO_BITS, false),
        }),
{
    FlexChild { node, layout: flex(width, width, width, ZERO_BITS, ZERO_BITS, false) }
}

/// A child that grows and shrinks.
pub fn flexible(node: NodeId, minimum: Scalar, basis: Scalar, maximum: Scalar) -> (child: FlexChild)
    ensures
        child == (FlexChild {
            node,
            layout: flexed(minimum, basis, maximum, ONE_BITS, ONE_BITS, false),
        }),
{
    FlexChild { node, layout: flex(minimum, basis, maximum, ONE_BITS, ONE_BITS, false) }
}

/// A child as wide as what is in it.
pub fn content(node: NodeId, minimum: Scalar, maximum: Scalar) -> (child: FlexChild)
    ensures
        child == (FlexChild {
            node,
            layout: flexed(minimum, minimum, maximum, ZERO_BITS, ONE_BITS, true),
        }),
{
    FlexChild { node, layout: flex(minimum, minimum, maximum, ZERO_BITS, ONE_BITS, true) }
}

// ---------------------------------------------------------------------------
// Views

/// A view that is being built.
#[derive(Debug)]
pub struct ViewBuilder {
    nodes: Vec<Node>,
}

impl Default for ViewBuilder {
    fn default() -> (builder: Self)
        ensures
            builder.nodes() == Seq::<Node>::empty(),
    {
        ViewBuilder { nodes: Vec::new() }
    }
}

/// One more node, whose number is how many there were before it.
pub open spec fn adds(before: Seq<Node>, after: Seq<Node>, id: NodeId, node: Node) -> bool {
    id == before.len() && after == before.push(node)
}

/// One more node, which is not described further.
pub open spec fn grows(before: Seq<Node>, after: Seq<Node>, id: NodeId) -> bool {
    id == before.len() && after.len() == before.len() + 1 && after.drop_last() == before
}

impl ViewBuilder {
    pub closed spec fn nodes(self) -> Seq<Node> {
        self.nodes@
    }

    pub fn new() -> (builder: Self)
        ensures
            builder.nodes() == Seq::<Node>::empty(),
    {
        ViewBuilder { nodes: Vec::new() }
    }

    /// Adds a node; the answer is its number.
    pub fn push(&mut self, node: Node) -> (id: NodeId)
        requires
            old(self).nodes().len() <= u32::MAX,
        ensures
            adds(old(self).nodes(), final(self).nodes(), id, node),
            grows(old(self).nodes(), final(self).nodes(), id),
    {
        let id: NodeId = self.nodes.len() as u32;
        self.nodes.push(node);
        proof {
            assert(self.nodes().drop_last() =~= old(self).nodes());
        }
        id
    }

    pub fn finish(self, root: NodeId) -> (view: ViewTree)
        ensures
            view.root == root,
            view.nodes@ == self.nodes(),
    {
        ViewTree { root, nodes: self.nodes }
    }

    pub fn empty(&mut self) -> (id: NodeId)
        requires
            old(self).nodes().len() <= u32::MAX,
        ensures
            adds(old(self).nodes(), final(self).nodes(), id, Node::Empty),
    {
        self.push(Node::Empty)
    }

    /// A text, in the middle.
    pub fn label(&mut self, text: &str, size: Scalar, color: ColorRole) -> (id: NodeId)
        requires
            old(self).nodes().len() <= u32::MAX,
        ensures
            grows(old(self).nodes(), final(self).nodes(), id),
            final(self).nodes().last() matches Node::Label(node)
                && node.text@ == text@
                && node.size == size
                && node.color == color
                && node.align == TextAlign::Center,
    {
        self.push(
            Node::Label(
                LabelNode {
                    text: text::copied(text),
                    size,
                    color,
                    align: TextAlign::Center,
                },
            ),
        )
    }

    pub fn icon(&mut self, icon: Icon, color: ColorRole, label: &str) -> (id: NodeId)
        requires
            old(self).nodes().len() <= u32::MAX,
        ensures
            grows(old(self).nodes(), final(self).nodes(), id),
            final(self).nodes().last() matches Node::Icon(node)
                && node.icon == icon
                && node.color == color
                && node.label@ == label@,
    {
        self.push(
            Node::Icon(
                IconNode {
                    icon,
                    color,
                    label: text::copied(label),
                },
            ),
        )
    }

    /// An image among the assets of the package.
    pub fn image(
        &mut self,
        asset_id: &str,
        label: &str,
        fit: ImageFit,
        tint: ImageTint,
    ) -> (id: NodeId)
        requires
            old(self).nodes().len() <= u32::MAX,
        ensures
            grows(old(self).nodes(), final(self).nodes(), id),
            final(self).nodes().last() matches Node::Image(node)
                && node.asset_id@ == asset_id@
                && node.label@ == label@
                && node.opacity == (Scalar { bits: ONE_BITS })
                && node.fit == fit
                && node.tint == tint,
    {
        self.push(
            Node::Image(
                AssetImageNode {
                    asset_id: text::copied(asset_id),
                    label: text::copied(label),
                    opacity: (Scalar { bits: ONE_BITS }),
                    fit,
                    tint,
                },
            ),
        )
    }

    pub fn button(
        &mut self,
        widget: u64,
        label: &str,
        icon: Option<Icon>,
        pressed: bool,
        selected: bool,
    ) -> (id: NodeId)
        requires
            old(self).nodes().len() <= u32::MAX,
        ensures
            grows(old(self).nodes(), final(self).nodes(), id),
            final(self).nodes().last() matches Node::Button(node)
                && node.widget_id == widget
                && node.label@ == label@
                && node.icon == icon
                && node.pressed == pressed
                && node.selected == selected,
    {
        self.push(
            Node::Button(
                ButtonNode {
                    widget_id: widget,
                    label: text::copied(label),
                    icon,
                    pressed,
                    selected,
                },
            ),
        )
    }

    pub fn row(&mut self, children: Vec<FlexChild>, gap: Scalar, padding: Scalar) -> (id: NodeId)
        requires
            old(self).nodes().len() <= u32::MAX,
        ensures
            adds(
                old(self).nodes(),
                final(self).nodes(),
                id,
                Node::Row(
                    ContainerNode {
                        gap,
                        padding,
                        align: CrossAxisAlignment::Stretch,
                        children,
                    },
                ),
            ),
    {
        self.push(
            Node::Row(
                ContainerNode {
                    gap,
                    padding,
                    align: CrossAxisAlignment::Stretch,
                    children,
                },
            ),
        )
    }

    pub fn column(&mut self, children: Vec<FlexChild>, gap: Scalar, padding: Scalar) -> (id: NodeId)
        requires
            old(self).nodes().len() <= u32::MAX,
        ensures
            adds(
                old(self).nodes(),
                final(self).nodes(),
                id,
                Node::Column(
                    ContainerNode {
                        gap,
                        padding,
                        align: CrossAxisAlignment::Stretch,
                        children,
                    },
                ),
            ),
    {
        self.push(
            Node::Column(
                ContainerNode {
                    gap,
                    padding,
                    align: CrossAxisAlignment::Stretch,
                    children,
                },
            ),
        )
    }

    pub fn layer(&mut self, children: Vec<NodeId>) -> (id: NodeId)
        requires
            old(self).nodes().len() <= u32::MAX,
        ensures
            adds(old(self).nodes(), final(self).nodes(), id, Node::Layer(LayerNode { children })),
    {
        self.push(Node::Layer(LayerNode { children }))
    }

    pub fn panel(
        &mut self,
        child: NodeId,
        color: ColorRole,
        radius: Scalar,
        padding: Scalar,
    ) -> (id: NodeId)
        requires
            old(self).nodes().len() <= u32::MAX,
        ensures
            adds(
                old(self).nodes(),
                final(self).nodes(),
                id,
                Node::Panel(
                    PanelNode {
                        radius,
                        color,
                        padding,
                        child,
                    },
                ),
            ),
    {
        self.push(Node::Panel(PanelNode { radius, color, padding, child }))
    }

    pub fn pressable(
        &mut self,
        widget: u64,
        label: &str,
        child: NodeId,
        style: Pressable,
    ) -> (id: NodeId)
        requires
            old(self).nodes().len() <= u32::MAX,
        ensures
            grows(old(self).nodes(), final(self).nodes(), id),
            final(self).nodes().last() matches Node::Pressable(node)
                && node.widget_id == widget
                && node.label@ == label@
                && node.pressed == style.pressed
                && node.selected == style.selected
                && node.hold_ms == style.hold_ms
                && node.background == style.background
                && node.pressed_background == style.pressed_background
                && node.content_foreground == style.content_foreground
                && node.corner_radius == style.corner_radius
                && node.padding == style.padding
                && node.child == child,
    {
        self.push(
            Node::Pressable(
                PressableNode {
                    widget_id: widget,
                    label: text::copied(label),
                    pressed: style.pressed,
                    selected: style.selected,
                    hold_ms: style.hold_ms,
                    background: style.background,
                    pressed_background: style.pressed_background,
                    content_foreground: style.content_foreground,
                    corner_radius: style.corner_radius,
                    padding: style.padding,
                    child,
                },
            ),
        )
    }

    pub fn slider(&mut self, widget: u64, label: &str, value: Scalar) -> (id: NodeId)
        requires
            old(self).nodes().len() <= u32::MAX,
        ensures
            grows(old(self).nodes(), final(self).nodes(), id),
            final(self).nodes().last() matches Node::Slider(node)
                && node.widget_id == widget
                && node.label@ == label@
                && node.value == value,
    {
        self.push(
            Node::Slider(
                SliderNode {
                    widget_id: widget,
                    label: text::copied(label),
                    value,
                },
            ),
        )
    }

    pub fn meter(&mut self, label: &str, value: Scalar, peak: Option<Scalar>) -> (id: NodeId)
        requires
            old(self).nodes().len() <= u32::MAX,
        ensures
            grows(old(self).nodes(), final(self).nodes(), id),
            final(self).nodes().last() matches Node::Meter(node)
                && node.label@ == label@
                && node.value == value
                && node.peak == peak,
    {
        self.push(
            Node::Meter(
                MeterNode {
                    label: text::copied(label),
                    value,
                    peak,
                },
            ),
        )
    }

    pub fn progress(&mut self, label: &str, value: Scalar, fill: ColorRole) -> (id: NodeId)
        requires
            old(self).nodes().len() <= u32::MAX,
        ensures
            grows(old(self).nodes(), final(self).nodes(), id),
            final(self).nodes().last() matches Node::Progress(node)
                && node.label@ == label@
                && node.value == value
                && node.track == ColorRole::Track
                && node.fill == fill,
    {
        self.push(
            Node::Progress(
                ProgressNode {
                    label: text::copied(label),
                    value,
                    track: ColorRole::Track,
                    fill,
                },
            ),
        )
    }

    pub fn opacity(&mut self, child: NodeId, opacity: Scalar) -> (id: NodeId)
        requires
            old(self).nodes().len() <= u32::MAX,
        ensures
            adds(
                old(self).nodes(),
                final(self).nodes(),
                id,
                Node::Opacity(
                    OpacityNode {
                        opacity,
                        child,
                    },
                ),
            ),
    {
        self.push(Node::Opacity(OpacityNode { opacity, child }))
    }

    pub fn motion(&mut self, child: NodeId, animation: Animation) -> (id: NodeId)
        requires
            old(self).nodes().len() <= u32::MAX,
        ensures
            adds(
                old(self).nodes(),
                final(self).nodes(),
                id,
                Node::Motion(
                    MotionNode {
                        animation_id: animation.id,
                        start_transform: animation.from,
                        end_transform: animation.to,
                        duration_ms: animation.duration_ms,
                        easing: animation.easing,
                        playback: animation.playback,
                        child,
                    },
                ),
            ),
    {
        self.push(
            Node::Motion(
                MotionNode {
                    animation_id: animation.id,
                    start_transform: animation.from,
                    end_transform: animation.to,
                    duration_ms: animation.duration_ms,
                    easing: animation.easing,
                    playback: animation.playback,
                    child,
                },
            ),
        )
    }

    pub fn canvas(
        &mut self,
        label: String,
        viewbox_width: Scalar,
        viewbox_height: Scalar,
        commands: Vec<CanvasCommand>,
    ) -> (id: NodeId)
        requires
            old(self).nodes().len() <= u32::MAX,
        ensures
            adds(
                old(self).nodes(),
                final(self).nodes(),
                id,
                Node::Canvas(
                    CanvasNode {
                        label,
                        viewbox_width,
                        viewbox_height,
                        commands,
                    },
                ),
            ),
    {
        self.push(Node::Canvas(CanvasNode { label, viewbox_width, viewbox_height, commands }))
    }

    pub fn shader_effect(&mut self, effect: GpuEffect) -> (id: NodeId)
        requires
            old(self).nodes().len() <= u32::MAX,
        ensures
            adds(
                old(self).nodes(),
                final(self).nodes(),
                id,
                Node::ShaderEffect(
                    ShaderEffectNode {
                        effect_id: effect.id,
                        label: effect.label,
                        source: effect.source,
                        parameters: effect.parameters,
                        opacity: effect.opacity,
                        preferred_width: effect.preferred_width,
                        preferred_height: effect.preferred_height,
                        animation_period_ms: effect.animation_period_ms,
                    },
                ),
            ),
    {
        self.push(
            Node::ShaderEffect(
                ShaderEffectNode {
                    effect_id: effect.id,
                    label: effect.label,
                    source: effect.source,
                    parameters: effect.parameters,
                    opacity: effect.opacity,
                    preferred_width: effect.preferred_width,
                    preferred_height: effect.preferred_height,
                    animation_period_ms: effect.animation_period_ms,
                },
            ),
        )
    }

    pub fn responsive(&mut self, widget: u64, variants: Vec<ResponsiveVariant>) -> (id: NodeId)
        requires
            old(self).nodes().len() <= u32::MAX,
        ensures
            adds(
                old(self).nodes(),
                final(self).nodes(),
                id,
                Node::Responsive(
                    ResponsiveNode {
                        widget_id: widget,
                        variants,
                    },
                ),
            ),
    {
        self.push(Node::Responsive(ResponsiveNode { widget_id: widget, variants }))
    }
}

/// A node that was added stays where it is, whatever is added behind it.
pub proof fn nodes_keep_their_numbers(
    first: Seq<Node>,
    second: Seq<Node>,
    third: Seq<Node>,
    a: NodeId,
    b: NodeId,
    node: Node,
    other: Node,
)
    requires
        adds(first, second, a, node),
        adds(second, third, b, other),
    ensures
        a != b,
        third[a as int] == node,
        third[b as int] == other,
{
}

} // verus!
