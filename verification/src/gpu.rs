//! Plain descriptions of GPU pipelines and of what their shaders bind.
//!
//! A pass states here what it needs; whoever owns a device builds it.

use vstd::prelude::*;

verus! {

/// Shader stages that see a binding.
#[derive(Clone, Copy, PartialEq, Eq, Structural)]
pub enum Stage {
    Vertex,
    Fragment,
    VertexFragment,
    Compute,
}

/// What stands at a binding.
#[derive(Clone, Copy, PartialEq, Eq, Structural)]
pub enum BindingKind {
    Uniform,
    /// A uniform whose offset is given with each draw, of at least that size.
    DynamicUniform(u64),
    Storage { read_only: bool },
    Texture { filterable: bool },
    DepthTexture,
    CubeTexture,
    Sampler,
}

#[derive(Clone, Copy, PartialEq, Eq, Structural)]
pub struct Binding {
    pub binding: u32,
    pub stage: Stage,
    pub kind: BindingKind,
}

/// The bindings are numbered from zero on, in order.
pub open spec fn numbered(list: Seq<Binding>) -> bool {
    forall|i: int| 0 <= i < list.len() ==> (#[trigger] list[i]).binding == i
}

/// Formats of render targets.
#[derive(Clone, Copy, PartialEq, Eq, Structural)]
pub enum TargetFormat {
    /// The linear scene color.
    SceneColor,
    /// The window's surface as it is.
    Surface,
    /// The window's surface, gamma encoded.
    SurfaceSrgb,
    GBufferNormal,
    GBufferSpec,
    /// One byte of occlusion.
    Occlusion,
}

#[derive(Clone, Copy, PartialEq, Eq, Structural)]
pub enum BlendFactor {
    Zero,
    One,
    Dst,
    SrcAlpha,
    OneMinusSrcAlpha,
}

#[derive(Clone, Copy, PartialEq, Eq, Structural)]
pub enum BlendOperation {
    Add,
    Min,
}

#[derive(Clone, Copy, PartialEq, Eq, Structural)]
pub struct BlendComponent {
    pub src: BlendFactor,
    pub dst: BlendFactor,
    pub operation: BlendOperation,
}

/// How a fragment joins what is there.
#[derive(Clone, Copy, PartialEq, Eq, Structural)]
pub struct Blend {
    pub color: BlendComponent,
    pub alpha: BlendComponent,
}

#[derive(Clone, Copy, PartialEq, Eq, Structural)]
pub struct Target {
    pub format: TargetFormat,
    pub blend: Option<Blend>,
}

/// What the vertices of a draw make.
#[derive(Clone, Copy, PartialEq, Eq, Structural)]
pub enum Topology {
    /// Every three vertices make a triangle.
    TriangleList,
}

/// Which fragments pass against the depth that is there.
#[derive(Clone, Copy, PartialEq, Eq, Structural)]
pub enum DepthCompare {
    /// Those that are as near or nearer.
    LessEqual,
}

/// A test against the scene's depth.
#[derive(Clone, Copy, PartialEq, Eq, Structural)]
pub struct DepthTest {
    pub compare: DepthCompare,
    /// Fragments that pass leave their depth.
    pub write: bool,
}

/// A render pipeline of a shader with `vs_main` and `fs_main`.
pub struct PipelinePlan {
    /// Bind groups in order.
    pub groups: Vec<Vec<Binding>>,
    /// Reads model vertices; else the vertices come from their number alone.
    pub vertex_buffer: bool,
    pub targets: Vec<Target>,
    pub cull_back: bool,
    pub topology: Topology,
    /// The depth test; without one every fragment passes.
    pub depth: Option<DepthTest>,
}

/// The groups of a plan.
pub open spec fn groups_view(list: Seq<Vec<Binding>>) -> Seq<Seq<Binding>> {
    list.map_values(|g: Vec<Binding>| g@)
}

/// A fragment in place of what is there.
pub open spec fn replace_blend() -> Blend {
    Blend {
        color: BlendComponent {
            src: BlendFactor::One,
            dst: BlendFactor::Zero,
            operation: BlendOperation::Add,
        },
        alpha: BlendComponent {
            src: BlendFactor::One,
            dst: BlendFactor::Zero,
            operation: BlendOperation::Add,
        },
    }
}

/// A fragment over what is there, by its alpha.
pub open spec fn alpha_blend() -> Blend {
    Blend {
        color: BlendComponent {
            src: BlendFactor::SrcAlpha,
            dst: BlendFactor::OneMinusSrcAlpha,
            operation: BlendOperation::Add,
        },
        alpha: BlendComponent {
            src: BlendFactor::One,
            dst: BlendFactor::OneMinusSrcAlpha,
            operation: BlendOperation::Add,
        },
    }
}

/// Colors add up; alpha is set.
pub open spec fn light_blend() -> Blend {
    Blend {
        color: BlendComponent {
            src: BlendFactor::One,
            dst: BlendFactor::One,
            operation: BlendOperation::Add,
        },
        alpha: BlendComponent {
            src: BlendFactor::One,
            dst: BlendFactor::Zero,
            operation: BlendOperation::Add,
        },
    }
}

/// Colors multiply; the smaller alpha stays.
pub open spec fn hole_blend() -> Blend {
    Blend {
        color: BlendComponent {
            src: BlendFactor::Dst,
            dst: BlendFactor::Zero,
            operation: BlendOperation::Add,
        },
        alpha: BlendComponent {
            src: BlendFactor::One,
            dst: BlendFactor::One,
            operation: BlendOperation::Min,
        },
    }
}

fn component(src: BlendFactor, dst: BlendFactor, operation: BlendOperation) -> (r: BlendComponent)
    ensures
        r == (BlendComponent { src, dst, operation }),
{
    BlendComponent { src, dst, operation }
}

pub fn blend_replace() -> (r: Blend)
    ensures
        r == replace_blend(),
{
    let c = component(BlendFactor::One, BlendFactor::Zero, BlendOperation::Add);
    Blend { color: c, alpha: c }
}

pub fn blend_alpha() -> (r: Blend)
    ensures
        r == alpha_blend(),
{
    Blend {
        color: component(
            BlendFactor::SrcAlpha,
            BlendFactor::OneMinusSrcAlpha,
            BlendOperation::Add,
        ),
        alpha: component(BlendFactor::One, BlendFactor::OneMinusSrcAlpha, BlendOperation::Add),
    }
}

pub fn blend_light() -> (r: Blend)
    ensures
        r == light_blend(),
{
    Blend {
        color: component(BlendFactor::One, BlendFactor::One, BlendOperation::Add),
        alpha: component(BlendFactor::One, BlendFactor::Zero, BlendOperation::Add),
    }
}

pub fn blend_hole() -> (r: Blend)
    ensures
        r == hole_blend(),
{
    Blend {
        color: component(BlendFactor::Dst, BlendFactor::Zero, BlendOperation::Add),
        alpha: component(BlendFactor::One, BlendFactor::One, BlendOperation::Min),
    }
}

/// Bindings of one kind each, numbered from zero on, all seen by one stage.
pub open spec fn bindings_of(stage: Stage, kinds: Seq<BindingKind>) -> Seq<Binding> {
    Seq::new(kinds.len(), |i: int| Binding { binding: i as u32, stage, kind: kinds[i] })
}

/// Numbers bindings from zero on.
pub fn bindings(stage: Stage, kinds: &[BindingKind]) -> (r: Vec<Binding>)
    requires
        kinds@.len() <= u32::MAX,
    ensures
        r@ == bindings_of(stage, kinds@),
        numbered(r@),
{
    let mut out: Vec<Binding> = Vec::new();
    let mut i: usize = 0;
    while i < kinds.len()
        invariant
            i <= kinds.len(),
            kinds@.len() <= u32::MAX,
            out@ == bindings_of(stage, kinds@).take(i as int),
        decreases kinds.len() - i,
    {
        out.push(Binding { binding: i as u32, stage, kind: kinds[i] });
        i += 1;
    }
    out
}

/// The four targets of the G-buffer as inputs: albedo, normal, specular and depth,
/// read without a sampler.
pub open spec fn gbuffer_inputs() -> Seq<BindingKind> {
    seq![
        BindingKind::Texture { filterable: false },
        BindingKind::Texture { filterable: false },
        BindingKind::Texture { filterable: false },
        BindingKind::DepthTexture,
    ]
}

pub fn gbuffer_bindings() -> (r: Vec<Binding>)
    ensures
        r@ == bindings_of(Stage::Fragment, gbuffer_inputs()),
{
    let kinds: [BindingKind; 4] = [
        BindingKind::Texture { filterable: false },
        BindingKind::Texture { filterable: false },
        BindingKind::Texture { filterable: false },
        BindingKind::DepthTexture,
    ];
    assert(kinds@ == gbuffer_inputs());
    bindings(Stage::Fragment, &kinds)
}

/// A color texture, its sampler and a second texture: what a model or a material
/// binds.
pub open spec fn surface_inputs() -> Seq<BindingKind> {
    seq![
        BindingKind::Texture { filterable: true },
        BindingKind::Sampler,
        BindingKind::Texture { filterable: true },
    ]
}

pub fn surface_bindings() -> (r: Vec<Binding>)
    ensures
        r@ == bindings_of(Stage::Fragment, surface_inputs()),
{
    let kinds: [BindingKind; 3] = [
        BindingKind::Texture { filterable: true },
        BindingKind::Sampler,
        BindingKind::Texture { filterable: true },
    ];
    assert(kinds@ == surface_inputs());
    bindings(Stage::Fragment, &kinds)
}

/// One uniform.
pub fn uniform_binding(stage: Stage) -> (r: Vec<Binding>)
    ensures
        r@ == bindings_of(stage, seq![BindingKind::Uniform]),
{
    let kinds: [BindingKind; 1] = [BindingKind::Uniform];
    assert(kinds@ == seq![BindingKind::Uniform]);
    bindings(stage, &kinds)
}

/// Two groups as a list.
pub fn two_groups(a: Vec<Binding>, b: Vec<Binding>) -> (r: Vec<Vec<Binding>>)
    ensures
        groups_view(r@) == seq![a@, b@],
{
    let mut out: Vec<Vec<Binding>> = Vec::new();
    out.push(a);
    out.push(b);
    assert(groups_view(out@) == seq![a@, b@]);
    out
}

/// One target as a list.
pub fn one_target(format: TargetFormat, blend: Option<Blend>) -> (r: Vec<Target>)
    ensures
        r@ == seq![Target { format, blend }],
{
    let mut out: Vec<Target> = Vec::new();
    out.push(Target { format, blend });
    assert(out@ == seq![Target { format, blend }]);
    out
}

/// What a factor multiplies by, in parts of `unit`, for a fragment of alpha `alpha`
/// over a value `dst`.
pub open spec fn weight(f: BlendFactor, unit: int, alpha: int, dst: int) -> int {
    match f {
        BlendFactor::Zero => 0,
        BlendFactor::One => unit,
        BlendFactor::Dst => dst,
        BlendFactor::SrcAlpha => alpha,
        BlendFactor::OneMinusSrcAlpha => unit - alpha,
    }
}

/// What a fragment's value `src` makes of the value `dst` that is there, in parts of
/// `unit` times `unit`.
pub open spec fn blended(c: BlendComponent, unit: int, alpha: int, src: int, dst: int) -> int {
    match c.operation {
        BlendOperation::Add => src * weight(c.src, unit, alpha, dst) + dst * weight(
            c.dst,
            unit,
            alpha,
            dst,
        ),
        BlendOperation::Min => (if src < dst {
            src
        } else {
            dst
        }) * unit,
    }
}

/// Replacing leaves the fragment alone.
pub proof fn replacing_leaves_the_fragment(unit: int, alpha: int, src: int, dst: int)
    ensures
        blended(replace_blend().color, unit, alpha, src, dst) == src * unit,
        blended(replace_blend().alpha, unit, alpha, src, dst) == src * unit,
{
    assert(src * unit + dst * 0 == src * unit) by (nonlinear_arith);
}

/// A fragment that is opaque hides what is there, in color and alpha; one that is
/// clear leaves it. Between the two the colors are mixed by alpha, and what is there
/// shows through by as much as the fragment is clear.
pub proof fn alpha_covers_what_is_there(unit: int, alpha: int, src: int, dst: int)
    ensures
        blended(alpha_blend().color, unit, unit, src, dst) == src * unit,
        blended(alpha_blend().alpha, unit, unit, unit, dst) == unit * unit,
        blended(alpha_blend().color, unit, 0, src, dst) == dst * unit,
        blended(alpha_blend().alpha, unit, 0, 0, dst) == dst * unit,
        blended(alpha_blend().color, unit, alpha, src, dst) == dst * unit + alpha * (src - dst),
        blended(alpha_blend().alpha, unit, alpha, alpha, dst) == unit * unit - (unit - alpha) * (unit
            - dst),
{
    assert(src * unit + dst * (unit - unit) == src * unit) by (nonlinear_arith);
    assert(unit * unit + dst * (unit - unit) == unit * unit) by (nonlinear_arith);
    assert(src * 0 + dst * (unit - 0) == dst * unit) by (nonlinear_arith);
    assert(0 * unit + dst * (unit - 0) == dst * unit) by (nonlinear_arith);
    assert(src * alpha + dst * (unit - alpha) == dst * unit + alpha * (src - dst))
        by (nonlinear_arith);
    assert(alpha * unit + dst * (unit - alpha) == unit * unit - (unit - alpha) * (unit - dst))
        by (nonlinear_arith);
}

/// Lights add up, in whichever order they are drawn, and the last one sets alpha.
pub proof fn lights_add_up(unit: int, alpha: int, first: int, second: int, dst: int)
    ensures
        blended(light_blend().color, unit, alpha, first, dst) == (first + dst) * unit,
        blended(light_blend().color, unit, alpha, second, first + dst) == blended(
            light_blend().color,
            unit,
            alpha,
            first,
            second + dst,
        ),
        blended(light_blend().alpha, unit, alpha, first, dst) == first * unit,
{
    assert(first * unit + dst * unit == (first + dst) * unit) by (nonlinear_arith);
    assert(first * unit + dst * 0 == first * unit) by (nonlinear_arith);
    assert(second * unit + (first + dst) * unit == first * unit + (second + dst) * unit)
        by (nonlinear_arith);
}

/// A hole only ever darkens: its colors multiply those that are there, white leaving
/// them and black blotting them out. Of two alphas the smaller stays.
pub proof fn holes_only_darken(unit: int, alpha: int, src: int, dst: int)
    ensures
        blended(hole_blend().color, unit, alpha, src, dst) == src * dst,
        blended(hole_blend().color, unit, alpha, unit, dst) == dst * unit,
        blended(hole_blend().color, unit, alpha, 0, dst) == 0,
        unit >= 0 ==> blended(hole_blend().alpha, unit, alpha, src, dst) <= src * unit && blended(
            hole_blend().alpha,
            unit,
            alpha,
            src,
            dst,
        ) <= dst * unit,
        blended(hole_blend().alpha, unit, alpha, src, dst) == src * unit || blended(
            hole_blend().alpha,
            unit,
            alpha,
            src,
            dst,
        ) == dst * unit,
{
    assert(src * dst + dst * 0 == src * dst) by (nonlinear_arith);
    assert(unit * dst + dst * 0 == dst * unit) by (nonlinear_arith);
    assert(0 * dst + dst * 0 == 0) by (nonlinear_arith);
    if unit >= 0 {
        if src < dst {
            assert(src * unit <= dst * unit) by (nonlinear_arith)
                requires
                    src < dst,
                    unit >= 0,
            ;
        } else {
            assert(dst * unit <= src * unit) by (nonlinear_arith)
                requires
                    dst <= src,
                    unit >= 0,
            ;
        }
    }
}

/// Bindings stand as their kinds do, one for each, and carry their places as their
/// numbers, for the one stage.
pub proof fn bindings_follow_their_kinds(stage: Stage, kinds: Seq<BindingKind>, i: int)
    requires
        kinds.len() <= u32::MAX,
        0 <= i < kinds.len(),
    ensures
        bindings_of(stage, kinds).len() == kinds.len(),
        bindings_of(stage, kinds)[i].binding == i,
        bindings_of(stage, kinds)[i].stage == stage,
        bindings_of(stage, kinds)[i].kind == kinds[i],
{
}

/// Of the G-buffer's inputs the last and no other is the depth, and none is sampled
/// or filtered. A surface's two textures are filtered and stand on both sides of
/// their sampler.
pub proof fn depth_is_read_last(i: int)
    ensures
        gbuffer_inputs().len() == 4,
        0 <= i < 4 ==> (gbuffer_inputs()[i] == BindingKind::DepthTexture <==> i == 3),
        0 <= i < 3 ==> gbuffer_inputs()[i] == (BindingKind::Texture { filterable: false }),
        surface_inputs().len() == 3,
        0 <= i < 3 ==> (surface_inputs()[i] == BindingKind::Sampler <==> i == 1),
        0 <= i < 3 && i != 1 ==> surface_inputs()[i] == (BindingKind::Texture { filterable: true }),
{
}

} // verus!
