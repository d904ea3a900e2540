//! Converts the finished splat image into the linear scene color, once.

use vstd::prelude::*;

use crate::float_bits::{FloatBits, ONE};
use crate::gpu::{
    bindings, blend_alpha, one_target, two_groups, uniform_binding, BindingKind, PipelinePlan,
    Stage, Target, TargetFormat, Topology,
};
#[allow(unused_imports)]
use crate::gpu::{alpha_blend, alpha_covers_what_is_there, bindings_of, blended, groups_view};

verus! {

/// The tone curve of the scene.
#[derive(Clone, Copy, PartialEq, Eq, Structural)]
pub struct PostProcessSettings {
    pub highlight_scale: FloatBits,
    pub midtone_scale: FloatBits,
    pub highlight_curve: FloatBits,
    pub midtone_curve: FloatBits,
    pub shadow_offset: FloatBits,
    pub exposure: FloatBits,
    pub tonemap_enabled: bool,
}

/// The pipeline of the pass: a triangle over the whole target that blends the
/// converted splats over the scene.
pub fn composite_pipeline() -> (r: PipelinePlan)
    ensures
        groups_view(r.groups@) == seq![
            bindings_of(
                Stage::Fragment,
                seq![BindingKind::Texture { filterable: true }, BindingKind::Sampler],
            ),
            bindings_of(Stage::Fragment, seq![BindingKind::Uniform]),
        ],
        !r.vertex_buffer,
        r.targets@ == seq![
            Target { format: TargetFormat::SceneColor, blend: Some(alpha_blend()) },
        ],
        !r.cull_back,
        r.topology == Topology::TriangleList,
        r.depth is None,
{
    let kinds: [BindingKind; 2] = [
        BindingKind::Texture { filterable: true },
        BindingKind::Sampler,
    ];
    assert(kinds@ == seq![BindingKind::Texture { filterable: true }, BindingKind::Sampler]);
    PipelinePlan {
        groups: two_groups(bindings(Stage::Fragment, &kinds), uniform_binding(Stage::Fragment)),
        vertex_buffer: false,
        targets: one_target(TargetFormat::SceneColor, Some(blend_alpha())),
        cull_back: false,
        topology: Topology::TriangleList,
        depth: None,
    }
}

/// The uniform of the pass: the curve's four factors, and then its offset, the
/// exposure and the switch.
pub fn tonemap_uniform(s: &PostProcessSettings) -> (r: ([FloatBits; 4], [FloatBits; 4]))
    ensures
        r.0@ == seq![s.highlight_scale, s.midtone_scale, s.highlight_curve, s.midtone_curve],
        r.1@ == seq![
            s.shadow_offset,
            s.exposure,
            if s.tonemap_enabled {
                ONE
            } else {
                0
            },
            0,
        ],
{
    let abcd = [s.highlight_scale, s.midtone_scale, s.highlight_curve, s.midtone_curve];
    let enabled = if s.tonemap_enabled {
        ONE
    } else {
        0
    };
    let rest = [s.shadow_offset, s.exposure, enabled, 0];
    assert(abcd@ == seq![s.highlight_scale, s.midtone_scale, s.highlight_curve, s.midtone_curve]);
    assert(rest@ == seq![s.shadow_offset, s.exposure, enabled, 0]);
    (abcd, rest)
}

/// The uniform holds every number of the curve once, in its own place, and the switch as
/// one or zero.
pub proof fn the_curve_stands_in_its_uniform(
    s: PostProcessSettings,
    r: ([FloatBits; 4], [FloatBits; 4]),
)
    requires
        call_ensures(tonemap_uniform, (&s,), r),
    ensures
        r.0@[0] == s.highlight_scale,
        r.0@[1] == s.midtone_scale,
        r.0@[2] == s.highlight_curve,
        r.0@[3] == s.midtone_curve,
        r.1@[0] == s.shadow_offset,
        r.1@[1] == s.exposure,
        s.tonemap_enabled ==> r.1@[2] == 0x3f80_0000,
        !s.tonemap_enabled ==> r.1@[2] == 0,
        r.1@[3] == 0,
{
}

/// Splats are laid over the scene by their alpha, over the whole target: what is opaque
/// hides the scene, and what is clear leaves it.
pub proof fn splats_are_laid_over_the_scene(r: PipelinePlan, unit: int, src: int, dst: int)
    requires
        call_ensures(composite_pipeline, (), r),
    ensures
        r.targets@.len() == 1,
        r.targets@[0].format == TargetFormat::SceneColor,
        r.targets@[0].blend is Some,
        blended(r.targets@[0].blend->0.color, unit, unit, src, dst) == src * unit,
        blended(r.targets@[0].blend->0.color, unit, 0, src, dst) == dst * unit,
        r.depth is None && !r.vertex_buffer && !r.cull_back,
{
    alpha_covers_what_is_there(unit, 0, src, dst);
}

} // verus!
