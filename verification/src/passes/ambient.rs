//! Screen-space ambient occlusion and a single bounce of diffuse light, read by
//! the skylight's shader.

use vstd::prelude::*;

#[allow(unused_imports)]
use crate::float_bits::{is_nan, lt};
use crate::float_bits::{float_max, max_of, FloatBits, ONE};
use crate::gpu::{
    bindings, gbuffer_bindings, two_groups, BindingKind, PipelinePlan, Stage, Target, TargetFormat,
    Topology,
};
#[allow(unused_imports)]
use crate::gpu::{bindings_of, gbuffer_inputs, groups_view};
use crate::passes::deferred::LightType;

verus! {

/// Switches for the two effects. The pass runs either way; an effect that is off
/// leaves its target neutral.
#[derive(Clone, Copy)]
pub struct AmbientSettings {
    pub ssao_enabled: bool,
    pub ssgi_enabled: bool,
    /// Factor on the bounced light.
    pub gi_intensity: FloatBits,
}

impl Default for AmbientSettings {
    fn default() -> (r: Self)
        ensures
            r == (AmbientSettings { ssao_enabled: true, ssgi_enabled: true, gi_intensity: ONE }),
    {
        AmbientSettings { ssao_enabled: true, ssgi_enabled: true, gi_intensity: ONE }
    }
}

/// What the second group binds: the uniform, the sky's cube with its sampler, and
/// its irradiance.
pub open spec fn env_inputs() -> Seq<BindingKind> {
    seq![
        BindingKind::Uniform,
        BindingKind::CubeTexture,
        BindingKind::Sampler,
        BindingKind::Storage { read_only: true },
    ]
}

/// The pipeline of the pass: a triangle over the whole target that writes occlusion
/// and bounced light.
pub fn ambient_pipeline() -> (r: PipelinePlan)
    ensures
        groups_view(r.groups@) == seq![
            bindings_of(Stage::Fragment, gbuffer_inputs()),
            bindings_of(Stage::Fragment, env_inputs()),
        ],
        !r.vertex_buffer,
        r.targets@ == seq![
            Target { format: TargetFormat::Occlusion, blend: None },
            Target { format: TargetFormat::SceneColor, blend: None },
        ],
        !r.cull_back,
        r.topology == Topology::TriangleList,
        r.depth is None,
{
    let kinds: [BindingKind; 4] = [
        BindingKind::Uniform,
        BindingKind::CubeTexture,
        BindingKind::Sampler,
        BindingKind::Storage { read_only: true },
    ];
    assert(kinds@ == env_inputs());
    let mut targets: Vec<Target> = Vec::new();
    targets.push(Target { format: TargetFormat::Occlusion, blend: None });
    targets.push(Target { format: TargetFormat::SceneColor, blend: None });
    assert(targets@ == seq![
        Target { format: TargetFormat::Occlusion, blend: None },
        Target { format: TargetFormat::SceneColor, blend: None },
    ]);
    PipelinePlan {
        groups: two_groups(gbuffer_bindings(), bindings(Stage::Fragment, &kinds)),
        vertex_buffer: false,
        targets,
        cull_back: false,
        topology: Topology::TriangleList,
        depth: None,
    }
}

/// A light, as far as this pass reads it.
#[derive(Clone, Copy)]
pub struct LightInfo {
    pub id: u32,
    pub kind: LightType,
    /// Its surroundings were baked into a cube.
    pub baked: bool,
}

/// The light can feed rays that miss everything on the screen.
pub open spec fn feeds_rays(l: LightInfo) -> bool {
    l.kind == LightType::Skylight && l.baked
}

/// The baked skylight with the lowest number, if there is one.
pub fn pick_env(lights: &Vec<LightInfo>) -> (r: Option<u32>)
    ensures
        match r {
            Some(id) => (exists|i: int|
                0 <= i < lights@.len() && feeds_rays(#[trigger] lights@[i]) && lights@[i].id == id)
                && forall|i: int|
                0 <= i < lights@.len() && feeds_rays(#[trigger] lights@[i]) ==> id <= lights@[i].id,
            None => forall|i: int| 0 <= i < lights@.len() ==> !feeds_rays(#[trigger] lights@[i]),
        },
{
    let mut best: Option<u32> = None;
    let mut i: usize = 0;
    while i < lights.len()
        invariant
            i <= lights.len(),
            match best {
                Some(id) => (exists|j: int|
                    0 <= j < i && feeds_rays(#[trigger] lights@[j]) && lights@[j].id == id)
                    && forall|j: int|
                    0 <= j < i && feeds_rays(#[trigger] lights@[j]) ==> id <= lights@[j].id,
                None => forall|j: int| 0 <= j < i ==> !feeds_rays(#[trigger] lights@[j]),
            },
        decreases lights.len() - i,
    {
        let l = lights[i];
        let sky = match l.kind {
            LightType::Skylight => true,
            _ => false,
        };
        if sky && l.baked {
            assert(feeds_rays(lights@[i as int]));
            match best {
                Some(id) => {
                    if l.id < id {
                        best = Some(l.id);
                    }
                },
                None => {
                    best = Some(l.id);
                },
            }
        }
        i += 1;
    }
    best
}

/// A switch as the shader reads it: 1.0 or 0.0.
pub fn flag_bits(on: bool) -> (r: FloatBits)
    ensures
        r == if on {
            ONE
        } else {
            0
        },
{
    if on {
        ONE
    } else {
        0
    }
}

/// The factor on the bounced light, which is never negative.
pub fn gi_factor(settings: &AmbientSettings) -> (r: FloatBits)
    ensures
        r == max_of(settings.gi_intensity, 0),
{
    float_max(settings.gi_intensity, 0)
}

/// The environment's inputs hold the sky's cube directly before its sampler, after
/// the pass's own numbers, and the irradiance is only read.
pub proof fn the_sky_is_sampled(i: int)
    ensures
        env_inputs().len() == 4,
        0 <= i < 4 ==> (env_inputs()[i] == BindingKind::Uniform <==> i == 0),
        0 <= i < 4 ==> (env_inputs()[i] == BindingKind::CubeTexture <==> i == 1),
        0 <= i < 4 ==> (env_inputs()[i] == BindingKind::Sampler <==> i == 2),
        0 <= i < 4 ==> (env_inputs()[i] == (BindingKind::Storage { read_only: true }) <==> i == 3),
{
}

/// Only skylights feed rays, and of those only the ones that were baked.
pub proof fn baked_skylights_feed_rays(l: LightInfo)
    ensures
        feeds_rays(LightInfo { kind: LightType::Skylight, baked: true, ..l }),
        !feeds_rays(LightInfo { baked: false, ..l }),
        l.kind != LightType::Skylight ==> !feeds_rays(l),
{
}

/// The environment is a baked skylight where there is one, and of several the one with
/// the lowest number, wherever it stands.
pub proof fn the_lowest_baked_skylight_is_picked(
    lights: Vec<LightInfo>,
    r: Option<u32>,
    i: int,
)
    requires
        call_ensures(pick_env, (&lights,), r),
        0 <= i < lights@.len(),
    ensures
        lights@[i].kind == LightType::Skylight && lights@[i].baked ==> r is Some && r->0
            <= lights@[i].id,
        r matches Some(id) ==> exists|k: int|
            0 <= k < lights@.len() && (#[trigger] lights@[k]).kind == LightType::Skylight
                && lights@[k].baked && lights@[k].id == id,
{
    if let Some(id) = r {
        let k = choose|k: int|
            0 <= k < lights@.len() && feeds_rays(#[trigger] lights@[k]) && lights@[k].id == id;
        assert(lights@[k].kind == LightType::Skylight);
    }
}

/// A switch reads as one or as zero, and the factor on bounced light as it is unless it
/// is negative or no number: then it is zero.
pub proof fn effects_are_never_negative(
    on: bool,
    flag: FloatBits,
    settings: AmbientSettings,
    factor: FloatBits,
)
    requires
        call_ensures(flag_bits, (on,), flag),
        call_ensures(gi_factor, (&settings,), factor),
    ensures
        flag == if on {
            0x3f80_0000
        } else {
            0u32
        },
        lt(0, settings.gi_intensity) ==> factor == settings.gi_intensity,
        lt(settings.gi_intensity, 0) ==> factor == 0,
        is_nan(settings.gi_intensity) ==> factor == 0,
        !lt(factor, 0),
{
}

} // verus!
