//! Deferred world rendering: the G-buffer pass draws the world's actors, the
//! lighting pass adds up the lights.

use vstd::prelude::*;

use crate::assets::AssetManager;
#[allow(unused_imports)]
use crate::float_bits::lt;
use crate::float_bits::{clamped, float_clamp, FloatBits, Vec4, ONE};
use crate::gpu::{
    blend_light, blend_replace, gbuffer_bindings, one_target, surface_bindings, two_groups,
    uniform_binding, DepthCompare, DepthTest, PipelinePlan, Stage, Target, TargetFormat, Topology,
};
#[allow(unused_imports)]
use crate::gpu::{
    bindings_of, gbuffer_inputs, groups_view, light_blend, replace_blend, surface_inputs,
    BindingKind,
};
use crate::handles::{MaterialHandle, ModelHandle};

verus! {

/// Most lights drawn per frame; the others are ignored.
pub const MAX_LIGHTS: usize = 32;

/// Layers of a scene.
#[derive(Clone, Copy, PartialEq, Eq, Structural)]
pub enum SceneLayer {
    World,
    WorldHole,
    WorldCustom,
    Foreground,
    ForegroundCustom,
}

/// The pipeline that draws models into the G-buffer.
pub fn gbuffer_pipeline() -> (r: PipelinePlan)
    ensures
        groups_view(r.groups@) == seq![
            bindings_of(Stage::Fragment, surface_inputs()),
            bindings_of(Stage::VertexFragment, seq![BindingKind::Uniform]),
        ],
        r.vertex_buffer,
        r.targets@ == seq![
            Target { format: TargetFormat::SurfaceSrgb, blend: Some(replace_blend()) },
            Target { format: TargetFormat::GBufferNormal, blend: Some(replace_blend()) },
            Target { format: TargetFormat::GBufferSpec, blend: Some(replace_blend()) },
        ],
        r.cull_back,
        r.topology == Topology::TriangleList,
        r.depth == Some(DepthTest { compare: DepthCompare::LessEqual, write: true }),
{
    let mut targets: Vec<Target> = Vec::new();
    targets.push(Target { format: TargetFormat::SurfaceSrgb, blend: Some(blend_replace()) });
    targets.push(Target { format: TargetFormat::GBufferNormal, blend: Some(blend_replace()) });
    targets.push(Target { format: TargetFormat::GBufferSpec, blend: Some(blend_replace()) });
    assert(targets@ == seq![
        Target { format: TargetFormat::SurfaceSrgb, blend: Some(replace_blend()) },
        Target { format: TargetFormat::GBufferNormal, blend: Some(replace_blend()) },
        Target { format: TargetFormat::GBufferSpec, blend: Some(replace_blend()) },
    ]);
    PipelinePlan {
        groups: two_groups(surface_bindings(), uniform_binding(Stage::VertexFragment)),
        vertex_buffer: true,
        targets,
        cull_back: true,
        topology: Topology::TriangleList,
        depth: Some(DepthTest { compare: DepthCompare::LessEqual, write: true }),
    }
}

/// An actor, as far as the G-buffer pass reads it.
#[derive(Clone, Copy)]
pub struct ActorInfo {
    pub layer: SceneLayer,
    pub model: ModelHandle,
    pub material: MaterialHandle,
}

/// One draw of a model.
#[derive(Clone, Copy)]
pub struct Slot {
    /// Which actor.
    pub actor: usize,
    /// The material to bind in place of the model's own textures.
    pub material: Option<MaterialHandle>,
    /// What the actor's color is multiplied by.
    pub color_constant: Vec4,
    /// The metallic and roughness constant.
    pub mr_constant: Vec4,
}

/// A model with its draws of this frame.
pub struct ModelSlots {
    pub model: ModelHandle,
    pub slots: Vec<Slot>,
}

/// The actor is drawn: it is in the world layer, and its model is there. Actors may
/// exist before they get a model.
pub open spec fn is_drawn(a: ActorInfo, models: Set<u32>) -> bool {
    a.layer == SceneLayer::World && models.contains(a.model.index)
}

/// The models that the first `n` actors draw, each once, in the order in which they
/// are first met.
pub open spec fn drawn_models(actors: Seq<ActorInfo>, models: Set<u32>, n: int) -> Seq<u32>
    decreases n,
{
    if n <= 0 {
        seq![]
    } else {
        let rest = drawn_models(actors, models, n - 1);
        let a = actors[n - 1];
        if is_drawn(a, models) && !rest.contains(a.model.index) {
            rest.push(a.model.index)
        } else {
            rest
        }
    }
}

/// Those of the first `n` actors that draw a model, in order.
pub open spec fn actors_of(actors: Seq<ActorInfo>, models: Set<u32>, model: u32, n: int) -> Seq<int>
    decreases n,
{
    if n <= 0 {
        seq![]
    } else {
        let rest = actors_of(actors, models, model, n - 1);
        if is_drawn(actors[n - 1], models) && actors[n - 1].model.index == model {
            rest.push(n - 1)
        } else {
            rest
        }
    }
}

/// The actors of some slots.
pub open spec fn slot_actors(slots: Seq<Slot>) -> Seq<int> {
    slots.map_values(|s: Slot| s.actor as int)
}

/// The model indices of a plan.
pub open spec fn plan_models(plan: Seq<ModelSlots>) -> Seq<u32> {
    plan.map_values(|m: ModelSlots| m.model.index)
}

/// The constants and the material of a slot: those of the actor's material where it
/// is there, and else a plain white without metal or roughness of its own.
pub open spec fn wears_material<T, S, M, B>(
    slot: Slot,
    a: ActorInfo,
    assets: AssetManager<T, S, M, B>,
) -> bool {
    let there = assets.material_mappings@.assets;
    if there.contains_key(a.material.index) {
        &&& slot.material == Some(a.material)
        &&& slot.color_constant == there[a.material.index].color_constant
        &&& slot.mr_constant == there[a.material.index].mr_constant
    } else {
        &&& slot.material is None
        &&& slot.color_constant == (Vec4 { x: ONE, y: ONE, z: ONE, w: ONE })
        &&& slot.mr_constant == (Vec4 { x: 0, y: 0, z: 0, w: 0 })
    }
}

/// The plan that draws the first `n` actors.
pub open spec fn is_plan<T, S, M, B>(
    plan: Seq<ModelSlots>,
    actors: Seq<ActorInfo>,
    assets: AssetManager<T, S, M, B>,
    n: int,
) -> bool {
    let models = assets.model_mappings@.assets.dom();
    &&& plan_models(plan) == drawn_models(actors, models, n)
    &&& forall|k: int|
        0 <= k < plan.len() ==> slot_actors((#[trigger] plan[k]).slots@) == actors_of(
            actors,
            models,
            plan[k].model.index,
            n,
        )
    &&& forall|k: int, i: int|
        0 <= k < plan.len() && 0 <= i < plan[k].slots@.len() ==> {
            let slot = #[trigger] plan[k].slots@[i];
            slot.actor < actors.len() && wears_material(slot, actors[slot.actor as int], assets)
        }
}

fn find_model(plan: &Vec<ModelSlots>, model: u32) -> (r: Option<usize>)
    ensures
        match r {
            Some(k) => k < plan@.len() && plan@[k as int].model.index == model && forall|j: int|
                0 <= j < k ==> (#[trigger] plan@[j]).model.index != model,
            None => !plan_models(plan@).contains(model),
        },
{
    let mut k: usize = 0;
    while k < plan.len()
        invariant
            k <= plan.len(),
            forall|j: int| 0 <= j < k ==> (#[trigger] plan@[j]).model.index != model,
        decreases plan.len() - k,
    {
        if plan[k].model.index == model {
            return Some(k);
        }
        k += 1;
    }
    assert(!plan_models(plan@).contains(model)) by {
        if plan_models(plan@).contains(model) {
            let j = choose|j: int| 0 <= j < plan_models(plan@).len() && plan_models(plan@)[j] == model;
            assert(plan@[j].model.index == model);
        }
    }
    None
}

proof fn lemma_drawn_models(actors: Seq<ActorInfo>, models: Set<u32>, n: int)
    requires
        0 <= n <= actors.len(),
    ensures
        drawn_models(actors, models, n).no_duplicates(),
        forall|i: int|
            0 <= i < n && is_drawn(#[trigger] actors[i], models) ==> drawn_models(
                actors,
                models,
                n,
            ).contains(actors[i].model.index),
    decreases n,
{
    if n > 0 {
        lemma_drawn_models(actors, models, n - 1);
        let rest = drawn_models(actors, models, n - 1);
        let all = drawn_models(actors, models, n);
        assert forall|i: int| 0 <= i < n && is_drawn(#[trigger] actors[i], models) implies all.contains(
            actors[i].model.index,
        ) by {
            let m = actors[i].model.index;
            if rest.contains(m) {
                let j = choose|j: int| 0 <= j < rest.len() && rest[j] == m;
                assert(all[j] == m);
            } else {
                assert(i == n - 1);
                assert(all.last() == m);
            }
        }
    }
}

proof fn lemma_no_actors(actors: Seq<ActorInfo>, models: Set<u32>, model: u32, n: int)
    requires
        0 <= n <= actors.len(),
        !drawn_models(actors, models, n).contains(model),
    ensures
        actors_of(actors, models, model, n).len() == 0,
    decreases n,
{
    if n > 0 {
        lemma_drawn_models(actors, models, n);
        let rest = drawn_models(actors, models, n - 1);
        if rest.contains(model) {
            let j = choose|j: int| 0 <= j < rest.len() && rest[j] == model;
            assert(drawn_models(actors, models, n)[j] == model);
        }
        lemma_no_actors(actors, models, model, n - 1);
        assert(!(is_drawn(actors[n - 1], models) && actors[n - 1].model.index == model));
    }
}

fn slot_for<T, S, M, B>(
    assets: &AssetManager<T, S, M, B>,
    actor: usize,
    info: &ActorInfo,
) -> (r: Slot)
    ensures
        r.actor == actor,
        wears_material(r, *info, *assets),
{
    match assets.get_material(&info.material) {
        Some(m) => Slot {
            actor,
            material: Some(info.material),
            color_constant: m.color_constant,
            mr_constant: m.mr_constant,
        },
        None => Slot {
            actor,
            material: None,
            color_constant: Vec4 { x: ONE, y: ONE, z: ONE, w: ONE },
            mr_constant: Vec4 { x: 0, y: 0, z: 0, w: 0 },
        },
    }
}

/// Plans the G-buffer pass: which models are drawn, for which actors, and with
/// which materials.
pub fn gbuffer_plan<T, S, M, B>(
    actors: &Vec<ActorInfo>,
    assets: &AssetManager<T, S, M, B>,
) -> (r: Vec<ModelSlots>)
    ensures
        is_plan(r@, actors@, *assets, actors@.len() as int),
{
    let mut plan: Vec<ModelSlots> = Vec::new();
    let ghost models = assets.model_mappings@.assets.dom();
    let mut n: usize = 0;
    assert(plan_models(plan@) == drawn_models(actors@, models, 0));
    while n < actors.len()
        invariant
            n <= actors.len(),
            models == assets.model_mappings@.assets.dom(),
            is_plan(plan@, actors@, *assets, n as int),
        decreases actors.len() - n,
    {
        let info = actors[n];
        let in_world = match info.layer {
            SceneLayer::World => true,
            _ => false,
        };
        if in_world && assets.model_mappings.get(info.model.index).is_some() {
            let slot = slot_for(assets, n, &info);
            let ghost before = plan@;
            let ghost rest = drawn_models(actors@, models, n as int);
            proof {
                lemma_drawn_models(actors@, models, n as int);
            }
            match find_model(&plan, info.model.index) {
                Some(k) => {
                    assert(rest.contains(info.model.index)) by {
                        assert(plan_models(before)[k as int] == info.model.index);
                    }
                    let ghost slots_before = plan@[k as int].slots@;
                    plan[k].slots.push(slot);
                    proof {
                        assert(plan@ == before.update(k as int, plan@[k as int]));
                        assert(plan@[k as int].slots@ == slots_before.push(slot));
                        assert(plan@[k as int].model == before[k as int].model);
                        assert(plan_models(plan@) == plan_models(before));
                        assert forall|j: int| 0 <= j < plan@.len() implies slot_actors(
                            (#[trigger] plan@[j]).slots@,
                        ) == actors_of(actors@, models, plan@[j].model.index, n + 1) by {
                            assert(slot_actors(before[j].slots@) == actors_of(
                                actors@,
                                models,
                                before[j].model.index,
                                n as int,
                            ));
                            if j == k {
                                assert(slot_actors(plan@[j].slots@) == slot_actors(
                                    slots_before,
                                ).push(n as int));
                            } else {
                                assert(plan_models(before)[j] != plan_models(before)[k as int]);
                                assert(plan@[j] == before[j]);
                            }
                        }
                        assert forall|j: int, i: int|
                            0 <= j < plan@.len() && 0 <= i < plan@[j].slots@.len() implies {
                            let s = #[trigger] plan@[j].slots@[i];
                            s.actor < actors@.len() && wears_material(
                                s,
                                actors@[s.actor as int],
                                *assets,
                            )
                        } by {
                            if j == k && i == slots_before.len() {
                            } else {
                                assert(plan@[j].slots@[i] == before[j].slots@[i]);
                            }
                        }
                    }
                },
                None => {
                    let mut slots: Vec<Slot> = Vec::new();
                    slots.push(slot);
                    plan.push(ModelSlots { model: info.model, slots });
                    proof {
                        lemma_no_actors(actors@, models, info.model.index, n as int);
                        assert(plan_models(plan@) == plan_models(before).push(info.model.index));
                        assert forall|j: int| 0 <= j < plan@.len() implies slot_actors(
                            (#[trigger] plan@[j]).slots@,
                        ) == actors_of(actors@, models, plan@[j].model.index, n + 1) by {
                            if j == before.len() {
                                assert(slot_actors(plan@[j].slots@) == seq![n as int]);
                                assert(actors_of(actors@, models, info.model.index, n as int)
                                    == Seq::<int>::empty());
                            } else {
                                assert(plan@[j] == before[j]);
                                assert(plan_models(before)[j] == before[j].model.index);
                                assert(before[j].model.index != info.model.index);
                            }
                        }
                        assert forall|j: int, i: int|
                            0 <= j < plan@.len() && 0 <= i < plan@[j].slots@.len() implies {
                            let s = #[trigger] plan@[j].slots@[i];
                            s.actor < actors@.len() && wears_material(
                                s,
                                actors@[s.actor as int],
                                *assets,
                            )
                        } by {
                            if j < before.len() {
                                assert(plan@[j].slots@[i] == before[j].slots@[i]);
                            }
                        }
                    }
                },
            }
        } else {
            assert(!is_drawn(info, models));
        }
        n += 1;
    }
    plan
}

/// Every actor that is drawn has a slot under its model, models do not repeat, and
/// no other actor has a slot.
pub proof fn plans_draw_each_actor_once(
    actors: Seq<ActorInfo>,
    models: Set<u32>,
    i: int,
    model: u32,
)
    requires
        0 <= i < actors.len(),
    ensures
        drawn_models(actors, models, actors.len() as int).no_duplicates(),
        actors_of(actors, models, model, actors.len() as int).no_duplicates(),
        actors_of(actors, models, model, actors.len() as int).contains(i) <==> is_drawn(
            actors[i],
            models,
        ) && actors[i].model.index == model,
        is_drawn(actors[i], models) ==> drawn_models(
            actors,
            models,
            actors.len() as int,
        ).contains(actors[i].model.index),
{
    lemma_drawn_models(actors, models, actors.len() as int);
    lemma_actors_of(actors, models, model, actors.len() as int);
}

proof fn lemma_actors_of(actors: Seq<ActorInfo>, models: Set<u32>, model: u32, n: int)
    requires
        0 <= n <= actors.len(),
    ensures
        actors_of(actors, models, model, n).no_duplicates(),
        forall|k: int|
            0 <= k < actors_of(actors, models, model, n).len() ==> 0 <= #[trigger] actors_of(
                actors,
                models,
                model,
                n,
            )[k] < n,
        forall|i: int|
            0 <= i < n ==> (#[trigger] actors_of(actors, models, model, n).contains(i) <==> is_drawn(
                actors[i],
                models,
            ) && actors[i].model.index == model),
    decreases n,
{
    if n > 0 {
        lemma_actors_of(actors, models, model, n - 1);
        let rest = actors_of(actors, models, model, n - 1);
        let all = actors_of(actors, models, model, n);
        assert forall|i: int| 0 <= i < n implies (#[trigger] all.contains(i) <==> is_drawn(
            actors[i],
            models,
        ) && actors[i].model.index == model) by {
            if i < n - 1 {
                assert(rest.contains(i) <==> is_drawn(actors[i], models) && actors[i].model.index
                    == model);
                if rest.contains(i) {
                    let k = choose|k: int| 0 <= k < rest.len() && rest[k] == i;
                    assert(all[k] == i);
                }
                if all.contains(i) {
                    let k = choose|k: int| 0 <= k < all.len() && all[k] == i;
                    assert(rest[k] == i);
                }
            } else {
                if is_drawn(actors[i], models) && actors[i].model.index == model {
                    assert(all.last() == i);
                }
                if all.contains(i) {
                    let k = choose|k: int| 0 <= k < all.len() && all[k] == i;
                    if k < rest.len() {
                        assert(rest[k] == i);
                    }
                }
            }
        }
    }
}

/// Kinds of lights.
#[derive(Clone, Copy, PartialEq, Eq, Structural)]
pub enum LightType {
    Skylight,
    Directional,
    Point,
    Spot,
}

/// The shader of a kind of light.
pub open spec fn shader_of(kind: LightType) -> Seq<char> {
    match kind {
        LightType::Skylight => "/engine_assets/shaders/light_skylight.wgsl"@,
        LightType::Directional => "/engine_assets/shaders/light_directional.wgsl"@,
        LightType::Point => "/engine_assets/shaders/light_point.wgsl"@,
        LightType::Spot => "/engine_assets/shaders/light_spot.wgsl"@,
    }
}

pub fn light_shader(kind: LightType) -> (r: &'static str)
    ensures
        r@ == shader_of(kind),
{
    match kind {
        LightType::Skylight => "/engine_assets/shaders/light_skylight.wgsl",
        LightType::Directional => "/engine_assets/shaders/light_directional.wgsl",
        LightType::Point => "/engine_assets/shaders/light_point.wgsl",
        LightType::Spot => "/engine_assets/shaders/light_spot.wgsl",
    }
}

/// The pipeline of a light: a triangle over the whole target that adds the light's
/// part, from the G-buffer and the light's uniform.
pub fn lighting_pipeline() -> (r: PipelinePlan)
    ensures
        groups_view(r.groups@) == seq![
            bindings_of(Stage::Fragment, gbuffer_inputs()),
            bindings_of(Stage::VertexFragment, seq![BindingKind::Uniform]),
        ],
        !r.vertex_buffer,
        r.targets@ == seq![
            Target { format: TargetFormat::SurfaceSrgb, blend: Some(light_blend()) },
        ],
        !r.cull_back,
        r.topology == Topology::TriangleList,
        r.depth is None,
{
    PipelinePlan {
        groups: two_groups(gbuffer_bindings(), uniform_binding(Stage::VertexFragment)),
        vertex_buffer: false,
        targets: one_target(TargetFormat::SurfaceSrgb, Some(blend_light())),
        cull_back: false,
        topology: Topology::TriangleList,
        depth: None,
    }
}

/// The lights that are drawn: the first `MAX_LIGHTS`, each with the uniform slot of
/// its number.
pub fn light_draws(lights: &Vec<LightType>) -> (r: Vec<(usize, LightType)>)
    ensures
        r@.len() == if lights@.len() < MAX_LIGHTS {
            lights@.len()
        } else {
            MAX_LIGHTS as nat
        },
        forall|i: int| 0 <= i < r@.len() ==> #[trigger] r@[i] == (i as usize, lights@[i]),
{
    let mut out: Vec<(usize, LightType)> = Vec::new();
    let mut i: usize = 0;
    while i < lights.len() && i < MAX_LIGHTS
        invariant
            i <= lights.len(),
            i <= MAX_LIGHTS,
            out@.len() == i,
            forall|k: int| 0 <= k < i ==> #[trigger] out@[k] == (k as usize, lights@[k]),
        decreases lights.len() - i,
    {
        out.push((i, lights[i]));
        i += 1;
    }
    out
}

/// The cone of a spot light in degrees, brought between 0.5 and 89.0.
pub fn clamp_spot_angle(angle: FloatBits) -> (r: FloatBits)
    ensures
        r == clamped(angle, 0x3f00_0000, 0x42b2_0000),
{
    float_clamp(angle, 0x3f00_0000, 0x42b2_0000)
}

/// The actors of a model's slots stand in order, and each of them draws that model.
proof fn lemma_actors_in_order(actors: Seq<ActorInfo>, models: Set<u32>, model: u32, n: int)
    requires
        0 <= n <= actors.len(),
    ensures
        forall|i: int, j: int|
            #![trigger actors_of(actors, models, model, n)[i], actors_of(
                actors,
                models,
                model,
                n,
            )[j]]
            0 <= i < j < actors_of(actors, models, model, n).len() ==> actors_of(
                actors,
                models,
                model,
                n,
            )[i] < actors_of(actors, models, model, n)[j],
    decreases n,
{
    if n > 0 {
        lemma_actors_in_order(actors, models, model, n - 1);
        lemma_actors_of(actors, models, model, n - 1);
    }
}

/// The first actors of two models that are drawn stand as the models do.
proof fn lemma_models_in_order(actors: Seq<ActorInfo>, models: Set<u32>, n: int, k: int, l: int)
    requires
        0 <= n <= actors.len(),
        0 <= k < drawn_models(actors, models, n).len(),
        0 <= l < drawn_models(actors, models, n).len(),
    ensures
        actors_of(actors, models, drawn_models(actors, models, n)[k], n).len() > 0,
        k < l ==> actors_of(actors, models, drawn_models(actors, models, n)[k], n)[0] < actors_of(
            actors,
            models,
            drawn_models(actors, models, n)[l],
            n,
        )[0],
    decreases n,
{
    if n > 0 {
        let rest = drawn_models(actors, models, n - 1);
        let all = drawn_models(actors, models, n);
        lemma_actors_of(actors, models, all[k], n - 1);
        lemma_drawn_models(actors, models, n);
        if k < rest.len() && l < rest.len() {
            lemma_models_in_order(actors, models, n - 1, k, l);
            lemma_models_in_order(actors, models, n - 1, l, k);
        } else if k < rest.len() {
            lemma_models_in_order(actors, models, n - 1, k, k);
            lemma_no_actors(actors, models, all[l], n - 1);
        } else if l < rest.len() {
            lemma_no_actors(actors, models, all[k], n - 1);
        } else {
            lemma_no_actors(actors, models, all[k], n - 1);
        }
    }
}

/// An actor of the world layer whose model is there has exactly one slot, under its
/// model.
pub proof fn world_actors_get_one_slot<T, S, M, B>(
    plan: Seq<ModelSlots>,
    actors: Seq<ActorInfo>,
    assets: AssetManager<T, S, M, B>,
    i: int,
)
    requires
        is_plan(plan, actors, assets, actors.len() as int),
        0 <= i < actors.len(),
        actors[i].layer == SceneLayer::World,
        assets.model_mappings@.assets.contains_key(actors[i].model.index),
    ensures
        exists|k: int, s: int|
            0 <= k < plan.len() && 0 <= s < plan[k].slots@.len() && plan[k].model.index
                == actors[i].model.index && (#[trigger] plan[k].slots@[s]).actor == i,
        forall|k: int, s: int, l: int, t: int|
            0 <= k < plan.len() && 0 <= s < plan[k].slots@.len() && 0 <= l < plan.len() && 0 <= t
                < plan[l].slots@.len() && (#[trigger] plan[k].slots@[s]).actor == i && (
            #[trigger] plan[l].slots@[t]).actor == i ==> k == l && s == t,
{
    let models = assets.model_mappings@.assets.dom();
    let n = actors.len() as int;
    lemma_drawn_models(actors, models, n);
    let m = actors[i].model.index;
    let k = choose|k: int|
        0 <= k < drawn_models(actors, models, n).len() && drawn_models(actors, models, n)[k] == m;
    assert(plan_models(plan)[k] == m);
    assert(plan[k].model.index == m);
    lemma_actors_of(actors, models, m, n);
    let a = slot_actors(plan[k].slots@);
    assert(a == actors_of(actors, models, m, n));
    assert(a.contains(i));
    let s = choose|s: int| 0 <= s < a.len() && a[s] == i;
    assert(plan[k].slots@[s].actor == i);
    assert forall|k: int, s: int, l: int, t: int|
        0 <= k < plan.len() && 0 <= s < plan[k].slots@.len() && 0 <= l < plan.len() && 0 <= t
            < plan[l].slots@.len() && (#[trigger] plan[k].slots@[s]).actor == i && (
        #[trigger] plan[l].slots@[t]).actor == i implies k == l && s == t by {
        let b = slot_actors(plan[k].slots@);
        let c = slot_actors(plan[l].slots@);
        lemma_actors_of(actors, models, plan[k].model.index, n);
        lemma_actors_of(actors, models, plan[l].model.index, n);
        assert(b[s] == i && c[t] == i);
        assert(b.contains(i) && c.contains(i));
        assert(plan_models(plan)[k] == plan[k].model.index);
        assert(plan_models(plan)[l] == plan[l].model.index);
    }
}

/// A slot stands for an actor of the world layer with the slot's model, which is
/// there. The slots of a model stand in the order of their actors, and the models in
/// the order of their first actors; no model stands there without a slot.
pub proof fn slots_stand_for_world_actors<T, S, M, B>(
    plan: Seq<ModelSlots>,
    actors: Seq<ActorInfo>,
    assets: AssetManager<T, S, M, B>,
    k: int,
)
    requires
        is_plan(plan, actors, assets, actors.len() as int),
        0 <= k < plan.len(),
    ensures
        plan[k].slots@.len() > 0,
        assets.model_mappings@.assets.contains_key(plan[k].model.index),
        forall|s: int|
            0 <= s < plan[k].slots@.len() ==> {
                let a = (#[trigger] plan[k].slots@[s]).actor as int;
                &&& a < actors.len()
                &&& actors[a].layer == SceneLayer::World
                &&& actors[a].model.index == plan[k].model.index
            },
        forall|s: int, t: int|
            0 <= s < t < plan[k].slots@.len() ==> (#[trigger] plan[k].slots@[s]).actor < (
            #[trigger] plan[k].slots@[t]).actor,
        forall|l: int|
            k < l < plan.len() ==> plan[k].slots@[0].actor < (#[trigger] plan[l]).slots@[0].actor,
{
    let models = assets.model_mappings@.assets.dom();
    let n = actors.len() as int;
    let m = plan[k].model.index;
    assert(plan_models(plan)[k] == m);
    lemma_models_in_order(actors, models, n, k, k);
    lemma_actors_of(actors, models, m, n);
    lemma_actors_in_order(actors, models, m, n);
    let a = slot_actors(plan[k].slots@);
    assert(a == actors_of(actors, models, m, n));
    assert forall|s: int| 0 <= s < plan[k].slots@.len() implies {
        let x = (#[trigger] plan[k].slots@[s]).actor as int;
        &&& x < actors.len()
        &&& actors[x].layer == SceneLayer::World
        &&& actors[x].model.index == plan[k].model.index
        &&& models.contains(actors[x].model.index)
    } by {
        assert(a[s] == plan[k].slots@[s].actor);
        assert(a.contains(a[s]));
    }
    assert(models.contains(m)) by {
        assert(plan[k].slots@[0].actor < actors.len());
    }
    assert forall|s: int, t: int| 0 <= s < t < plan[k].slots@.len() implies (
    #[trigger] plan[k].slots@[s]).actor < (#[trigger] plan[k].slots@[t]).actor by {
        assert(a[s] < a[t]);
    }
    assert forall|l: int| k < l < plan.len() implies plan[k].slots@[0].actor < (
    #[trigger] plan[l]).slots@[0].actor by {
        assert(plan_models(plan)[l] == plan[l].model.index);
        lemma_models_in_order(actors, models, n, k, l);
        lemma_models_in_order(actors, models, n, l, l);
        assert(slot_actors(plan[l].slots@)[0] == plan[l].slots@[0].actor);
        assert(a[0] == plan[k].slots@[0].actor);
    }
}

/// A slot wears its actor's material with the material's own constants. Where that
/// material is not there, nothing is bound in place of the model's textures, and the
/// constants leave the actor's color as it is.
pub proof fn slots_wear_their_materials<T, S, M, B>(
    plan: Seq<ModelSlots>,
    actors: Seq<ActorInfo>,
    assets: AssetManager<T, S, M, B>,
    k: int,
    s: int,
)
    requires
        is_plan(plan, actors, assets, actors.len() as int),
        0 <= k < plan.len(),
        0 <= s < plan[k].slots@.len(),
    ensures
        ({
            let slot = plan[k].slots@[s];
            let material = actors[slot.actor as int].material;
            let there = assets.material_mappings@.assets;
            &&& slot.material == if there.contains_key(material.index) {
                Some(material)
            } else {
                None
            }
            &&& there.contains_key(material.index) ==> slot.color_constant
                == there[material.index].color_constant && slot.mr_constant
                == there[material.index].mr_constant
            &&& !there.contains_key(material.index) ==> {
                &&& slot.color_constant.x == 0x3f80_0000
                &&& slot.color_constant.y == 0x3f80_0000
                &&& slot.color_constant.z == 0x3f80_0000
                &&& slot.color_constant.w == 0x3f80_0000
                &&& slot.mr_constant.x == 0
                &&& slot.mr_constant.y == 0
                &&& slot.mr_constant.z == 0
                &&& slot.mr_constant.w == 0
            }
        }),
{
    assert(plan[k].slots@[s].actor < actors.len());
}

/// The word for a kind of light.
pub open spec fn light_word(kind: LightType) -> Seq<char> {
    match kind {
        LightType::Skylight => "skylight"@,
        LightType::Directional => "directional"@,
        LightType::Point => "point"@,
        LightType::Spot => "spot"@,
    }
}

/// A light's shader lies with the engine's own and bears the word for its kind, so
/// that different kinds have different shaders.
pub proof fn lights_have_their_own_shaders(a: LightType, b: LightType)
    ensures
        shader_of(a) == "/engine_assets/shaders/light_"@ + light_word(a) + ".wgsl"@,
        a != b ==> shader_of(a) != shader_of(b),
{
    reveal_strlit("skylight");
    reveal_strlit("directional");
    reveal_strlit("point");
    reveal_strlit("spot");
    reveal_strlit("/engine_assets/shaders/light_");
    reveal_strlit(".wgsl");
    reveal_strlit("/engine_assets/shaders/light_skylight.wgsl");
    reveal_strlit("/engine_assets/shaders/light_directional.wgsl");
    reveal_strlit("/engine_assets/shaders/light_point.wgsl");
    reveal_strlit("/engine_assets/shaders/light_spot.wgsl");
    assert(shader_of(a) =~= "/engine_assets/shaders/light_"@ + light_word(a) + ".wgsl"@);
    if a != b && shader_of(a).len() == shader_of(b).len() {
        assert(shader_of(a)[29] != shader_of(b)[29] || shader_of(a)[30] != shader_of(b)[30]);
    }
}

/// The first 32 lights are drawn, each in the slot of its own number; the others are
/// not.
pub proof fn the_first_lights_are_drawn(
    lights: Vec<LightType>,
    r: Vec<(usize, LightType)>,
    i: int,
)
    requires
        call_ensures(light_draws, (&lights,), r),
    ensures
        r@.len() <= 32,
        r@.len() <= lights@.len(),
        0 <= i < lights@.len() && i < 32 ==> i < r@.len() && r@[i].0 == i && r@[i].1 == lights@[i],
{
}

/// A spot light's cone stays as it is between 0.5 and 89 degrees, and is brought to the
/// nearer of the two elsewhere.
pub proof fn cones_are_brought_into_range(angle: FloatBits, r: FloatBits)
    requires
        call_ensures(clamp_spot_angle, (angle,), r),
    ensures
        lt(angle, 0x3f00_0000) ==> r == 0x3f00_0000,
        lt(0x42b2_0000, angle) ==> r == 0x42b2_0000,
        !lt(angle, 0x3f00_0000) && !lt(0x42b2_0000, angle) ==> r == angle,
{
}

/// What the G-buffer pass writes is what the lighting pass reads: a texture for each of
/// its targets, and the depth that it leaves. The first hides what is behind it; the
/// second adds every light over the whole target.
pub proof fn lighting_reads_the_gbuffer(write: PipelinePlan, read: PipelinePlan, i: int)
    requires
        call_ensures(gbuffer_pipeline, (), write),
        call_ensures(lighting_pipeline, (), read),
    ensures
        ({
            let inputs = read.groups@[0]@;
            &&& inputs.len() == write.targets@.len() + 1
            &&& 0 <= i < inputs.len() ==> inputs[i].binding == i && inputs[i].stage
                == Stage::Fragment
            &&& 0 <= i < write.targets@.len() ==> inputs[i].kind == (BindingKind::Texture {
                filterable: false,
            })
            &&& inputs.last().kind == BindingKind::DepthTexture
            &&& write.depth matches Some(d) && d.write
            &&& write.vertex_buffer && write.cull_back
            &&& read.depth is None && !read.vertex_buffer && !read.cull_back
            &&& read.targets@.len() == 1
        }),
{
    assert(groups_view(read.groups@).len() == 2);
    assert(groups_view(read.groups@)[0] == read.groups@[0]@);
}

/// What `gbuffer_plan` plans draws every actor of the world layer whose model is there,
/// once, under its model and in its own material; see `world_actors_get_one_slot`,
/// `slots_stand_for_world_actors` and `slots_wear_their_materials`.
pub proof fn planned_actors_are_drawn<T, S, M, B>(
    actors: Vec<ActorInfo>,
    assets: AssetManager<T, S, M, B>,
    r: Vec<ModelSlots>,
    i: int,
    k: int,
    s: int,
)
    requires
        call_ensures(gbuffer_plan::<T, S, M, B>, (&actors, &assets), r),
        0 <= i < actors@.len(),
    ensures
        actors@[i].layer == SceneLayer::World && assets.model_mappings@.assets.contains_key(
            actors@[i].model.index,
        ) <==> exists|l: int, t: int|
            0 <= l < r@.len() && 0 <= t < r@[l].slots@.len() && (
            #[trigger] r@[l].slots@[t]).actor == i,
        0 <= k < r@.len() && 0 <= s < r@[k].slots@.len() ==> {
            let slot = r@[k].slots@[s];
            let actor = actors@[slot.actor as int];
            &&& slot.actor < actors@.len()
            &&& actor.model.index == r@[k].model.index
            &&& assets.material_mappings@.assets.contains_key(actor.material.index)
                ==> slot.material == Some(actor.material)
            &&& !assets.material_mappings@.assets.contains_key(actor.material.index)
                ==> slot.material is None
        },
{
    if actors@[i].layer == SceneLayer::World && assets.model_mappings@.assets.contains_key(
        actors@[i].model.index,
    ) {
        world_actors_get_one_slot(r@, actors@, assets, i);
    }
    if exists|l: int, t: int|
        0 <= l < r@.len() && 0 <= t < r@[l].slots@.len() && (#[trigger] r@[l].slots@[t]).actor
            == i {
        let (l, t) = choose|l: int, t: int|
            0 <= l < r@.len() && 0 <= t < r@[l].slots@.len() && (
            #[trigger] r@[l].slots@[t]).actor == i;
        slots_stand_for_world_actors(r@, actors@, assets, l);
    }
    if 0 <= k < r@.len() && 0 <= s < r@[k].slots@.len() {
        slots_stand_for_world_actors(r@, actors@, assets, k);
        slots_wear_their_materials(r@, actors@, assets, k, s);
    }
}

} // verus!
