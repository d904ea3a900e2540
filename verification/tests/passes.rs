use black_splat::assets::{AssetManager, MaterialDesc};
use black_splat::editor::{
    apply_choice, choice_index, choice_label, choice_names, model_label, set_choice_index,
    splat_properties, EditorChoice, GizmoMode, SplatProperty, TransformGizmo,
    GIZMO_ACTIVE_WIDTH, GIZMO_ARROW_WIDTH, GIZMO_HIT_RADIUS, GIZMO_RING_WIDTH,
};
use black_splat::float_bits::{Vec4, ONE};
use black_splat::gpu::{
    blend_alpha, blend_hole, blend_light, blend_replace, BindingKind, BlendFactor, BlendOperation,
    Stage, TargetFormat,
};
use black_splat::handles::{MaterialHandle, ModelHandle, Named};
use black_splat::passes::ambient::{
    ambient_pipeline, flag_bits, gi_factor, pick_env, AmbientSettings, LightInfo,
};
use black_splat::passes::deferred::{
    clamp_spot_angle, gbuffer_pipeline, gbuffer_plan, light_draws, light_shader, lighting_pipeline,
    ActorInfo, LightType, SceneLayer, MAX_LIGHTS,
};
use black_splat::passes::gaussian_splat::SplatParams;
use black_splat::passes::splat_composite::{
    composite_pipeline, tonemap_uniform, PostProcessSettings,
};
use black_splat::render_groups::bullet_hole::BulletHoleRenderGroup;
use black_splat::render_groups::kb_gaussian_splat_group::{
    depth_order, load_splat_ply, KbGaussianSplatRenderGroup, KbPlyProblem, KbSplatParams,
};
use black_splat::render_groups::kb_ui_group::{
    quad_corners, ui_pipeline, ui_quads, vertex_count, KbUiButton, BORDER_PX, MAX_UI_QUADS,
};

fn b(v: f32) -> u32 {
    v.to_bits()
}

fn f(bits: u32) -> f32 {
    f32::from_bits(bits)
}

#[test]
fn pipelines_bind_what_their_shaders_read() {
    let g = gbuffer_pipeline();
    assert_eq!((g.groups.len(), g.groups[0].len(), g.groups[1].len()), (2, 3, 1));
    assert!(g.groups[0][1].kind == BindingKind::Sampler && g.groups[0][1].binding == 1);
    assert!(g.vertex_buffer && g.cull_back && g.depth.is_some_and(|d| d.write));
    assert!(g.targets[1].format == TargetFormat::GBufferNormal);
    assert!(g.targets[2].blend == Some(blend_replace()));
    let l = lighting_pipeline();
    assert!(l.groups[0][3].kind == BindingKind::DepthTexture);
    assert!(!l.vertex_buffer && l.targets[0].blend == Some(blend_light()));
    let a = ambient_pipeline();
    assert!(a.groups[1][1].kind == BindingKind::CubeTexture);
    assert!(a.targets[0].format == TargetFormat::Occlusion && a.targets[0].blend.is_none());
    let c = composite_pipeline();
    assert!(c.groups[1][0].stage == Stage::Fragment && c.targets[0].blend == Some(blend_alpha()));
    assert!(c.depth.is_none());
    let u = ui_pipeline();
    assert!(u.groups.is_empty() && u.targets[0].format == TargetFormat::Surface);
    let k = KbGaussianSplatRenderGroup::pipeline();
    assert!(k.depth.is_none() && k.groups[1].len() == 2);
}

#[test]
fn blends_combine_as_named() {
    let hole = blend_hole();
    assert!(hole.color.src == BlendFactor::Dst && hole.color.dst == BlendFactor::Zero);
    assert!(hole.alpha.operation == BlendOperation::Min);
    assert!(blend_alpha().color.src == BlendFactor::SrcAlpha);
    assert!(blend_alpha().alpha.src == BlendFactor::One);
    assert!(blend_light().color.dst == BlendFactor::One);
    assert!(blend_light().alpha.dst == BlendFactor::Zero);
}

#[test]
fn decals_show_both_sides() {
    assert!(BulletHoleRenderGroup::pipeline("/shaders/bullet_hole.wgsl").cull_back);
    let decal = BulletHoleRenderGroup::pipeline("/shaders/decal.wgsl");
    assert!(!decal.cull_back);
    assert!(decal.groups[0][0].stage == Stage::VertexFragment);
    assert!(decal.groups[0][2].kind == BindingKind::Sampler);
    let mut group = BulletHoleRenderGroup::new();
    assert!(group.begin());
    assert!(!group.begin());
}

#[test]
fn actors_are_grouped_by_model() {
    let mut assets: AssetManager<u8, u8, u8, u8> = AssetManager::new(Vec::new(), Vec::new());
    let first = assets.load_model("first", 1);
    let second = assets.load_model("second", 2);
    let mut desc = MaterialDesc::default();
    desc.color_constant = Vec4 { x: 7, y: 7, z: 7, w: 7 };
    let material = assets.create_material("m", &desc, &|| 0u8, &|_: &u8, _: &u8| 0u8);
    let none = MaterialHandle::make_invalid();
    let a = |layer, model, material| ActorInfo { layer, model, material };
    let plan = gbuffer_plan(
        &vec![
            a(SceneLayer::World, second, none),
            a(SceneLayer::Foreground, first, none),
            a(SceneLayer::World, first, material),
            a(SceneLayer::World, ModelHandle::make_invalid(), material),
            a(SceneLayer::World, second, material),
        ],
        &assets,
    );
    assert_eq!(plan.len(), 2);
    assert_eq!((plan[0].model, plan[1].model), (second, first));
    let actors: Vec<_> = plan[0].slots.iter().map(|s| s.actor).collect();
    assert_eq!(actors, vec![0, 4]);
    let plain = plan[0].slots[0];
    assert!(plain.material.is_none());
    assert_eq!(plain.color_constant, Vec4 { x: ONE, y: ONE, z: ONE, w: ONE });
    assert_eq!(plain.mr_constant, Vec4 { x: 0, y: 0, z: 0, w: 0 });
    assert_eq!(plan[1].slots[0].material, Some(material));
    assert_eq!(plan[1].slots[0].color_constant.x, 7);
    assert_eq!(f(plan[1].slots[0].mr_constant.y), 0.85);
}

#[test]
fn lights_beyond_the_limit_are_ignored() {
    let lights = vec![LightType::Point; 40];
    let draws = light_draws(&lights);
    assert_eq!(draws.len(), MAX_LIGHTS);
    assert!(draws[31] == (31, LightType::Point));
    assert_eq!(light_draws(&vec![LightType::Spot]).len(), 1);
    assert_eq!(
        light_shader(LightType::Directional),
        "/engine_assets/shaders/light_directional.wgsl"
    );
    assert_eq!(light_shader(LightType::Skylight), "/engine_assets/shaders/light_skylight.wgsl");
    assert_eq!(light_shader(LightType::Point), "/engine_assets/shaders/light_point.wgsl");
    assert_eq!(light_shader(LightType::Spot), "/engine_assets/shaders/light_spot.wgsl");
    assert_eq!(f(clamp_spot_angle(b(0.0))), 0.5);
    assert_eq!(f(clamp_spot_angle(b(120.0))), 89.0);
    assert_eq!(f(clamp_spot_angle(b(45.0))), 45.0);
}

#[test]
fn the_lowest_baked_skylight_feeds_the_rays() {
    let l = |id, kind, baked| LightInfo { id, kind, baked };
    let lights = vec![
        l(9, LightType::Skylight, true),
        l(1, LightType::Skylight, false),
        l(2, LightType::Point, true),
        l(4, LightType::Skylight, true),
    ];
    assert_eq!(pick_env(&lights), Some(4));
    assert_eq!(pick_env(&vec![l(2, LightType::Point, true)]), None);
    let mut settings = AmbientSettings::default();
    assert!(settings.ssao_enabled && settings.ssgi_enabled);
    assert_eq!(f(gi_factor(&settings)), 1.0);
    settings.gi_intensity = b(-2.0);
    assert_eq!(f(gi_factor(&settings)), 0.0);
    assert_eq!((f(flag_bits(true)), f(flag_bits(false))), (1.0, 0.0));
}

#[test]
fn the_tone_curve_is_packed_for_the_shader() {
    let mut s = PostProcessSettings {
        highlight_scale: 1,
        midtone_scale: 2,
        highlight_curve: 3,
        midtone_curve: 4,
        shadow_offset: 5,
        exposure: 6,
        tonemap_enabled: true,
    };
    assert_eq!(tonemap_uniform(&s), ([1, 2, 3, 4], [5, 6, ONE, 0]));
    s.tonemap_enabled = false;
    assert_eq!(tonemap_uniform(&s).1, [5, 6, 0, 0]);
}

fn button() -> KbUiButton {
    KbUiButton {
        label: "go".to_string(),
        rect: [0; 4],
        background: [0; 4],
        border: [0; 4],
        text_color: [0; 4],
    }
}

#[test]
fn buttons_get_a_border_and_a_background() {
    let quads = ui_quads(&vec![button(), button()]);
    let list: Vec<_> = quads.iter().map(|q| (q.button, q.inset)).collect();
    assert_eq!(list, vec![(0, false), (0, true), (1, false), (1, true)]);
    assert_eq!(vertex_count(&quads), 24);
    let many: Vec<KbUiButton> = (0..40).map(|_| button()).collect();
    let quads = ui_quads(&many);
    assert_eq!(quads.len(), MAX_UI_QUADS);
    assert!(quads[63].inset && quads[63].button == 31);
    assert_eq!(f(BORDER_PX), 2.0);
    assert_eq!(quad_corners()[1], (false, true));
    assert_eq!(quad_corners()[5], (true, false));
}

#[test]
fn splats_are_ordered_by_depth() {
    let depths = vec![b(1.0), b(-3.0), b(0.5), b(-0.0), b(0.0)];
    assert_eq!(depth_order(&depths), vec![1, 3, 4, 2, 0]);
    assert!(depth_order(&Vec::new()).is_empty());
    let mut expected: Vec<u32> = (0..5).collect();
    expected.sort_by(|i, j| f(depths[*i as usize]).total_cmp(&f(depths[*j as usize])));
    assert_eq!(depth_order(&depths), expected);
    let nan = vec![f32::NAN.to_bits(), b(f32::INFINITY), (-f32::NAN).to_bits()];
    assert_eq!(depth_order(&nan), vec![2, 1, 0]);
}

fn kb_ply(n: usize) -> Vec<u8> {
    let mut header = format!("ply\nelement vertex {n}\n");
    for p in ["x", "y", "z", "rot_0", "rot_1", "rot_2", "rot_3", "f_rest_15"] {
        header.push_str(&format!("property float {p}\n"));
    }
    header.push_str("end_header\n");
    let mut bytes = header.into_bytes();
    for i in 0..8 * n {
        bytes.extend_from_slice(&(i as f32 + 1.0).to_le_bytes());
    }
    bytes
}

#[test]
fn clouds_for_the_processor_flip_y() {
    let list = load_splat_ply(&kb_ply(2)).ok().unwrap();
    assert_eq!(list.len(), 2);
    assert_eq!(list[0].position.map(f), [1.0, -2.0, 3.0, 0.0]);
    assert_eq!(list[0].rotation.map(f), [-5.0, 6.0, -7.0, 4.0]);
    assert_eq!(list[0].sh_rest.map(f)[0..3], [0.0, 8.0, 0.0]);
    assert_eq!(list[0].scale_opacity, [0; 4]);
    assert_eq!(list[1].position.map(f), [9.0, -10.0, 11.0, 0.0]);
    assert!(load_splat_ply(b"ply").err() == Some(KbPlyProblem::NoHeaderEnd));
    assert!(load_splat_ply(b"\xffend_header\n").err() == Some(KbPlyProblem::HeaderNotText));
    assert!(load_splat_ply(&kb_ply(0)).err() == Some(KbPlyProblem::NoVertices));
    let cut = b"element vertex 1\nproperty float x\nend_header";
    assert!(load_splat_ply(cut).err() == Some(KbPlyProblem::Truncated));
}

#[test]
fn a_cloud_is_drawn_far_to_near() {
    let mut group = KbGaussianSplatRenderGroup::new();
    assert!(!group.has_model());
    assert_eq!(group.render(&Vec::new()), None);
    group.load(load_splat_ply(&kb_ply(3)).ok().unwrap());
    assert!(group.has_model());
    assert_eq!(group.model.as_ref().unwrap().sort_indices, vec![0, 1, 2]);
    assert_eq!(group.render(&vec![b(3.0), b(1.0), b(2.0)]), Some(18));
    let model = group.model.as_ref().unwrap();
    assert_eq!(model.sort_indices, vec![1, 2, 0]);
    assert_eq!(f(model.positions[1].y), -10.0);
    let params = KbSplatParams::default();
    assert_eq!(f(params.falloff), 8.0);
    group.set_params(&KbSplatParams { scale: 3, ..params });
    assert_eq!(group.params.scale, 3);
    group.load(Vec::new());
    assert_eq!(group.render(&Vec::new()), None);
}

#[test]
fn properties_are_edited_one_at_a_time() {
    let mut params = SplatParams::default();
    for (i, (p, _)) in splat_properties().iter().enumerate() {
        params.set_property(*p, 100 + i as u32);
    }
    let list = splat_properties();
    assert_eq!(list[3].1, "Overall Scale");
    for (i, (p, _)) in list.iter().enumerate() {
        assert_eq!(params.property(*p), 100 + i as u32);
    }
    params.set_property(SplatProperty::Scale, 7);
    assert_eq!((params.scale, params.falloff, params.contrast), (7, 100, 102));
}

struct Fruit(usize);

impl EditorChoice for Fruit {
    const NAMES: &'static [&'static str] = &["apple", "pear"];

    fn choice_index(&self) -> usize {
        self.0
    }

    fn from_choice_index(index: usize) -> Self {
        Fruit(index)
    }
}

#[test]
fn choices_are_made_by_number() {
    let mut fruit = Fruit(0);
    assert_eq!(choice_names(&fruit), ["apple", "pear"]);
    for i in [1, 0] {
        set_choice_index(&mut fruit, i);
        assert_eq!(choice_index(&fruit), i);
        assert_eq!(choice_names(&fruit), ["apple", "pear"]);
    }
    assert!(!apply_choice(&mut fruit, None));
    assert_eq!(choice_index(&fruit), 0);
    assert!(apply_choice(&mut fruit, Some(1)));
    assert_eq!(choice_label(choice_names(&fruit), choice_index(&fruit)), "pear");
    set_choice_index(&mut fruit, 5);
    assert_eq!(choice_label(choice_names(&fruit), choice_index(&fruit)), "?");
    let resources = vec![
        Named { name: "a.glb".to_string(), value: 3 },
        Named { name: "b.glb".to_string(), value: 3 },
    ];
    assert_eq!(model_label(&resources, &ModelHandle { index: 3 }), "a.glb");
    assert_eq!(model_label(&resources, &ModelHandle { index: 4 }), "(none)");
}

#[test]
fn gizmo_handles_are_grabbed_and_let_go() {
    let mut gizmo = TransformGizmo::default();
    assert!(gizmo.mode == GizmoMode::Translate && gizmo.drag_axis.is_none());
    assert_eq!(f(GIZMO_HIT_RADIUS), 12.0);
    assert_eq!((f(GIZMO_ACTIVE_WIDTH), f(GIZMO_ARROW_WIDTH), f(GIZMO_RING_WIDTH)), (4.0, 2.5, 2.0));
    assert!(TransformGizmo::can_grab(true, false) && !TransformGizmo::can_grab(true, true));
    assert!(gizmo.begin(true, true));
    let far = gizmo.handle(0, true, Some(b(12.0)), true, true).unwrap();
    assert!(!far.active && !far.drag && far.width == GIZMO_ARROW_WIDTH);
    let near = gizmo.handle(1, true, Some(b(11.9)), true, true).unwrap();
    assert!(near.active && near.drag && near.width == GIZMO_ACTIVE_WIDTH);
    assert!(gizmo.handle(2, false, Some(b(0.0)), true, true).is_none());
    assert_eq!(gizmo.drag_axis, Some(1));
    assert!(gizmo.handle(1, true, None, false, true).unwrap().drag);
    assert!(gizmo.begin(true, false));
    assert!(gizmo.drag_axis.is_none());
    gizmo.mode = GizmoMode::Rotate;
    gizmo.drag_axis = Some(2);
    assert!(!gizmo.begin(false, true));
    assert!(gizmo.drag_axis.is_none());
    assert_eq!(gizmo.handle(0, true, None, true, true).unwrap().width, GIZMO_RING_WIDTH);
    assert_eq!(TransformGizmo::ring_axes(2), (0, 1));
}
