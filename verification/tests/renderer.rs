use black_splat::float_bits::{Vec3, Vec4, ONE};
use black_splat::handles::{AssetMappings, TextureHandle};
use black_splat::kb_config::PostProcessMode;
use black_splat::passes::deferred::SceneLayer;
use black_splat::passes::gaussian_splat::{SplatParams, MAX_SPLATS};
use black_splat::passes::splat_composite::PostProcessSettings;
use black_splat::renderer::{
    get_sorted_render_objects, EguiTextures, FrameInput, FrameStep, Line, Renderer, ResizeStep,
    SpriteInfo, SpriteKind, TextPart, FRAMES_PER_MEASUREMENT, MAX_FRAME_TIMES,
};

type Plain = Renderer<&'static str, &'static str, u32>;

fn settings() -> PostProcessSettings {
    PostProcessSettings {
        highlight_scale: 1,
        midtone_scale: 2,
        highlight_curve: 3,
        midtone_curve: 4,
        shadow_offset: 5,
        exposure: 6,
        tonemap_enabled: true,
    }
}

fn renderer(deferred: bool) -> Plain {
    Renderer::new(deferred, settings())
}

fn frame(available: bool) -> FrameInput {
    FrameInput {
        available,
        sky_sprites: false,
        cloud_sprites: false,
        game_sprites: false,
        sunbeams: false,
    }
}

fn zero() -> Vec3 {
    Vec3 { x: 0, y: 0, z: 0 }
}

fn b(v: f32) -> u32 {
    v.to_bits()
}

fn cloud() -> Vec<u8> {
    let mut header = String::from("ply\nformat binary_little_endian 1.0\nelement vertex 1\n");
    for p in ["x", "y", "z", "scale_0", "rot_0", "opacity", "f_dc_0"] {
        header.push_str(&format!("property float {p}\n"));
    }
    header.push_str("end_header\n");
    let mut bytes = header.into_bytes();
    bytes.extend_from_slice(&[0; 28]);
    bytes
}

#[test]
fn an_empty_frame_has_the_passes_that_always_run() {
    let mut r = renderer(true);
    let steps = r.render_frame(frame(true));
    assert!(
        steps
            == [
                FrameStep::WorldOpaque,
                FrameStep::WorldHoles,
                FrameStep::Lines,
                FrameStep::Postprocess,
                FrameStep::DebugText,
                FrameStep::Present,
            ]
    );
}

#[test]
fn a_full_frame_runs_every_pass_in_order() {
    let mut r = renderer(true);
    r.set_deferred_world_enabled(true);
    r.add_or_update_actor(3, "crate");
    r.add_particle_actor(&zero(), &zero(), 0, true);
    r.add_bullet_hole(3, &zero(), &zero());
    assert_eq!(r.add_custom_pass(&SceneLayer::WorldCustom), 0);
    assert_eq!(r.add_custom_pass(&SceneLayer::WorldCustom), 1);
    assert_eq!(r.add_custom_pass(&SceneLayer::ForegroundCustom), 0);
    assert_eq!(r.add_sprite_pass(), 1);
    assert!(r.ensure_gaussian_splat_pipeline());
    let params = SplatParams::default();
    assert!(r.load_gaussian_splat_from_bytes(&cloud(), "c", &params, MAX_SPLATS, 256).is_ok());
    assert!(!r.begin_egui_pass());
    let steps = r.render_frame(FrameInput {
        available: true,
        sky_sprites: true,
        cloud_sprites: true,
        game_sprites: true,
        sunbeams: true,
    });
    assert!(
        steps
            == [
                FrameStep::BulletHole(3),
                FrameStep::WorldGBuffer,
                FrameStep::DeferredLighting,
                FrameStep::WorldHoles,
                FrameStep::WorldCustom(0),
                FrameStep::WorldCustom(1),
                FrameStep::Splats,
                FrameStep::SplatComposite,
                FrameStep::ShadowCatcher,
                FrameStep::Lines,
                FrameStep::ParticlesAlpha,
                FrameStep::ParticlesAdditive,
                FrameStep::Sunbeam,
                FrameStep::ForegroundOpaque,
                FrameStep::ForegroundCustom(0),
                FrameStep::SkySprites,
                FrameStep::CloudSprites,
                FrameStep::GameSprites,
                FrameStep::CustomSprites(0),
                FrameStep::Postprocess,
                FrameStep::DebugText,
                FrameStep::Egui,
                FrameStep::Present,
            ]
    );
    // The hole is drawn once, and the interface was ended.
    let steps = r.render_frame(frame(true));
    assert!(steps[0] == FrameStep::WorldGBuffer);
    assert!(!steps.contains(&FrameStep::Egui));
}

#[test]
fn a_skipped_frame_only_retires_the_interface() {
    let mut r = renderer(false);
    r.add_or_update_actor(1, "a");
    r.add_bullet_hole(1, &zero(), &zero());
    r.begin_egui_pass();
    assert!(r.begin_egui_pass());
    assert!(r.render_frame(frame(false)) == [FrameStep::DiscardEgui]);
    assert!(r.render_frame(frame(false)).is_empty());
    assert!(!r.begin_egui_pass());
    assert_eq!(r.bullet_hole_actor_index, Some(1));
}

#[test]
fn a_basic_backend_never_runs_the_deferred_passes() {
    let mut r = renderer(false);
    r.set_deferred_world_enabled(true);
    assert!(r.render_frame(frame(true))[0] == FrameStep::WorldOpaque);
    assert!(r.resize() == [ResizeStep::Device, ResizeStep::Postprocess, ResizeStep::Sunbeam]);
    let mut r = renderer(true);
    r.ensure_gaussian_splat_pipeline();
    assert!(
        r.resize()
            == [
                ResizeStep::Device,
                ResizeStep::Postprocess,
                ResizeStep::Shadow,
                ResizeStep::Lighting,
                ResizeStep::Sunbeam,
                ResizeStep::SplatComposite,
            ]
    );
}

#[test]
fn debug_text_depends_on_the_help() {
    let mut r = renderer(false);
    let measure = |_: u32| 0;
    r.set_hud_msg("hud");
    r.set_debug_game_msg("game");
    let (text, parts) = r.render_debug_text("60", "16.67", "Vulkan", "card", &measure).unwrap();
    assert_eq!(text, "Press [H] for help.  Press [Space] to cycle scenes\n\nFPS: 60\n\n hud");
    assert!(parts == [TextPart::Main]);
    r.enable_help_text();
    r.set_debug_topright_msg("corner");
    r.set_status_msg("broken", &Vec4 { x: 1, y: 2, z: 3, w: 4 });
    let (text, parts) = r.render_debug_text("60", "16.67", "Vulkan", "card", &measure).unwrap();
    assert_eq!(
        text,
        "Press [H] to hide help\ngame\nFPS: 60 \nFrame time: 16.67 ms\nBack End: Vulkan\nGraphics: card\n\nhud\n"
    );
    assert!(parts == [TextPart::Main, TextPart::TopRight, TextPart::Status]);
    r.set_show_help_hint(false);
    r.enable_help_text();
    r.set_allow_debug_text(false);
    let (text, parts) = r.render_debug_text("60", "16.67", "Vulkan", "card", &measure).unwrap();
    assert_eq!(text, "FPS: 60\n\n hud");
    assert!(parts == [TextPart::Status]);
    r.set_status_msg("", &Vec4 { x: 1, y: 2, z: 3, w: 4 });
    assert!(r.render_debug_text("60", "16.67", "Vulkan", "card", &measure).is_none());
}

#[test]
fn frame_times_are_measured_every_seventeen_frames() {
    let mut r = renderer(false);
    for round in 0..20u32 {
        for n in 0..FRAMES_PER_MEASUREMENT {
            assert_eq!(r.frame_count, n);
            r.render_debug_text("", "", "", "", &|frames: u32| 1000 * frames + round);
        }
        assert_eq!(*r.frame_times.last().unwrap(), 17000 + round);
    }
    assert_eq!(r.frame_times.len(), MAX_FRAME_TIMES);
    assert_eq!(r.frame_times[0], 17009);
}

#[test]
fn a_frame_that_is_not_drawn_keeps_the_hole() {
    let mut r = renderer(false);
    r.bullet_hole_actor_index = Some(7);
    assert!(r.render_frame(frame(false)).is_empty());
    assert_eq!(r.bullet_hole_actor_index, Some(7));
    r.add_or_update_actor(7, "wall");
    assert!(r.render_frame(frame(true))[0] == FrameStep::BulletHole(7));
    assert_eq!(r.bullet_hole_actor_index, None);
}

#[test]
fn lines_disappear_when_their_time_is_over() {
    let mut r = renderer(false);
    let line = |end: f32| Line {
        start: zero(),
        end: zero(),
        color: Vec4 { x: 0, y: 0, z: 0, w: 0 },
        thickness: 0,
        end_time: b(end),
    };
    for t in [1.0, 3.0, 2.0] {
        r.add_line(line(t));
    }
    r.finish_frame(false, b(9.0));
    assert_eq!(r.debug_lines.len(), 3);
    r.finish_frame(true, b(0.5));
    assert!(r.debug_lines[..] == [line(1.0), line(3.0), line(2.0)]);
    r.finish_frame(true, b(2.0));
    assert_eq!(r.debug_lines.len(), 1);
    assert!(r.debug_lines[0] == line(3.0));
}

#[test]
fn actors_and_lights_are_kept_by_number() {
    let mut r = renderer(false);
    r.add_or_update_actor(1, "a");
    r.add_or_update_actor(1, "b");
    r.add_or_update_light(2, "sun");
    r.add_or_update_light(3, "lamp");
    assert_eq!(r.actor_map.get(&1), Some(&"b"));
    r.remove_actor(1);
    r.remove_actor(9);
    r.remove_light(2);
    assert_eq!((r.actor_map.len(), r.light_map.len()), (0, 1));
    r.clear_lights();
    assert!(r.light_map.is_empty());
}

#[test]
fn particles_get_handles_and_run_while_active() {
    let mut r = renderer(false);
    let a = r.add_particle_actor(&zero(), &zero(), 10, true);
    let c = r.add_particle_actor(&zero(), &zero(), 20, false);
    assert_eq!((a, c), (0, 1));
    assert_eq!(r.update_particles(), vec![0]);
    assert_eq!(r.num_active_particles(), 1);
    r.enable_particle_actor(1, true);
    let mut running = r.update_particles();
    running.sort();
    assert_eq!(running, vec![0, 1]);
    let here = Vec3 { x: 1, y: 2, z: 3 };
    r.update_particle_transform(1, &here, &None);
    assert_eq!((r.particle_map[&1].position, r.particle_map[&1].scale), (here, zero()));
    r.update_particle_transform(1, &zero(), &Some(here));
    assert_eq!((r.particle_map[&1].position, r.particle_map[&1].scale), (zero(), here));
    r.update_particle_params(1, 21);
    r.update_particle_params(8, 99);
    assert_eq!((r.particle_map[&1].params, r.particle_map.len()), (21, 2));
    r.remove_particle_actor(0);
    assert_eq!(r.update_particles(), vec![1]);
    r.next_particle_id = u32::MAX - 1;
    assert_eq!(r.add_particle_actor(&zero(), &zero(), 0, true), u32::MAX);
    assert_eq!(r.add_particle_actor(&zero(), &zero(), 0, true), 0);
}

#[test]
fn splats_need_their_pass() {
    let mut r = renderer(true);
    let params = SplatParams { falloff: 3, ..SplatParams::default() };
    let e = r.load_gaussian_splat_from_bytes(&cloud(), "c", &params, MAX_SPLATS, 256).err();
    assert_eq!(e.unwrap(), "splat renderer not initialized");
    assert_eq!((r.num_gaussian_splats(), r.active_gaussian_splat_count()), (0, 0));
    r.set_active_gaussian_splat(0);
    r.remove_gaussian_splat(0);
    r.clear_gaussian_splats();
    r.set_gaussian_splat_params(&params);
    assert!(r.ensure_gaussian_splat_pipeline());
    assert!(!r.ensure_gaussian_splat_pipeline());
    let pass = r.gaussian_splat_pass.as_ref().unwrap();
    assert_eq!((pass.active_model, pass.models.len()), (0, 0));
    assert_eq!((pass.params.falloff, pass.params.max_sh_degree), (b(8.0), 0));
    let e = r.load_gaussian_splat_from_bytes(b"", "c", &params, MAX_SPLATS, 256).err();
    assert_eq!(e.unwrap(), "not a .ply file (no end_header)");
    assert_eq!(r.gaussian_splat_pass.as_ref().unwrap().params.falloff, 3);
    let info = r.load_gaussian_splat_from_bytes(&cloud(), "c", &params, MAX_SPLATS, 256);
    assert_eq!(info.ok().unwrap().num_splats, 1);
    let model = r.gaussian_splat_pass.as_ref().unwrap().models.last().unwrap();
    assert_eq!((model.num_splats, model.pass_stride), (1, 256));
    r.load_gaussian_splat_from_bytes(&cloud(), "c", &params, MAX_SPLATS, 256).ok().unwrap();
    assert_eq!((r.num_gaussian_splats(), r.active_gaussian_splat_count()), (2, 1));
    r.set_active_gaussian_splat(1);
    r.remove_gaussian_splat(0);
    assert_eq!(r.gaussian_splat_pass.as_ref().unwrap().active_model, 0);
    r.set_gaussian_splat_params(&SplatParams::default());
    assert_eq!(r.gaussian_splat_pass.as_ref().unwrap().params.falloff, b(8.0));
    r.clear_gaussian_splats();
    assert_eq!(r.num_gaussian_splats(), 0);
    assert!(!r.render_frame(frame(true)).contains(&FrameStep::Splats));
}

#[test]
fn settings_are_kept_as_given() {
    let mut r = renderer(false);
    assert_eq!(r.status_msg_color, Vec4 { x: ONE, y: b(0.25), z: b(0.2), w: ONE });
    assert_eq!(r.debug_msg_color, Vec4 { x: 0, y: ONE, z: 0, w: ONE });
    assert_eq!(r.debug_text_top_offset, b(10.0));
    r.set_debug_font_color(&Vec4 { x: 1, y: 1, z: 1, w: 1 });
    r.set_debug_text_top_offset(5);
    r.set_postprocess_mode(&PostProcessMode::Effect(2));
    r.set_tonemap_enabled(false);
    assert!(r.post_process_settings() == PostProcessSettings { tonemap_enabled: false, ..settings() });
    r.set_post_process_settings(&settings());
    assert!(r.post_process_settings() == settings());
    assert!(r.postprocess_mode == PostProcessMode::Effect(2));
    assert_eq!((r.debug_msg_color.x, r.debug_text_top_offset), (1, 5));
}

#[test]
fn sprites_are_split_and_sorted() {
    let s = |kind, z: f32| SpriteInfo { kind, z: b(z) };
    let sprites = vec![
        s(SpriteKind::Game, 2.0),
        s(SpriteKind::Skybox, 1.0),
        s(SpriteKind::Game, -1.0),
        s(SpriteKind::Cloud, 5.0),
        s(SpriteKind::Game, 2.0),
        s(SpriteKind::Cloud, -5.0),
        s(SpriteKind::Game, 0.0),
        s(SpriteKind::Game, -0.0),
    ];
    let (game, sky, cloud) = get_sorted_render_objects(&sprites);
    assert_eq!(game, vec![2, 6, 7, 0, 4]);
    assert_eq!(sky, vec![1]);
    assert_eq!(cloud, vec![5, 3]);
}

#[test]
fn pictures_are_registered_once() {
    let mut textures: AssetMappings<&'static str> = AssetMappings::new();
    let index = textures.store("leaf");
    let mut ids: EguiTextures<usize> = EguiTextures::new();
    let handle = TextureHandle { index };
    let length = |t: &&'static str| t.len();
    assert_eq!(ids.egui_texture_id(&handle, &textures, &length), Some(4));
    let other = |_: &&'static str| 9;
    assert_eq!(ids.egui_texture_id(&handle, &textures, &other), Some(4));
    let stale = TextureHandle { index: 77 };
    assert_eq!(ids.egui_texture_id(&stale, &textures, &length), None);
}
