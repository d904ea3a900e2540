use black_splat::float_bits::{Vec3, Vec4};
use black_splat::kb_config::{
    choose_backend, choose_power, clamp_scale, ConfigValues, GraphicsBackend, KbConfig, PostProcessMode,
    PowerPreference,
};

fn f(bits: u32) -> f32 {
    f32::from_bits(bits)
}

fn vec4(v: Vec4) -> [f32; 4] {
    [f(v.x), f(v.y), f(v.z), f(v.w)]
}

fn vec3(v: Vec3) -> [f32; 3] {
    [f(v.x), f(v.y), f(v.z)]
}

#[test]
fn missing_settings_take_their_defaults() {
    let c = KbConfig::try_new("{}", false).unwrap();
    assert_eq!((f(c.enemy_spawn_delay), f(c.enemy_move_speed)), (1.0, 0.01));
    assert_eq!((c.max_render_instances, c.window_width, c.window_height), (10000, 1280, 720));
    assert_eq!((f(c.render_scale), f(c.fov), f(c.foreground_fov)), (1.0, 75.0, 50.0));
    assert!(c.graphics_backend == GraphicsBackend::Primary);
    assert!(c.graphics_power_pref == PowerPreference::Unspecified);
    assert!(c.vsync && !c.sunbeams_enabled && !c.bullet_holes);
    assert!(c.postprocess_mode == PostProcessMode::Passthrough);
    assert_eq!(vec4(c.clear_color), [0.0; 4]);
    assert_eq!(vec4(c.sun_color), [1.0; 4]);
    assert_eq!(vec4(c.sun_beam_pos_scale), [500.0, 550.0, 500.0, 1550.0]);
    assert_eq!(vec3(c.start_position), [0.0; 3]);
    assert_eq!((c.delta_time, c.last_frame_time), (0, 0));
}

#[test]
fn settings_are_read_from_the_file() {
    let text = r#"{
        "enemy_spawn_delay": 0.3, "enemy_move_speed": 2.5, "max_instances": 2000,
        "window_width": 1920, "window_height": 1080, "render_scale": 0.5,
        "graphics_back_end": "vulkan", "graphics_power_pref": "high", "vsync": false,
        "sunbeams": true, "bullet_holes": true,
        "sun_beam_pos_scale": [9.0, 1.0, 2.0, 3.0, 4.0],
        "start_position": [1.5, "no number"], "start_rotation": [1, 2, 3]
    }"#;
    let c = KbConfig::try_new(text, false).unwrap();
    assert_eq!((f(c.enemy_spawn_delay), f(c.enemy_move_speed)), (0.3, 2.5));
    assert_eq!((c.max_render_instances, c.window_width, c.window_height), (2000, 1920, 1080));
    assert_eq!(f(c.render_scale), 0.5);
    assert!(c.graphics_backend == GraphicsBackend::Vulkan);
    assert!(c.graphics_power_pref == PowerPreference::HighPerformance);
    assert!(!c.vsync && c.sunbeams_enabled && c.bullet_holes);
    assert_eq!(vec4(c.sun_beam_pos_scale), [4.0, 3.0, 2.0, 1.0]);
    assert_eq!(vec3(c.start_position), [1.5, 0.0, 0.0]);
    assert_eq!(vec3(c.start_rotation), [1.0, 2.0, 3.0]);
    let same = KbConfig::new(text, false);
    assert_eq!(same.window_width, c.window_width);
}

#[test]
fn values_of_another_type_count_as_missing() {
    let text = r#"{ "window_width": "wide", "window_height": -4, "max_instances": 1.5,
        "vsync": 1, "render_scale": [], "start_position": 7, "sun_beam_pos_scale": {} }"#;
    let c = KbConfig::try_new(text, false).unwrap();
    assert_eq!((c.window_width, c.window_height, c.max_render_instances), (1280, 720, 10000));
    assert!(c.vsync);
    assert_eq!(f(c.render_scale), 1.0);
    assert_eq!(vec3(c.start_position), [0.0; 3]);
    assert_eq!(vec4(c.sun_beam_pos_scale), [500.0, 550.0, 500.0, 1550.0]);
}

#[test]
fn unreadable_files_are_refused() {
    assert!(KbConfig::try_new("", false).is_none());
    assert!(KbConfig::try_new("{ \"vsync\": }", false).is_none());
    assert!(KbConfig::try_new(r#"{ "sun_beam_pos_scale": [1, 2, 3] }"#, false).is_none());
    assert!(KbConfig::try_new(r#"{ "sun_beam_pos_scale": [1, "2", 3, 4] }"#, false).is_none());
    // A document that is no object has no members.
    assert_eq!(KbConfig::try_new("[1]", false).unwrap().window_width, 1280);
}

#[test]
fn backends_are_chosen_by_name_and_platform() {
    for (name, backend) in [
        (Some("dx12"), GraphicsBackend::Dx12),
        (Some("vulkan"), GraphicsBackend::Vulkan),
        (Some("gl"), GraphicsBackend::Gl),
        (Some("webgpu"), GraphicsBackend::Primary),
        (Some("default"), GraphicsBackend::All),
        (None, GraphicsBackend::Primary),
    ] {
        assert!(choose_backend(name, false) == backend);
    }
    assert!(choose_backend(Some("webgpu"), true) == GraphicsBackend::BrowserWebGpu);
    assert!(choose_backend(Some("vulkan"), true) == GraphicsBackend::Gl);
    assert!(choose_backend(None, true) == GraphicsBackend::Gl);
    assert!(choose_power(Some("high")) == PowerPreference::HighPerformance);
    assert!(choose_power(Some("low")) == PowerPreference::LowPower);
    assert!(choose_power(Some("default")) == PowerPreference::Unspecified);
    assert!(choose_power(None) == PowerPreference::Unspecified);
}

#[test]
fn the_render_scale_is_clamped() {
    for (given, used) in [(0.0f32, 0.1f32), (-3.0, 0.1), (0.25, 0.25), (1.0, 1.0), (7.0, 1.0)] {
        assert_eq!(clamp_scale(given.to_bits()), used.to_bits());
    }
    assert!(f(clamp_scale(f32::NAN.to_bits())).is_nan());
    let c = KbConfig::try_new(r#"{ "render_scale": 0.001 }"#, false).unwrap();
    assert_eq!(f(c.render_scale), 0.1);
    assert_eq!(KbConfig::render_resolution(0, 7), (1, 7));
    assert_eq!(KbConfig::render_resolution(640, 0), (640, 1));
}

fn nothing() -> ConfigValues {
    ConfigValues {
        enemy_spawn_delay: None,
        enemy_move_speed: None,
        max_instances: None,
        window_width: None,
        window_height: None,
        render_scale: None,
        graphics_back_end: None,
        graphics_power_pref: None,
        vsync: None,
        sunbeams: None,
        sun_beam_pos_scale: None,
        bullet_holes: None,
        start_position: None,
        start_rotation: None,
    }
}

#[test]
fn values_make_a_configuration() {
    let c = KbConfig::from_values(&nothing(), false).unwrap();
    assert_eq!((c.window_width, f(c.render_scale), c.vsync), (1280, 1.0, true));
    let n = |v: f32| Some(v.to_bits());
    let values = ConfigValues {
        window_width: Some(5),
        render_scale: n(7.0),
        graphics_back_end: Some("gl".to_string()),
        vsync: Some(false),
        sun_beam_pos_scale: Some(vec![None, n(1.0), n(2.0), n(3.0), n(4.0)]),
        start_position: Some(vec![n(1.5), None]),
        ..nothing()
    };
    let c = KbConfig::from_values(&values, false).unwrap();
    assert_eq!((c.window_width, c.window_height, f(c.render_scale)), (5, 720, 1.0));
    assert!(c.graphics_backend == GraphicsBackend::Gl && !c.vsync);
    assert_eq!(vec4(c.sun_beam_pos_scale), [4.0, 3.0, 2.0, 1.0]);
    assert_eq!(vec3(c.start_position), [1.5, 0.0, 0.0]);
    for list in [vec![n(1.0), n(2.0), n(3.0)], vec![n(1.0), n(2.0), None, n(4.0)]] {
        let short = ConfigValues { sun_beam_pos_scale: Some(list), ..nothing() };
        assert!(KbConfig::from_values(&short, false).is_none());
    }
}

#[test]
fn numbers_may_be_long_and_large() {
    let spawn = |digits: &str| {
        let text = format!("{{\"enemy_spawn_delay\": {digits}}}");
        KbConfig::try_new(&text, false).map(|c| f(c.enemy_spawn_delay))
    };
    let zeros = |n: usize| format!("0.{}", "0".repeat(n));
    assert_eq!(spawn(&zeros(32768)), Some(0.0));
    assert_eq!(spawn(&zeros(32769)), None);
    assert_eq!(spawn("-12.5"), Some(-12.5));
    assert!((spawn("1e30").unwrap() / 1e30 - 1.0).abs() < 1e-6);
}
