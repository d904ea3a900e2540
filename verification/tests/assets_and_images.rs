use std::cell::Cell;
use std::io::Cursor;

use black_splat::assets::{
    engine_shader_names, engine_texture_names, example_file_names, example_shader_names,
    key_file_names, resolve_asset_path, AssetManager, ByteFile, MaterialDesc, TextFile,
};
use black_splat::float_bits::{Vec4, ONE};
use black_splat::handles::{
    AssetMappings, CollisionHandle, MaterialHandle, ModelHandle, NameTable, ShaderHandle,
    TextureHandle, ByteFileHandle, INVALID_INDEX,
};
use black_splat::images::{choose_size, pack_maps, pack_metal_rough, MetalRough, Picture};

type Assets = AssetManager<String, String, String, String>;

fn assets() -> Assets {
    AssetManager::new(Vec::new(), Vec::new())
}

fn made(name: &'static str) -> impl Fn() -> String {
    move || name.to_string()
}

fn bound(color: &String, mr: &String) -> String {
    format!("{color}+{mr}")
}

fn uploaded(pixels: &Vec<u8>, width: u32, height: u32) -> Option<String> {
    Some(format!("{width}x{height}:{}", pixels.len()))
}

fn png(width: u32, height: u32, red: impl Fn(u32, u32) -> u8) -> Vec<u8> {
    let picture = image::RgbaImage::from_fn(width, height, |x, y| {
        image::Rgba([red(x, y), 1, 2, 255])
    });
    let mut out = Cursor::new(Vec::new());
    image::DynamicImage::ImageRgba8(picture)
        .write_to(&mut out, image::ImageFormat::Png)
        .unwrap();
    out.into_inner()
}

#[test]
fn handles_know_the_invalid_index() {
    assert!(!TextureHandle::make_invalid().is_valid());
    assert!(!ShaderHandle::make_invalid().is_valid());
    assert!(!ByteFileHandle::make_invalid().is_valid());
    assert!(!ModelHandle::make_invalid().is_valid());
    assert!(!MaterialHandle::make_invalid().is_valid());
    assert!(!CollisionHandle::make_invalid().is_valid());
    assert_eq!(TextureHandle::make_invalid().index, INVALID_INDEX);
    assert!(TextureHandle { index: 0 }.is_valid());
}

#[test]
fn stored_assets_can_be_read_back() {
    let mut m: AssetMappings<u8> = AssetMappings::new();
    let a = m.add_named("a", 10);
    let b = m.store(20);
    assert_eq!((a, b), (0, 1));
    m.set_name("alias", a);
    assert_eq!(m.find("alias"), Some(0));
    assert_eq!(m.find("b"), None);
    assert_eq!((m.get(a), m.get(b), m.get(2)), (Some(&10), Some(&20), None));
    *m.get_mut(b).unwrap() = 21;
    assert!(m.get_mut(7).is_none());
    m.replace(a, 11);
    assert_eq!((m.get(a), m.get(b)), (Some(&11), Some(&21)));
    let mut keys = m.indices();
    keys.sort();
    assert_eq!(keys, vec![0, 1]);
    m.remove(b);
    assert_eq!((m.len(), m.get(b)), (1, None));
    // An index is not handed out again.
    assert_eq!(m.store(30), 2);
    let names: Vec<_> = m.sorted_names().into_iter().map(|n| (n.name, n.value)).collect();
    assert_eq!(names, vec![("a".to_string(), 0), ("alias".to_string(), 0)]);
}

#[test]
fn names_are_listed_in_order() {
    let mut t: NameTable<u8> = NameTable::new();
    for (name, value) in [("pear", 1), ("apple", 2), ("fig", 3), ("pear", 4)] {
        t.set(name, value);
    }
    let list: Vec<_> = t.sorted().into_iter().map(|n| (n.name, n.value)).collect();
    assert_eq!(
        list,
        vec![("apple".to_string(), 2), ("fig".to_string(), 3), ("pear".to_string(), 4)]
    );
    let mut names = t.names();
    names.sort();
    assert_eq!(names, vec!["apple", "fig", "pear"]);
    assert_eq!(t.find("plum"), None);
}

#[test]
fn paths_are_resolved_by_where_they_point() {
    let r = |p: &str, beside, game| resolve_asset_path(p, "/home", beside, "/../..", game);
    assert_eq!(r("C:/x/engine_assets/a", true, true), "C:/x/engine_assets/a");
    assert_eq!(r("/engine_assets/a", true, true), "/home/.//engine_assets/a");
    assert_eq!(r("/engine_assets/a", false, true), "/home/../../engine_assets/a");
    assert_eq!(r("/game_assets/a", false, true), "/home/.//game_assets/a");
    assert_eq!(r("/game_assets/a", false, false), "/game_assets/a");
    assert_eq!(r("/elsewhere/a", true, true), "/elsewhere/a");
    assert_eq!(r("a", true, true), "a");
    assert_eq!(r("", true, true), "");
}

#[test]
fn built_in_files_are_found_by_name() {
    let text = |name: &str, text: &str| TextFile { name: name.to_string(), text: text.to_string() };
    let file = |name: &str, bytes: &[u8]| ByteFile { name: name.to_string(), bytes: bytes.to_vec() };
    let m: Assets = AssetManager::new(
        vec![text("a.wgsl", "one"), text("a.wgsl", "two")],
        vec![file("a.png", &[1]), file("b.png", &[2, 3]), file("a.png", &[4])],
    );
    assert_eq!(m.built_in_text("a.wgsl").unwrap(), "two");
    assert!(m.built_in_text("b.wgsl").is_none());
    assert_eq!(m.built_in_bytes("a.png"), Some(&vec![4]));
    assert_eq!(m.built_in_bytes("b.png"), Some(&vec![2, 3]));
    assert_eq!(m.built_in_bytes("c.png"), None);
    assert_eq!(engine_shader_names()[3], "gaussian_splat.wgsl");
    assert_eq!(engine_texture_names()[1], "sprite_sheet.png");
    assert_eq!(example_file_names()[13], "shotgun.glb");
    assert_eq!(example_shader_names()[2], "monster.wgsl");
    assert_eq!(key_file_names()[8], "timeline_atlas_1.png");
}

#[test]
fn textures_are_loaded_once() {
    let mut m = assets();
    let checker = made("checker");
    let a = m.load_texture("a.png", Some("a".to_string()), &checker);
    let again = m.load_texture("a.png", Some("other".to_string()), &checker);
    assert_eq!(a, again);
    assert_eq!(m.get_texture(&a), "a");
    assert_eq!(m.find_texture("a.png"), Some(a));
    assert_eq!(m.find_texture("b.png"), None);
}

#[test]
fn failed_loads_share_one_checkerboard() {
    let mut m = assets();
    let calls = Cell::new(0);
    let checker = || {
        calls.set(calls.get() + 1);
        "checker".to_string()
    };
    let a = m.load_texture("a.png", None, &checker);
    let b = m.load_texture("b.png", None, &checker);
    assert_eq!(a, b);
    assert_eq!(m.get_texture(&a), "checker");
    assert_eq!(calls.get(), 1);
    assert_eq!(m.checker, Some(a));
    // The failure is remembered.
    assert_eq!(m.load_texture("a.png", Some("late".to_string()), &checker), a);
}

#[test]
fn shaders_and_models_are_kept_by_path() {
    let mut m = assets();
    let s = m.load_shader("s.wgsl", "one".to_string());
    assert_eq!(m.load_shader("s.wgsl", "two".to_string()), s);
    assert_eq!(m.get_shader(&s), "one");
    assert_eq!(m.find_shader("t.wgsl"), None);
    let b = m.load_model("b.glb", "b".to_string());
    let a = m.add_model_from_bytes("a.glb", "a".to_string());
    assert_eq!(m.add_model_from_bytes("b.glb", "b2".to_string()), b);
    assert_eq!(m.load_model("b.glb", "b3".to_string()), b);
    assert_eq!(m.get_model(&b).unwrap(), "b2");
    m.get_model(&a).unwrap().push('!');
    assert_eq!(m.get_model_mappings().get(&a.index).unwrap(), "a!");
    assert!(m.get_model(&ModelHandle::make_invalid()).is_none());
    let list: Vec<_> = m.get_model_resources().into_iter().map(|n| (n.name, n.value)).collect();
    assert_eq!(list, vec![("a.glb".to_string(), a.index), ("b.glb".to_string(), b.index)]);
}

#[test]
fn materials_wear_white_where_they_have_no_texture() {
    let mut m = assets();
    let desc = MaterialDesc::default();
    assert_eq!(desc.color_constant, Vec4 { x: ONE, y: ONE, z: ONE, w: ONE });
    assert_eq!(f32::from_bits(desc.mr_constant.y), 0.85);
    let h = m.create_material("plain", &desc, &made("white"), &bound);
    assert_eq!(m.create_material("plain", &desc, &made("other"), &bound), h);
    let material = m.get_material(&h).unwrap();
    assert_eq!(material.bind_group, "white+white");
    assert_eq!(Some(material.color_texture), m.white);
    let (color, mr) = (Vec4 { x: 1, y: 2, z: 3, w: 4 }, Vec4 { x: 5, y: 6, z: 7, w: 8 });
    m.update_material_constants(&h, &color, &mr);
    m.update_material_constants(&MaterialHandle { index: 9 }, &mr, &color);
    let material = m.get_material(&h).unwrap();
    assert_eq!((material.color_constant, material.mr_constant), (color, mr));
    assert!(m.get_material(&MaterialHandle { index: 9 }).is_none());
    let (models, materials) = m.get_models_and_materials();
    assert_eq!((models.len(), materials.len()), (0, 1));
}

#[test]
fn materials_are_loaded_and_reloaded() {
    let mut m = assets();
    let mut desc = MaterialDesc::default();
    desc.color_texture = Some("c.png".to_string());
    desc.rough_texture = Some("r.png".to_string());
    let rough = Some(png(2, 1, |_, _| 9));
    let load = |m: &mut Assets, name: &str, desc: &MaterialDesc| {
        m.load_material(
            name,
            desc,
            Some("color".to_string()),
            &None,
            &rough,
            &made("white"),
            &made("checker"),
            &uploaded,
            &bound,
        )
        .unwrap()
    };
    let h = load(&mut m, "metal", &desc);
    assert_eq!(m.get_material(&h).unwrap().bind_group, "color+2x1:8");
    assert_eq!(load(&mut m, "metal", &MaterialDesc::default()), h);
    let list: Vec<_> = m.get_material_resources().into_iter().map(|n| n.name).collect();
    assert_eq!(list, vec!["metal"]);
    let plain = MaterialDesc::default();
    assert!(m.reload_material(
        &h,
        &plain,
        None,
        &None,
        &None,
        &made("white"),
        &made("checker"),
        &uploaded,
        &bound,
    ));
    assert_eq!(m.get_material(&h).unwrap().bind_group, "white+white");
    // A material whose files cannot be read wears the checkerboard.
    desc.rough_texture = Some("gone.png".to_string());
    desc.color_texture = Some("lost.png".to_string());
    assert!(m.reload_material(
        &h,
        &desc,
        None,
        &None,
        &None,
        &made("white"),
        &made("checker"),
        &uploaded,
        &bound,
    ));
    assert_eq!(m.get_material(&h).unwrap().bind_group, "checker+checker");
}

#[test]
fn packed_pairs_are_cached_under_both_paths() {
    let mut m = assets();
    let file = Some(png(1, 1, |_, _| 40));
    let load = |m: &mut Assets, metal, rough| {
        m.load_metal_rough_texture(
            metal,
            rough,
            &file,
            &file,
            &made("white"),
            &made("checker"),
            &uploaded,
        )
        .unwrap()
    };
    let a = load(&mut m, Some("m"), Some("r"));
    assert_eq!(m.find_texture("<mr>m|r"), Some(a));
    assert_eq!(load(&mut m, Some("m"), Some("r")), a);
    assert_ne!(load(&mut m, Some("m"), None), a);
    let white = load(&mut m, None, None);
    assert_eq!(m.get_texture(&white), "white");
    assert_eq!(m.white_texture(&made("other")), white);
}

#[test]
fn an_upload_that_fails_leaves_the_checkerboard() {
    let mut m = assets();
    let file = Some(png(1, 1, |_, _| 40));
    let none = |_: &Vec<u8>, _: u32, _: u32| -> Option<String> { None };
    let h = m
        .load_metal_rough_texture(
            Some("m"),
            None,
            &file,
            &None,
            &made("white"),
            &made("checker"),
            &none,
        )
        .unwrap();
    assert_eq!(m.get_texture(&h), "checker");
    assert_eq!(m.checker_texture(&made("other")), h);
}

#[test]
fn maps_are_packed_from_their_red_channels() {
    let metal = png(2, 1, |x, _| 10 + x as u8);
    let rough = png(2, 1, |x, _| 50 + x as u8);
    match pack_metal_rough(&Some(metal.clone()), &Some(rough)) {
        MetalRough::Packed { width, height, pixels } => {
            assert_eq!((width, height), (2, 1));
            assert_eq!(pixels, vec![0, 50, 10, 255, 0, 51, 11, 255]);
        }
        _ => panic!("not packed"),
    }
    match pack_metal_rough(&Some(metal), &Some(b"no picture".to_vec())) {
        MetalRough::Packed { pixels, .. } => {
            assert_eq!(pixels, vec![0, 255, 10, 255, 0, 255, 11, 255]);
        }
        _ => panic!("not packed"),
    }
    assert!(matches!(pack_metal_rough(&None, &Some(vec![1, 2])), MetalRough::Missing));
    assert!(matches!(pack_metal_rough(&None, &None), MetalRough::Missing));
}

#[test]
fn the_smaller_map_is_resized_to_the_larger() {
    let metal = png(1, 1, |_, _| 7);
    let rough = png(4, 2, |x, y| (10 * x + y) as u8);
    match pack_metal_rough(&Some(metal.clone()), &Some(rough.clone())) {
        MetalRough::Packed { width, height, pixels } => {
            assert_eq!((width, height), (4, 2));
            assert_eq!(pixels.len(), 32);
            // One color stays one color; the larger map is not touched.
            for (i, p) in pixels.chunks(4).enumerate() {
                assert_eq!(p, [0, (10 * (i % 4) + i / 4) as u8, 7, 255]);
            }
        }
        _ => panic!("not packed"),
    }
    match pack_metal_rough(&Some(rough), &Some(metal)) {
        MetalRough::Packed { width, height, .. } => assert_eq!((width, height), (4, 2)),
        _ => panic!("not packed"),
    }
}

#[test]
fn maps_with_a_very_long_side_are_not_resized() {
    let long = |n| png(n, 1, |x, _| x as u8);
    let one = png(1, 1, |_, _| 7);
    match pack_metal_rough(&Some(one.clone()), &Some(long(65536))) {
        MetalRough::Packed { width, height, pixels } => {
            assert_eq!((width, height), (65536, 1));
            assert_eq!(pixels[4 * 65535..], [0, 255, 7, 255]);
        }
        _ => panic!("not packed"),
    }
    assert!(matches!(pack_metal_rough(&Some(one), &Some(long(65537))), MetalRough::TooLarge));
    match pack_metal_rough(&Some(long(65537)), &Some(long(65537))) {
        MetalRough::Packed { width, pixels, .. } => {
            assert_eq!((width, &pixels[4 * 300..4 * 301]), (65537, &[0, 44, 44, 255][..]));
        }
        _ => panic!("not packed"),
    }
}

#[test]
fn maps_of_the_same_number_of_pixels_take_the_metallic_size() {
    let metal = png(2, 3, |_, _| 1);
    let rough = png(3, 2, |_, _| 2);
    match pack_metal_rough(&Some(metal), &Some(rough)) {
        MetalRough::Packed { width, height, pixels } => {
            assert_eq!((width, height), (2, 3));
            assert_eq!(pixels[0..4], [0, 2, 1, 255]);
        }
        _ => panic!("not packed"),
    }
    let size = |width, height| Some(Picture { width, height, rgba: Vec::new() });
    assert_eq!(choose_size(&size(2, 3), &size(3, 2)), Some((2, 3)));
    assert_eq!(choose_size(&size(2, 3), &size(7, 1)), Some((7, 1)));
    assert_eq!(choose_size(&None, &size(7, 1)), Some((7, 1)));
    assert_eq!(choose_size(&size(2, 3), &None), Some((2, 3)));
    assert_eq!(choose_size(&None, &None), None);
    let one = Picture { width: 1, height: 1, rgba: vec![3, 4, 5, 6] };
    assert_eq!(pack_maps(&None, &Some(one), 1), vec![0, 3, 255, 255]);
}

#[test]
fn the_checkerboard_keeps_its_handle() {
    let mut m = assets();
    let checker = m.checker_texture(&made("checker"));
    m.load_texture("a.png", Some("a".to_string()), &made("spare"));
    m.load_texture("b.png", None, &made("spare"));
    let white = m.white_texture(&made("white"));
    m.load_texture("<checker>", Some("other".to_string()), &made("spare"));
    assert_eq!(m.checker_texture(&made("spare")), checker);
    assert_eq!(m.white_texture(&made("spare")), white);
    assert_eq!(m.get_texture(&checker), "checker");
    assert_eq!(m.texture_mappings.len(), 3);
}
