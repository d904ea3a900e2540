//! Textures, shaders, models and materials by name.
//!
//! The tables, the fallbacks and the packing of metallic and roughness maps are
//! decided here; what only a device can make (a texture, a shader module, a bind
//! group) comes in as a value of the caller's type or from a closure.

use std::collections::HashMap;

use vstd::hash_map::StringHashMap;
use vstd::prelude::*;

use crate::float_bits::{Vec4, ONE};
use crate::handles::{
    due_index, lists_names, AssetMappings, MappingsModel, MaterialHandle, ModelHandle, Named,
    ShaderHandle, TextureHandle,
};
use crate::images::{file_view, is_metal_rough, pack_metal_rough, MetalRough};
#[allow(unused_imports)]
use crate::passes::deferred::{shader_of, LightType};
use crate::text::{chars_of, contains_text, has_text};

verus! {

/// How to build a material: optional texture paths plus the constants that each
/// is multiplied by. Metallic and roughness are independent gray maps, read from
/// their red channel.
pub struct MaterialDesc {
    pub color_texture: Option<String>,
    pub metal_texture: Option<String>,
    pub rough_texture: Option<String>,
    pub color_constant: Vec4,
    pub mr_constant: Vec4,
}

impl Default for MaterialDesc {
    /// No textures, a white color, metallic 0.0 and roughness 0.85.
    fn default() -> (r: Self)
        ensures
            r.color_texture is None,
            r.metal_texture is None,
            r.rough_texture is None,
            r.color_constant == (Vec4 { x: ONE, y: ONE, z: ONE, w: ONE }),
            r.mr_constant == (Vec4 { x: 0, y: 0x3f59_999a, z: 0, w: 0 }),
    {
        MaterialDesc {
            color_texture: None,
            metal_texture: None,
            rough_texture: None,
            color_constant: Vec4 { x: ONE, y: ONE, z: ONE, w: ONE },
            mr_constant: Vec4 { x: 0, y: 0x3f59_999a, z: 0, w: 0 },
        }
    }
}

/// A surface that an actor can wear in place of its model's own textures.
pub struct Material<B> {
    pub color_texture: TextureHandle,
    pub mr_texture: TextureHandle,
    pub color_constant: Vec4,
    pub mr_constant: Vec4,
    pub bind_group: B,
}

/// Where an asset is read from. A path with a drive letter stands as it is, and so
/// does one that is too short to have one; `engine_assets` live beside the program
/// where `engine_beside` holds, and else `engine_dir` away from it; `game_assets`,
/// where they are looked for, live beside the program.
pub open spec fn resolved_path(
    path: Seq<char>,
    cwd: Seq<char>,
    engine_beside: bool,
    engine_dir: Seq<char>,
    game: bool,
) -> Seq<char> {
    if path.len() < 2 || path[1] == ':' {
        path
    } else if contains_text(path, "engine_assets"@) {
        if engine_beside {
            cwd + "/./"@ + path
        } else {
            cwd + engine_dir + path
        }
    } else if game && contains_text(path, "game_assets"@) {
        cwd + "/./"@ + path
    } else {
        path
    }
}

/// Resolves the path of an asset; see `resolved_path`.
pub fn resolve_asset_path(
    path: &str,
    cwd: &str,
    engine_beside: bool,
    engine_dir: &str,
    game: bool,
) -> (r: String)
    ensures
        r@ == resolved_path(path@, cwd@, engine_beside, engine_dir@, game),
{
    let chars = chars_of(path);
    let mut out = cwd.to_owned();
    if chars.len() < 2 || chars[1] == ':' {
        return path.to_owned();
    }
    if has_text(path, "engine_assets") {
        if engine_beside {
            out.append("/./");
        } else {
            out.append(engine_dir);
        }
        out.append(path);
        out
    } else if game && has_text(path, "game_assets") {
        out.append("/./");
        out.append(path);
        out
    } else {
        path.to_owned()
    }
}

/// Shaders that ship with the engine.
pub open spec fn engine_shaders() -> Seq<Seq<char>> {
    seq![
        "decal.wgsl"@,
        "line.wgsl"@,
        "model.wgsl"@,
        "gaussian_splat.wgsl"@,
        "gaussian_splat_radix.wgsl"@,
        "splat_composite.wgsl"@,
        "model_with_holes.wgsl"@,
        "bullet_hole.wgsl"@,
        "particle.wgsl"@,
        "postprocess_uber.wgsl"@,
        "basic_sprite.wgsl"@,
        "cloud_sprite.wgsl"@,
        "sky_dome_draw.wgsl"@,
        "sky_dome_occlude.wgsl"@,
        "sunbeam_draw.wgsl"@,
        "sunbeam_mask.wgsl"@,
        "gbuffer.wgsl"@,
        "light_skylight.wgsl"@,
        "light_directional.wgsl"@,
        "light_point.wgsl"@,
        "light_spot.wgsl"@,
        "shadow_depth.wgsl"@,
        "shadow_mask_cascades.wgsl"@,
        "shadow_mask_spot.wgsl"@,
        "shadow_catcher_overlay.wgsl"@,
    ]
}

/// Textures that ship with the engine.
pub open spec fn engine_textures() -> Seq<Seq<char>> {
    seq!["postprocess_filter.png"@, "sprite_sheet.png"@, "scorch_t.png"@, "lens_flare.png"@]
}

/// Names of the shaders that ship with the engine.
pub fn engine_shader_names() -> (r: [&'static str; 25])
    ensures
        r@.len() == engine_shaders().len(),
        forall|i: int| 0 <= i < 25 ==> (#[trigger] r@[i])@ == engine_shaders()[i],
{
    [
        "decal.wgsl",
        "line.wgsl",
        "model.wgsl",
        "gaussian_splat.wgsl",
        "gaussian_splat_radix.wgsl",
        "splat_composite.wgsl",
        "model_with_holes.wgsl",
        "bullet_hole.wgsl",
        "particle.wgsl",
        "postprocess_uber.wgsl",
        "basic_sprite.wgsl",
        "cloud_sprite.wgsl",
        "sky_dome_draw.wgsl",
        "sky_dome_occlude.wgsl",
        "sunbeam_draw.wgsl",
        "sunbeam_mask.wgsl",
        "gbuffer.wgsl",
        "light_skylight.wgsl",
        "light_directional.wgsl",
        "light_point.wgsl",
        "light_spot.wgsl",
        "shadow_depth.wgsl",
        "shadow_mask_cascades.wgsl",
        "shadow_mask_spot.wgsl",
        "shadow_catcher_overlay.wgsl",
    ]
}

/// Names of the textures that ship with the engine.
pub fn engine_texture_names() -> (r: [&'static str; 4])
    ensures
        r@.len() == engine_textures().len(),
        forall|i: int| 0 <= i < 4 ==> (#[trigger] r@[i])@ == engine_textures()[i],
{
    ["postprocess_filter.png", "sprite_sheet.png", "scorch_t.png", "lens_flare.png"]
}

/// The files that a build of the three-dimensional example carries along.
pub open spec fn example_files() -> Seq<Seq<char>> {
    seq![
        "ember_t.png"@,
        "fire_t.png"@,
        "smoke_t.png"@,
        "muzzle_flash_t.png"@,
        "monster_gibs_t.png"@,
        "barrel.glb"@,
        "decal.glb"@,
        "fp_hands.glb"@,
        "level.glb"@,
        "monster.glb"@,
        "pinky.glb"@,
        "sign.glb"@,
        "sky_dome.glb"@,
        "shotgun.glb"@,
    ]
}

pub fn example_file_names() -> (r: [&'static str; 14])
    ensures
        r@.len() == example_files().len(),
        forall|i: int| 0 <= i < 14 ==> (#[trigger] r@[i])@ == example_files()[i],
{
    [
        "ember_t.png",
        "fire_t.png",
        "smoke_t.png",
        "muzzle_flash_t.png",
        "monster_gibs_t.png",
        "barrel.glb",
        "decal.glb",
        "fp_hands.glb",
        "level.glb",
        "monster.glb",
        "pinky.glb",
        "sign.glb",
        "sky_dome.glb",
        "shotgun.glb",
    ]
}

/// The shaders that a build of the three-dimensional example carries along.
pub open spec fn example_shaders() -> Seq<Seq<char>> {
    seq![
        "first_person.wgsl"@,
        "first_person_outline.wgsl"@,
        "monster.wgsl"@,
    ]
}

pub fn example_shader_names() -> (r: [&'static str; 3])
    ensures
        r@.len() == example_shaders().len(),
        forall|i: int| 0 <= i < 3 ==> (#[trigger] r@[i])@ == example_shaders()[i],
{
    [
        "first_person.wgsl",
        "first_person_outline.wgsl",
        "monster.wgsl",
    ]
}

/// The files that a build of the key game carries along.
pub open spec fn key_files() -> Seq<Seq<char>> {
    seq![
        "ember_t.png"@,
        "smoke_t.png"@,
        "map_00.png"@,
        "map_01.png"@,
        "map_10.png"@,
        "map_11.png"@,
        "map_20.png"@,
        "map_21.png"@,
        "timeline_atlas_1.png"@,
    ]
}

pub fn key_file_names() -> (r: [&'static str; 9])
    ensures
        r@.len() == key_files().len(),
        forall|i: int| 0 <= i < 9 ==> (#[trigger] r@[i])@ == key_files()[i],
{
    [
        "ember_t.png",
        "smoke_t.png",
        "map_00.png",
        "map_01.png",
        "map_10.png",
        "map_11.png",
        "map_20.png",
        "map_21.png",
        "timeline_atlas_1.png",
    ]
}

/// A file that is built into the program.
pub struct TextFile {
    pub name: String,
    pub text: String,
}

/// A file that is built into the program.
pub struct ByteFile {
    pub name: String,
    pub bytes: Vec<u8>,
}

/// The built-in texts by name; of two files of one name the later counts.
pub open spec fn texts_by_name(files: Seq<TextFile>) -> Map<Seq<char>, String>
    decreases files.len(),
{
    if files.len() == 0 {
        Map::empty()
    } else {
        texts_by_name(files.drop_last()).insert(files.last().name@, files.last().text)
    }
}

/// The built-in bytes by name; of two files of one name the later counts.
pub open spec fn bytes_by_name(files: Seq<ByteFile>) -> Map<Seq<char>, Vec<u8>>
    decreases files.len(),
{
    if files.len() == 0 {
        Map::empty()
    } else {
        bytes_by_name(files.drop_last()).insert(files.last().name@, files.last().bytes)
    }
}

fn collect_texts(files: Vec<TextFile>) -> (r: StringHashMap<String>)
    ensures
        r@ == texts_by_name(files@),
{
    let mut map: StringHashMap<String> = StringHashMap::new();
    let mut i: usize = 0;
    while i < files.len()
        invariant
            i <= files.len(),
            map@ == texts_by_name(files@.take(i as int)),
        decreases files.len() - i,
    {
        map.insert(files[i].name.clone(), files[i].text.clone());
        assert(files@.take(i + 1).drop_last() == files@.take(i as int));
        i += 1;
    }
    assert(files@.take(files@.len() as int) == files@);
    map
}

fn collect_bytes(files: Vec<ByteFile>) -> (r: StringHashMap<Vec<u8>>)
    ensures
        r@ == bytes_by_name(files@),
{
    let mut map: StringHashMap<Vec<u8>> = StringHashMap::new();
    let mut rest = files;
    let ghost all = files@;
    let mut names: Vec<ByteFile> = Vec::new();
    while rest.len() > 0
        invariant
            rest@.len() + names@.len() == all.len(),
            rest@ == all.take(rest@.len() as int),
            forall|k: int| 0 <= k < names@.len() ==> #[trigger] names@[k] == all[all.len() - 1 - k],
        decreases rest.len(),
    {
        let ghost before = rest@;
        let file = rest.pop().unwrap();
        assert(file == before.last());
        names.push(file);
        assert(rest@ == all.take(rest@.len() as int));
    }
    let ghost mut done: int = 0;
    while names.len() > 0
        invariant
            0 <= done <= all.len(),
            done + names@.len() == all.len(),
            forall|k: int| 0 <= k < names@.len() ==> #[trigger] names@[k] == all[all.len() - 1 - k],
            map@ == bytes_by_name(all.take(done)),
        decreases names.len(),
    {
        let ghost before = names@;
        let file = names.pop().unwrap();
        assert(file == before[before.len() - 1]);
        assert(file == all[done]);
        assert(all.take(done + 1).drop_last() == all.take(done));
        assert(all.take(done + 1).last() == file);
        map.insert(file.name, file.bytes);
        proof {
            done = done + 1;
        }
    }
    assert(all.take(all.len() as int) == all);
    map
}

/// Everything loaded so far.
#[verifier::reject_recursive_types(T)]
#[verifier::reject_recursive_types(S)]
#[verifier::reject_recursive_types(M)]
#[verifier::reject_recursive_types(B)]
pub struct AssetManager<T, S, M, B> {
    pub texture_mappings: AssetMappings<T>,
    pub shader_mappings: AssetMappings<S>,
    pub model_mappings: AssetMappings<M>,
    pub material_mappings: AssetMappings<Material<B>>,
    /// The built-in white texture, once it was made.
    pub white: Option<TextureHandle>,
    /// The built-in checkerboard, once it was made.
    pub checker: Option<TextureHandle>,
    pub file_to_string_buffer: StringHashMap<String>,
    pub file_to_byte_buffer: StringHashMap<Vec<u8>>,
}

/// Every name stands for an asset that is there.
pub open spec fn names_resolve<A>(m: MappingsModel<A>) -> bool {
    forall|n: Seq<char>| #[trigger] m.names.contains_key(n) ==> m.assets.contains_key(m.names[n])
}

/// The textures and the built-in handles.
#[verifier::ext_equal]
#[verifier::reject_recursive_types(T)]
pub struct TextureModel<T> {
    pub textures: MappingsModel<T>,
    pub white: Option<TextureHandle>,
    pub checker: Option<TextureHandle>,
}

impl<T> TextureModel<T> {
    /// Names and built-in handles all stand for textures that are there.
    pub open spec fn wf(self) -> bool {
        &&& names_resolve(self.textures)
        &&& self.white matches Some(h) ==> h.valid() && self.textures.assets.contains_key(h.index)
        &&& self.checker matches Some(h) ==> h.valid() && self.textures.assets.contains_key(h.index)
    }

    /// With `texture` stored under `name`.
    pub open spec fn with_texture(self, name: Seq<char>, texture: T) -> Self {
        TextureModel {
            textures: self.textures.with_asset(texture).with_name(
                name,
                due_index(self.textures.next),
            ),
            ..self
        }
    }

    /// With `name` standing for a texture that is there.
    pub open spec fn with_alias(self, name: Seq<char>, handle: TextureHandle) -> Self {
        TextureModel { textures: self.textures.with_name(name, handle.index), ..self }
    }

    /// With the white texture made, if it was not.
    pub open spec fn with_white(self, texture: T) -> Self {
        if self.white is Some {
            self
        } else {
            TextureModel {
                white: Some(TextureHandle { index: due_index(self.textures.next) }),
                ..self.with_texture("<white>"@, texture)
            }
        }
    }

    /// With the checkerboard made, if it was not.
    pub open spec fn with_checker(self, texture: T) -> Self {
        if self.checker is Some {
            self
        } else {
            TextureModel {
                checker: Some(TextureHandle { index: due_index(self.textures.next) }),
                ..self.with_texture("<checker>"@, texture)
            }
        }
    }

    /// A load under `name` has to make the checkerboard.
    pub open spec fn needs_checker(self, name: Seq<char>, loaded: Option<T>) -> bool {
        !self.textures.names.contains_key(name) && loaded is None && self.checker is None
    }

    /// What a load under `name` leaves, where `loaded` is what was read and
    /// `checker` the checkerboard that stands in for it.
    pub open spec fn after_load(self, name: Seq<char>, loaded: Option<T>, checker: T) -> Self {
        if self.textures.names.contains_key(name) {
            self
        } else {
            match loaded {
                Some(t) => self.with_texture(name, t),
                None => self.with_checker(checker).with_alias(
                    name,
                    self.with_checker(checker).checker->0,
                ),
            }
        }
    }
}

/// The handle that a load returns is the one that the name stands for from now
/// on; it is valid, and what it stands for is there. Loading the name again
/// changes nothing.
pub proof fn loading_is_idempotent<T>(
    m: TextureModel<T>,
    name: Seq<char>,
    loaded: Option<T>,
    checker: T,
    again: Option<T>,
    checker_again: T,
)
    requires
        m.wf(),
    ensures
        ({
            let after = m.after_load(name, loaded, checker);
            &&& after.wf()
            &&& after.textures.names.contains_key(name)
            &&& after.textures.assets.contains_key(after.textures.names[name])
            &&& after.after_load(name, again, checker_again) == after
        }),
{
}

/// A texture that failed to load reads as the checkerboard, and the checkerboard
/// is made once.
pub proof fn failures_share_the_checkerboard<T>(
    m: TextureModel<T>,
    first: Seq<char>,
    second: Seq<char>,
    made: T,
    spare: T,
)
    requires
        m.wf(),
        first != second,
        !m.textures.names.contains_key(first),
        !m.textures.names.contains_key(second),
        first != "<checker>"@,
        second != "<checker>"@,
    ensures
        ({
            let one = m.after_load(first, None, made);
            let two = one.after_load(second, None, spare);
            &&& two.textures.names[first] == two.textures.names[second]
            &&& two.textures.assets == one.textures.assets
            &&& two.checker == one.checker
        }),
{
}

/// Something that is done to the textures.
pub enum TextureChange<T> {
    /// `load_texture`, with what was read and the checkerboard to make if need be.
    Load { name: Seq<char>, loaded: Option<T>, checker: T },
    /// `white_texture`, with the texture to make if need be.
    White(T),
    /// `checker_texture`, with the texture to make if need be.
    Checker(T),
}

impl<T> TextureModel<T> {
    /// The textures after a change.
    pub open spec fn changed(self, change: TextureChange<T>) -> Self {
        match change {
            TextureChange::Load { name, loaded, checker } => self.after_load(name, loaded, checker),
            TextureChange::White(t) => self.with_white(t),
            TextureChange::Checker(t) => self.with_checker(t),
        }
    }

    /// The textures after a run of changes.
    pub open spec fn after_run(self, run: Seq<TextureChange<T>>) -> Self
        decreases run.len(),
    {
        if run.len() == 0 {
            self
        } else {
            self.after_run(run.drop_last()).changed(run.last())
        }
    }
}

/// Once it was made, the checkerboard keeps its handle whatever else is loaded, and
/// asking for it again changes nothing. The same holds of the white texture.
pub proof fn built_in_textures_keep_their_handles<T>(
    m: TextureModel<T>,
    made: T,
    run: Seq<TextureChange<T>>,
    spare: T,
)
    requires
        m.wf(),
    ensures
        ({
            let first = m.with_checker(made);
            let later = first.after_run(run);
            &&& later.wf()
            &&& later.checker == first.checker
            &&& first.checker is Some
            &&& later.with_checker(spare) == later
        }),
        ({
            let first = m.with_white(made);
            let later = first.after_run(run);
            &&& later.wf()
            &&& later.white == first.white
            &&& first.white is Some
            &&& later.with_white(spare) == later
        }),
    decreases run.len(),
{
    if run.len() > 0 {
        built_in_textures_keep_their_handles(m, made, run.drop_last(), spare);
    }
}

/// The first call for the checkerboard stores one new texture, under a valid handle
/// that no earlier texture has, and leaves the others. So does the first call for the
/// white texture.
pub proof fn built_in_textures_are_made_once<T>(m: TextureModel<T>, made: T)
    requires
        m.textures.fresh_ahead(),
    ensures
        m.checker is None ==> {
            let h = m.with_checker(made).checker->0;
            &&& h.valid()
            &&& !m.textures.assets.contains_key(h.index)
            &&& m.with_checker(made).textures.assets == m.textures.assets.insert(h.index, made)
        },
        m.white is None ==> {
            let h = m.with_white(made).white->0;
            &&& h.valid()
            &&& !m.textures.assets.contains_key(h.index)
            &&& m.with_white(made).textures.assets == m.textures.assets.insert(h.index, made)
        },
{
}

/// Whatever else is loaded, a handle goes on naming its texture, the built-in ones
/// among them, as long as the indices last.
pub proof fn loads_keep_earlier_textures<T>(
    m: TextureModel<T>,
    run: Seq<TextureChange<T>>,
    index: u32,
)
    requires
        m.wf(),
        m.textures.fresh_ahead(),
        m.textures.assets.contains_key(index),
        m.textures.next + run.len() < u32::MAX,
    ensures
        m.after_run(run).wf(),
        m.after_run(run).textures.fresh_ahead(),
        m.after_run(run).textures.next <= m.textures.next + run.len(),
        m.after_run(run).textures.assets.contains_key(index),
        m.after_run(run).textures.assets[index] == m.textures.assets[index],
    decreases run.len(),
{
    if run.len() > 0 {
        loads_keep_earlier_textures(m, run.drop_last(), index);
    }
}

/// The cache key of a packed metallic and roughness pair.
pub open spec fn metal_rough_key(metal: Option<Seq<char>>, rough: Option<Seq<char>>) -> Seq<char> {
    "<mr>"@ + metal.unwrap_or(seq![]) + "|"@ + rough.unwrap_or(seq![])
}

/// The view of an optional path.
pub open spec fn path_view(path: Option<&str>) -> Option<Seq<char>> {
    match path {
        Some(p) => Some(p@),
        None => None,
    }
}

fn metal_rough_cache_key(metal: Option<&str>, rough: Option<&str>) -> (r: String)
    ensures
        r@ == metal_rough_key(path_view(metal), path_view(rough)),
{
    let mut key = String::from_str("<mr>");
    match metal {
        Some(p) => {
            key.append(p);
        },
        None => {},
    }
    assert(key@ == "<mr>"@ + path_view(metal).unwrap_or(seq![]));
    key.append("|");
    match rough {
        Some(p) => {
            key.append(p);
        },
        None => {},
    }
    assert(key@ == metal_rough_key(path_view(metal), path_view(rough)));
    key
}

/// `t` was made by `create`, where one was needed.
pub open spec fn made<T, F: Fn() -> T>(create: F, needed: bool, t: T) -> bool {
    needed ==> call_ensures(create, (), t)
}

/// What uploading a packed pair gave: nothing where neither map could be read.
pub open spec fn uploaded<T, U: Fn(&Vec<u8>, u32, u32) -> Option<T>>(
    upload: U,
    metal: Option<Seq<u8>>,
    rough: Option<Seq<u8>>,
    t: Option<T>,
) -> bool {
    exists|mr: MetalRough| #[trigger]
        is_metal_rough(mr, metal, rough) && match mr {
            MetalRough::Missing => t is None,
            MetalRough::TooLarge => false,
            MetalRough::Packed { width, height, pixels } => call_ensures(
                upload,
                (&pixels, width, height),
                t,
            ),
        }
}

/// The maps of two files do not fit in memory.
pub open spec fn too_large(metal: Option<Seq<u8>>, rough: Option<Seq<u8>>) -> bool {
    is_metal_rough(MetalRough::TooLarge, metal, rough)
}

/// The textures that a material wears: each handle, and the textures afterwards.
#[verifier::reject_recursive_types(T)]
pub struct WornTextures<T> {
    pub color: TextureHandle,
    pub mr: TextureHandle,
    pub after: TextureModel<T>,
}

/// The textures of a material after they were loaded: white in place of a missing
/// path; the color texture, or the checkerboard where it could not be read; the
/// packed pair under its cache key.
pub open spec fn worn_textures<T>(
    before: TextureModel<T>,
    desc: MaterialDesc,
    color: Option<T>,
    packed: Option<T>,
    white: T,
    checker: T,
    checker_2: T,
) -> WornTextures<T> {
    let one = before.with_white(white);
    let two = match desc.color_texture {
        Some(p) => one.after_load(p@, color, checker),
        None => one,
    };
    let metal = opt_view(desc.metal_texture);
    let rough = opt_view(desc.rough_texture);
    let key = metal_rough_key(metal, rough);
    let three = if metal is None && rough is None {
        two
    } else {
        two.after_load(key, packed, checker_2)
    };
    WornTextures {
        color: match desc.color_texture {
            Some(p) => TextureHandle { index: two.textures.names[p@] },
            None => one.white->0,
        },
        mr: if metal is None && rough is None {
            one.white->0
        } else {
            TextureHandle { index: three.textures.names[key] }
        },
        after: three,
    }
}

/// Loading a material leaves the built-in textures their handles.
pub proof fn materials_keep_the_built_in_handles<T>(
    before: TextureModel<T>,
    desc: MaterialDesc,
    color: Option<T>,
    packed: Option<T>,
    white: T,
    checker: T,
    checker_2: T,
)
    requires
        before.wf(),
    ensures
        ({
            let after = worn_textures(before, desc, color, packed, white, checker, checker_2).after;
            &&& after.wf()
            &&& before.checker is Some ==> after.checker == before.checker
            &&& before.white is Some ==> after.white == before.white
        }),
{
}

/// The view of an optional string.
pub open spec fn opt_view(s: Option<String>) -> Option<Seq<char>> {
    match s {
        Some(s) => Some(s@),
        None => None,
    }
}

fn opt_str(s: &Option<String>) -> (r: Option<&str>)
    ensures
        path_view(r) == opt_view(*s),
{
    match s {
        Some(s) => Some(s.as_str()),
        None => None,
    }
}

impl<T, S, M, B> AssetManager<T, S, M, B> {
    /// The textures and the built-in handles.
    pub open spec fn textures(&self) -> TextureModel<T> {
        TextureModel {
            textures: self.texture_mappings@,
            white: self.white,
            checker: self.checker,
        }
    }

    /// Every name stands for something that is there, and the textures that a
    /// material wears are there.
    pub open spec fn wf(&self) -> bool {
        &&& self.textures().wf()
        &&& names_resolve(self.shader_mappings@)
        &&& names_resolve(self.model_mappings@)
        &&& names_resolve(self.material_mappings@)
        &&& forall|h: u32| #[trigger]
            self.material_mappings@.assets.contains_key(h) ==> {
                let m = self.material_mappings@.assets[h];
                &&& self.textures().textures.assets.contains_key(m.color_texture.index)
                &&& self.textures().textures.assets.contains_key(m.mr_texture.index)
            }
    }

    /// Only the textures may differ.
    pub open spec fn same_but_textures(&self, other: &Self) -> bool {
        &&& self.shader_mappings == other.shader_mappings
        &&& self.model_mappings == other.model_mappings
        &&& self.material_mappings == other.material_mappings
        &&& self.same_files(other)
    }

    /// The built-in files are the same.
    pub open spec fn same_files(&self, other: &Self) -> bool {
        &&& self.file_to_string_buffer == other.file_to_string_buffer
        &&& self.file_to_byte_buffer == other.file_to_byte_buffer
    }

    /// A manager that has loaded nothing, with the files that are built into the
    /// program.
    pub fn new(texts: Vec<TextFile>, files: Vec<ByteFile>) -> (r: Self)
        ensures
            r.wf(),
            r.texture_mappings@ == MappingsModel::<T>::empty(),
            r.shader_mappings@ == MappingsModel::<S>::empty(),
            r.model_mappings@ == MappingsModel::<M>::empty(),
            r.material_mappings@ == MappingsModel::<Material<B>>::empty(),
            r.white is None,
            r.checker is None,
            r.file_to_string_buffer@ == texts_by_name(texts@),
            r.file_to_byte_buffer@ == bytes_by_name(files@),
    {
        AssetManager {
            texture_mappings: AssetMappings::new(),
            shader_mappings: AssetMappings::new(),
            model_mappings: AssetMappings::new(),
            material_mappings: AssetMappings::new(),
            white: None,
            checker: None,
            file_to_string_buffer: collect_texts(texts),
            file_to_byte_buffer: collect_bytes(files),
        }
    }

    /// The bytes of a built-in file.
    pub fn built_in_bytes(&self, file_name: &str) -> (r: Option<&Vec<u8>>)
        ensures
            match r {
                Some(b) => self.file_to_byte_buffer@.contains_key(file_name@)
                    && self.file_to_byte_buffer@[file_name@] == *b,
                None => !self.file_to_byte_buffer@.contains_key(file_name@),
            },
    {
        self.file_to_byte_buffer.get(file_name)
    }

    /// The text of a built-in file.
    pub fn built_in_text(&self, file_name: &str) -> (r: Option<&String>)
        ensures
            match r {
                Some(b) => self.file_to_string_buffer@.contains_key(file_name@)
                    && self.file_to_string_buffer@[file_name@] == *b,
                None => !self.file_to_string_buffer@.contains_key(file_name@),
            },
    {
        self.file_to_string_buffer.get(file_name)
    }

    /// The handle of a texture that was loaded before.
    pub fn find_texture(&self, file_path: &str) -> (r: Option<TextureHandle>)
        ensures
            match r {
                Some(h) => self.texture_mappings@.names.contains_key(file_path@)
                    && self.texture_mappings@.names[file_path@] == h.index,
                None => !self.texture_mappings@.names.contains_key(file_path@),
            },
    {
        match self.texture_mappings.find(file_path) {
            Some(index) => Some(TextureHandle { index }),
            None => None,
        }
    }

    /// Registers a texture under its path, where `loaded` is what could be read
    /// and decoded. A path that is known keeps its handle; where nothing could be
    /// read the checkerboard stands in, and the path is remembered for it.
    pub fn load_texture<C: Fn() -> T>(
        &mut self,
        file_path: &str,
        loaded: Option<T>,
        checker: &C,
    ) -> (r: TextureHandle)
        requires
            old(self).wf(),
            call_requires(*checker, ()),
        ensures
            final(self).wf(),
            final(self).same_but_textures(old(self)),
            final(self).textures().textures.names.contains_key(file_path@),
            r.index == final(self).textures().textures.names[file_path@],
            final(self).textures().textures.assets.contains_key(r.index),
            exists|t: T|
                made(
                    *checker,
                    old(self).textures().needs_checker(file_path@, loaded),
                    t,
                ) && final(self).textures() == #[trigger] old(self).textures().after_load(
                    file_path@,
                    loaded,
                    t,
                ),
    {
        if let Some(handle) = self.find_texture(file_path) {
            proof {
                let t = arbitrary::<T>();
                assert(self.textures() == old(self).textures().after_load(file_path@, loaded, t));
            }
            return handle;
        }
        match loaded {
            Some(texture) => {
                let index = self.texture_mappings.add_named(file_path, texture);
                proof {
                    let t = arbitrary::<T>();
                    assert(self.textures() == old(self).textures().after_load(
                        file_path@,
                        loaded,
                        t,
                    ));
                }
                TextureHandle { index }
            },
            None => {
                let handle = self.checker_texture(checker);
                self.texture_mappings.set_name(file_path, handle.index);
                proof {
                    let t = choose|t: T|
                        made(*checker, old(self).checker is None, t) && #[trigger] old(self).textures().with_checker(t).checker == Some(handle) && self.textures()
                            == old(self).textures().with_checker(t).with_alias(file_path@, handle);
                    assert(self.textures() == old(self).textures().after_load(
                        file_path@,
                        loaded,
                        t,
                    ));
                }
                handle
            },
        }
    }

    /// The built-in white texture, made on first use. It stands where a material
    /// has no texture, so that the constants pass through.
    pub fn white_texture<W: Fn() -> T>(&mut self, create: &W) -> (r: TextureHandle)
        requires
            old(self).wf(),
            call_requires(*create, ()),
        ensures
            final(self).wf(),
            final(self).same_but_textures(old(self)),
            r.valid(),
            final(self).textures().textures.assets.contains_key(r.index),
            exists|t: T|
                made(*create, old(self).white is None, t) && final(self).textures()
                    == #[trigger] old(self).textures().with_white(t),
            final(self).white == Some(r),
    {
        if let Some(handle) = self.white {
            proof {
                let t = arbitrary::<T>();
                assert(self.textures() == old(self).textures().with_white(t));
            }
            return handle;
        }
        let texture = create();
        let ghost kept = texture;
        let index = self.texture_mappings.add_named("<white>", texture);
        let handle = TextureHandle { index };
        self.white = Some(handle);
        assert(self.textures() == old(self).textures().with_white(kept));
        handle
    }

    /// The built-in checkerboard, made on first use. It stands in for textures
    /// that could not be read.
    pub fn checker_texture<C: Fn() -> T>(&mut self, create: &C) -> (r: TextureHandle)
        requires
            old(self).wf(),
            call_requires(*create, ()),
        ensures
            final(self).wf(),
            final(self).same_but_textures(old(self)),
            r.valid(),
            final(self).textures().textures.assets.contains_key(r.index),
            exists|t: T|
                made(*create, old(self).checker is None, t) && final(self).textures()
                    == #[trigger] old(self).textures().with_checker(t),
            final(self).checker == Some(r),
    {
        if let Some(handle) = self.checker {
            proof {
                let t = arbitrary::<T>();
                assert(self.textures() == old(self).textures().with_checker(t));
            }
            return handle;
        }
        let texture = create();
        let ghost kept = texture;
        let index = self.texture_mappings.add_named("<checker>", texture);
        let handle = TextureHandle { index };
        self.checker = Some(handle);
        assert(self.textures() == old(self).textures().with_checker(kept));
        handle
    }

    pub fn get_texture(&self, texture_handle: &TextureHandle) -> (r: &T)
        requires
            self.texture_mappings@.assets.contains_key(texture_handle.index),
        ensures
            *r == self.texture_mappings@.assets[texture_handle.index],
    {
        self.texture_mappings.get(texture_handle.index).unwrap()
    }

    /// The packed metallic and roughness texture of two maps: white where there
    /// is neither, the one that was packed before where the pair is known, and
    /// else packed from the maps' files and uploaded. Where neither file can be
    /// read, or the upload fails, the checkerboard stands in. `None`, with nothing
    /// changed, where the maps do not fit in memory.
    pub fn load_metal_rough_texture<
        W: Fn() -> T,
        C: Fn() -> T,
        U: Fn(&Vec<u8>, u32, u32) -> Option<T>,
    >(
        &mut self,
        metal_path: Option<&str>,
        rough_path: Option<&str>,
        metal: &Option<Vec<u8>>,
        rough: &Option<Vec<u8>>,
        white: &W,
        checker: &C,
        upload: &U,
    ) -> (r: Option<TextureHandle>)
        requires
            old(self).wf(),
            call_requires(*white, ()),
            call_requires(*checker, ()),
            forall|p: &Vec<u8>, w: u32, h: u32| call_requires(*upload, (p, w, h)),
        ensures
            final(self).wf(),
            final(self).same_but_textures(old(self)),
            ({
                let key = metal_rough_key(path_view(metal_path), path_view(rough_path));
                let before = old(self).textures();
                let after = final(self).textures();
                if metal_path is None && rough_path is None {
                    &&& r is Some
                    &&& after.white == r
                    &&& exists|t: T|
                        made(*white, before.white is None, t) && after
                            == #[trigger] before.with_white(t)
                } else if before.textures.names.contains_key(key) {
                    &&& r == Some(TextureHandle { index: before.textures.names[key] })
                    &&& after == before
                } else if too_large(file_view(*metal), file_view(*rough)) {
                    &&& r is None
                    &&& after == before
                } else {
                    &&& r == Some(TextureHandle { index: after.textures.names[key] })
                    &&& after.textures.names.contains_key(key)
                    &&& exists|packed: Option<T>, t: T|
                        uploaded(*upload, file_view(*metal), file_view(*rough), packed) && made(
                            *checker,
                            before.needs_checker(key, packed),
                            t,
                        ) && after == #[trigger] before.after_load(key, packed, t)
                }
            }),
    {
        if metal_path.is_none() && rough_path.is_none() {
            return Some(self.white_texture(white));
        }
        let key = metal_rough_cache_key(metal_path, rough_path);
        if let Some(handle) = self.find_texture(key.as_str()) {
            return Some(handle);
        }
        let mr = pack_metal_rough(metal, rough);
        let ghost kept = mr;
        let packed = match mr {
            MetalRough::Missing => None,
            MetalRough::TooLarge => {
                return None;
            },
            MetalRough::Packed { width, height, pixels } => upload(&pixels, width, height),
        };
        assert(!too_large(file_view(*metal), file_view(*rough)));
        assert(uploaded(*upload, file_view(*metal), file_view(*rough), packed)) by {
            assert(is_metal_rough(kept, file_view(*metal), file_view(*rough)));
        }
        Some(self.load_texture(key.as_str(), packed, checker))
    }

    pub fn find_shader(&self, file_path: &str) -> (r: Option<ShaderHandle>)
        ensures
            match r {
                Some(h) => self.shader_mappings@.names.contains_key(file_path@)
                    && self.shader_mappings@.names[file_path@] == h.index,
                None => !self.shader_mappings@.names.contains_key(file_path@),
            },
    {
        match self.shader_mappings.find(file_path) {
            Some(index) => Some(ShaderHandle { index }),
            None => None,
        }
    }

    /// Registers a shader under its path; a path that is known keeps its shader.
    pub fn load_shader(&mut self, file_path: &str, shader: S) -> (r: ShaderHandle)
        requires
            old(self).wf(),
        ensures
            final(self).wf(),
            final(self).textures() == old(self).textures(),
            final(self).model_mappings == old(self).model_mappings,
            final(self).material_mappings == old(self).material_mappings,
            final(self).same_files(old(self)),
            final(self).shader_mappings@.names.contains_key(file_path@),
            r.index == final(self).shader_mappings@.names[file_path@],
            final(self).shader_mappings@ == if old(self).shader_mappings@.names.contains_key(file_path@) {
                old(self).shader_mappings@
            } else {
                old(self).shader_mappings@.with_asset(shader).with_name(
                    file_path@,
                    due_index(old(self).shader_mappings@.next),
                )
            },
    {
        if let Some(handle) = self.find_shader(file_path) {
            return handle;
        }
        let index = self.shader_mappings.add_named(file_path, shader);
        ShaderHandle { index }
    }

    pub fn get_shader(&self, shader_handle: &ShaderHandle) -> (r: &S)
        requires
            self.shader_mappings@.assets.contains_key(shader_handle.index),
        ensures
            *r == self.shader_mappings@.assets[shader_handle.index],
    {
        self.shader_mappings.get(shader_handle.index).unwrap()
    }

    /// Only the models may differ.
    pub open spec fn same_but_models(&self, other: &Self) -> bool {
        &&& self.textures() == other.textures()
        &&& self.shader_mappings == other.shader_mappings
        &&& self.material_mappings == other.material_mappings
        &&& self.same_files(other)
    }

    /// Registers a model under its path; a path that is known keeps its model.
    pub fn load_model(&mut self, file_path: &str, model: M) -> (r: ModelHandle)
        requires
            old(self).wf(),
        ensures
            final(self).wf(),
            final(self).same_but_models(old(self)),
            final(self).model_mappings@.names.contains_key(file_path@),
            r.index == final(self).model_mappings@.names[file_path@],
            final(self).model_mappings@ == if old(self).model_mappings@.names.contains_key(file_path@) {
                old(self).model_mappings@
            } else {
                old(self).model_mappings@.with_asset(model).with_name(
                    file_path@,
                    due_index(old(self).model_mappings@.next),
                )
            },
    {
        match self.model_mappings.find(file_path) {
            Some(index) => ModelHandle { index },
            None => {
                let index = self.model_mappings.add_named(file_path, model);
                ModelHandle { index }
            },
        }
    }

    /// Registers a model that was made from bytes in memory. A later `load_model`
    /// of the same path returns this handle; giving a path again replaces its
    /// model and keeps the handle.
    pub fn add_model_from_bytes(&mut self, file_path: &str, model: M) -> (r: ModelHandle)
        requires
            old(self).wf(),
        ensures
            final(self).wf(),
            final(self).same_but_models(old(self)),
            final(self).model_mappings@.names.contains_key(file_path@),
            r.index == final(self).model_mappings@.names[file_path@],
            final(self).model_mappings@.assets.contains_key(r.index),
            final(self).model_mappings@.assets[r.index] == model,
            final(self).model_mappings@ == if old(self).model_mappings@.names.contains_key(file_path@) {
                MappingsModel {
                    assets: old(self).model_mappings@.assets.insert(
                        old(self).model_mappings@.names[file_path@],
                        model,
                    ),
                    ..old(self).model_mappings@
                }
            } else {
                old(self).model_mappings@.with_asset(model).with_name(
                    file_path@,
                    due_index(old(self).model_mappings@.next),
                )
            },
    {
        match self.model_mappings.find(file_path) {
            Some(index) => {
                self.model_mappings.replace(index, model);
                ModelHandle { index }
            },
            None => {
                let index = self.model_mappings.add_named(file_path, model);
                ModelHandle { index }
            },
        }
    }

    pub fn get_model(&mut self, model_handle: &ModelHandle) -> (r: Option<&mut M>)
        ensures
            match r {
                Some(m) => {
                    &&& old(self).model_mappings@.assets.contains_key(model_handle.index)
                    &&& *m == old(self).model_mappings@.assets[model_handle.index]
                    &&& final(self).model_mappings@ == (MappingsModel {
                        assets: old(self).model_mappings@.assets.insert(
                            model_handle.index,
                            *final(m),
                        ),
                        ..old(self).model_mappings@
                    })
                },
                None => {
                    &&& !old(self).model_mappings@.assets.contains_key(model_handle.index)
                    &&& final(self).model_mappings@ == old(self).model_mappings@
                },
            },
            final(self).same_but_models(old(self)),
            old(self).wf() ==> final(self).wf(),
    {
        self.model_mappings.get_mut(model_handle.index)
    }

    /// The models by handle index.
    pub fn get_model_mappings(&mut self) -> (r: &mut HashMap<u32, M>)
        ensures
            (*r)@ == old(self).model_mappings@.assets,
            final(self).model_mappings@ == (MappingsModel {
                assets: final(r)@,
                ..old(self).model_mappings@
            }),
            final(self).same_but_models(old(self)),
    {
        self.model_mappings.assets_mut()
    }

    /// Every loaded model by path, in the order of the paths.
    pub fn get_model_resources(&self) -> (r: Vec<Named<u32>>)
        ensures
            lists_names(r@, self.model_mappings@.names),
    {
        self.model_mappings.sorted_names()
    }

    /// Every loaded material by name, in the order of the names.
    pub fn get_material_resources(&self) -> (r: Vec<Named<u32>>)
        ensures
            lists_names(r@, self.material_mappings@.names),
    {
        self.material_mappings.sorted_names()
    }

    /// The models, for changes, beside the materials.
    pub fn get_models_and_materials(&mut self) -> (r: (
        &mut HashMap<u32, M>,
        &HashMap<u32, Material<B>>,
    ))
        ensures
            (*r.0)@ == old(self).model_mappings@.assets,
            r.1@ == old(self).material_mappings@.assets,
            final(self).model_mappings@ == (MappingsModel {
                assets: final(r.0)@,
                ..old(self).model_mappings@
            }),
            final(self).same_but_models(old(self)),
    {
        (self.model_mappings.assets_mut(), self.material_mappings.assets())
    }

    pub fn get_material(&self, handle: &MaterialHandle) -> (r: Option<&Material<B>>)
        ensures
            match r {
                Some(m) => self.material_mappings@.assets.contains_key(handle.index)
                    && self.material_mappings@.assets[handle.index] == *m,
                None => !self.material_mappings@.assets.contains_key(handle.index),
            },
    {
        self.material_mappings.get(handle.index)
    }

    /// Only the materials may differ.
    pub open spec fn same_but_materials(&self, other: &Self) -> bool {
        &&& self.textures() == other.textures()
        &&& self.shader_mappings == other.shader_mappings
        &&& self.model_mappings == other.model_mappings
        &&& self.same_files(other)
    }

    /// `m` wears the two textures, with the constants of `desc`, and was bound by
    /// `bind`.
    pub open spec fn wears<G: Fn(&T, &T) -> B>(
        &self,
        m: Material<B>,
        desc: MaterialDesc,
        color: TextureHandle,
        mr: TextureHandle,
        bind: G,
    ) -> bool {
        &&& m.color_texture == color
        &&& m.mr_texture == mr
        &&& m.color_constant == desc.color_constant
        &&& m.mr_constant == desc.mr_constant
        &&& call_ensures(
            bind,
            (
                &self.texture_mappings@.assets[color.index],
                &self.texture_mappings@.assets[mr.index],
            ),
            m.bind_group,
        )
    }

    /// A material of textures that are there. It is not registered.
    pub fn make_material<G: Fn(&T, &T) -> B>(
        &self,
        desc: &MaterialDesc,
        color_texture: TextureHandle,
        mr_texture: TextureHandle,
        bind: &G,
    ) -> (r: Material<B>)
        requires
            self.texture_mappings@.assets.contains_key(color_texture.index),
            self.texture_mappings@.assets.contains_key(mr_texture.index),
            forall|c: &T, m: &T| call_requires(*bind, (c, m)),
        ensures
            self.wears(r, *desc, color_texture, mr_texture, *bind),
    {
        let color = self.get_texture(&color_texture);
        let mr = self.get_texture(&mr_texture);
        Material {
            color_texture,
            mr_texture,
            color_constant: desc.color_constant,
            mr_constant: desc.mr_constant,
            bind_group: bind(color, mr),
        }
    }

    /// Makes a material of textures that are there and registers it under `name`.
    pub fn build_material<G: Fn(&T, &T) -> B>(
        &mut self,
        name: &str,
        desc: &MaterialDesc,
        color_texture: TextureHandle,
        mr_texture: TextureHandle,
        bind: &G,
    ) -> (r: MaterialHandle)
        requires
            old(self).wf(),
            old(self).texture_mappings@.assets.contains_key(color_texture.index),
            old(self).texture_mappings@.assets.contains_key(mr_texture.index),
            forall|c: &T, m: &T| call_requires(*bind, (c, m)),
        ensures
            final(self).wf(),
            final(self).same_but_materials(old(self)),
            r.index == due_index(old(self).material_mappings@.next),
            exists|m: Material<B>|
                final(self).wears(m, *desc, color_texture, mr_texture, *bind) && final(self).material_mappings@ == #[trigger] old(self).material_mappings@.with_asset(
                    m,
                ).with_name(name@, r.index),
    {
        let material = self.make_material(desc, color_texture, mr_texture, bind);
        let ghost m = material;
        let index = self.material_mappings.add_named(name, material);
        assert(self.wears(m, *desc, color_texture, mr_texture, *bind));
        assert(self.material_mappings@ == old(self).material_mappings@.with_asset(m).with_name(
            name@,
            index,
        ));
        MaterialHandle { index }
    }

    /// The maps of a material have yet to be packed, and do not fit in memory.
    pub open spec fn packs_too_large(
        &self,
        desc: MaterialDesc,
        metal: Option<Seq<u8>>,
        rough: Option<Seq<u8>>,
    ) -> bool {
        &&& too_large(metal, rough)
        &&& !(desc.metal_texture is None && desc.rough_texture is None)
        &&& !self.texture_mappings@.names.contains_key(
            metal_rough_key(opt_view(desc.metal_texture), opt_view(desc.rough_texture)),
        )
    }

    /// Loads the textures that a material wears.
    fn load_worn_textures<
        W: Fn() -> T,
        C: Fn() -> T,
        U: Fn(&Vec<u8>, u32, u32) -> Option<T>,
    >(
        &mut self,
        desc: &MaterialDesc,
        color: Option<T>,
        metal: &Option<Vec<u8>>,
        rough: &Option<Vec<u8>>,
        white: &W,
        checker: &C,
        upload: &U,
    ) -> (r: Option<(TextureHandle, TextureHandle)>)
        requires
            old(self).wf(),
            call_requires(*white, ()),
            call_requires(*checker, ()),
            forall|p: &Vec<u8>, w: u32, h: u32| call_requires(*upload, (p, w, h)),
        ensures
            final(self).wf(),
            final(self).same_but_textures(old(self)),
            r matches Some(pair) ==> {
                &&& final(self).texture_mappings@.assets.contains_key(pair.0.index)
                &&& final(self).texture_mappings@.assets.contains_key(pair.1.index)
                &&& old(self).loads_worn(
                    final(self),
                    *desc,
                    color,
                    file_view(*metal),
                    file_view(*rough),
                    *white,
                    *checker,
                    *upload,
                    pair,
                )
            },
            r is None ==> old(self).packs_too_large(*desc, file_view(*metal), file_view(*rough)),
    {
        let white_handle = self.white_texture(white);
        let ghost w = choose|t: T|
            made(*white, old(self).white is None, t) && self.textures() == #[trigger] old(self).textures().with_white(t);
        let ghost one = self.textures();
        let ghost mut c1 = arbitrary::<T>();
        let color_handle = match &desc.color_texture {
            Some(path) => {
                let h = self.load_texture(path.as_str(), color, checker);
                proof {
                    c1 =
                    choose|t: T|
                        made(*checker, one.needs_checker(path@, color), t) && self.textures()
                            == #[trigger] one.after_load(path@, color, t);
                }
                h
            },
            None => white_handle,
        };
        let ghost two = self.textures();
        assert(two.textures.assets.contains_key(color_handle.index));
        let mr_handle = match self.load_metal_rough_texture(
            opt_str(&desc.metal_texture),
            opt_str(&desc.rough_texture),
            metal,
            rough,
            white,
            checker,
            upload,
        ) {
            Some(h) => h,
            None => {
                return None;
            },
        };
        proof {
            let key = metal_rough_key(opt_view(desc.metal_texture), opt_view(desc.rough_texture));
            let mut packed: Option<T> = None;
            let mut c2 = arbitrary::<T>();
            if !(desc.metal_texture is None && desc.rough_texture is None)
                && !two.textures.names.contains_key(key) {
                let pair = choose|packed: Option<T>, t: T|
                    uploaded(*upload, file_view(*metal), file_view(*rough), packed) && made(
                        *checker,
                        two.needs_checker(key, packed),
                        t,
                    ) && self.textures() == #[trigger] two.after_load(key, packed, t);
                packed = pair.0;
                c2 = pair.1;
            }
            let worn = worn_textures(old(self).textures(), *desc, color, packed, w, c1, c2);
            assert(worn.after == self.textures());
            assert(worn.color == color_handle);
            assert(worn.mr == mr_handle);
        }
        Some((color_handle, mr_handle))
    }

    /// `after` is what loading the textures of a material leaves of `self`, and
    /// `pair` the handles that the material wears.
    pub open spec fn loads_worn<
        W: Fn() -> T,
        C: Fn() -> T,
        U: Fn(&Vec<u8>, u32, u32) -> Option<T>,
    >(
        &self,
        after: &Self,
        desc: MaterialDesc,
        color: Option<T>,
        metal: Option<Seq<u8>>,
        rough: Option<Seq<u8>>,
        white: W,
        checker: C,
        upload: U,
        pair: (TextureHandle, TextureHandle),
    ) -> bool {
        exists|packed: Option<T>, w: T, c1: T, c2: T|
            {
                let worn = #[trigger] worn_textures(
                    self.textures(),
                    desc,
                    color,
                    packed,
                    w,
                    c1,
                    c2,
                );
                let one = self.textures().with_white(w);
                let two = match desc.color_texture {
                    Some(p) => one.after_load(p@, color, c1),
                    None => one,
                };
                let key = metal_rough_key(
                    opt_view(desc.metal_texture),
                    opt_view(desc.rough_texture),
                );
                let packs = !(desc.metal_texture is None && desc.rough_texture is None)
                    && !two.textures.names.contains_key(key);
                &&& made(white, self.white is None, w)
                &&& desc.color_texture matches Some(p) ==> made(
                    checker,
                    one.needs_checker(p@, color),
                    c1,
                )
                &&& packs ==> uploaded(upload, metal, rough, packed) && made(
                    checker,
                    two.needs_checker(key, packed),
                    c2,
                )
                &&& after.textures() == worn.after
                &&& pair == (worn.color, worn.mr)
            }
    }

    /// Registers a material under `name`, with its textures; a name that is known
    /// keeps its material. `color`, `metal` and `rough` are what could be read of
    /// the files that `desc` names. `None` where the metallic and roughness maps
    /// do not fit in memory; no material is registered then.
    pub fn load_material<
        W: Fn() -> T,
        C: Fn() -> T,
        U: Fn(&Vec<u8>, u32, u32) -> Option<T>,
        G: Fn(&T, &T) -> B,
    >(
        &mut self,
        name: &str,
        desc: &MaterialDesc,
        color: Option<T>,
        metal: &Option<Vec<u8>>,
        rough: &Option<Vec<u8>>,
        white: &W,
        checker: &C,
        upload: &U,
        bind: &G,
    ) -> (r: Option<MaterialHandle>)
        requires
            old(self).wf(),
            call_requires(*white, ()),
            call_requires(*checker, ()),
            forall|p: &Vec<u8>, w: u32, h: u32| call_requires(*upload, (p, w, h)),
            forall|c: &T, m: &T| call_requires(*bind, (c, m)),
        ensures
            final(self).wf(),
            final(self).shader_mappings == old(self).shader_mappings,
            final(self).model_mappings == old(self).model_mappings,
            final(self).same_files(old(self)),
            old(self).material_mappings@.names.contains_key(name@) ==> {
                &&& *final(self) == *old(self)
                &&& r == Some(MaterialHandle { index: old(self).material_mappings@.names[name@] })
            },
            !old(self).material_mappings@.names.contains_key(name@) ==> match r {
                Some(h) => {
                    &&& h.index == due_index(old(self).material_mappings@.next)
                    &&& exists|m: Material<B>|
                        {
                            &&& final(self).wears(m, *desc, m.color_texture, m.mr_texture, *bind)
                            &&& old(self).loads_worn(
                                final(self),
                                *desc,
                                color,
                                file_view(*metal),
                                file_view(*rough),
                                *white,
                                *checker,
                                *upload,
                                (m.color_texture, m.mr_texture),
                            )
                            &&& final(self).material_mappings@ == #[trigger] old(self).material_mappings@.with_asset(m).with_name(name@, h.index)
                        }
                },
                None => {
                    &&& old(self).packs_too_large(*desc, file_view(*metal), file_view(*rough))
                    &&& final(self).material_mappings == old(self).material_mappings
                },
            },
    {
        if let Some(index) = self.material_mappings.find(name) {
            return Some(MaterialHandle { index });
        }
        let pair = match self.load_worn_textures(
            desc,
            color,
            metal,
            rough,
            white,
            checker,
            upload,
        ) {
            Some(pair) => pair,
            None => {
                return None;
            },
        };
        let ghost mid = *self;
        let handle = self.build_material(name, desc, pair.0, pair.1, bind);
        proof {
            let m = choose|m: Material<B>|
                self.wears(m, *desc, pair.0, pair.1, *bind) && self.material_mappings@
                    == #[trigger] mid.material_mappings@.with_asset(m).with_name(
                    name@,
                    handle.index,
                );
            assert(old(self).loads_worn(
                self,
                *desc,
                color,
                file_view(*metal),
                file_view(*rough),
                *white,
                *checker,
                *upload,
                pair,
            ));
            assert(self.material_mappings@ == old(self).material_mappings@.with_asset(m).with_name(
                name@,
                handle.index,
            ));
        }
        Some(handle)
    }

    /// Registers a material without textures under `name`; a name that is known
    /// keeps its material. Texture paths of `desc` are ignored.
    pub fn create_material<W: Fn() -> T, G: Fn(&T, &T) -> B>(
        &mut self,
        name: &str,
        desc: &MaterialDesc,
        white: &W,
        bind: &G,
    ) -> (r: MaterialHandle)
        requires
            old(self).wf(),
            call_requires(*white, ()),
            forall|c: &T, m: &T| call_requires(*bind, (c, m)),
        ensures
            final(self).wf(),
            final(self).shader_mappings == old(self).shader_mappings,
            final(self).model_mappings == old(self).model_mappings,
            final(self).same_files(old(self)),
            old(self).material_mappings@.names.contains_key(name@) ==> {
                &&& *final(self) == *old(self)
                &&& r.index == old(self).material_mappings@.names[name@]
            },
            !old(self).material_mappings@.names.contains_key(name@) ==> {
                &&& r.index == due_index(old(self).material_mappings@.next)
                &&& exists|t: T|
                    made(*white, old(self).white is None, t) && final(self).textures()
                        == #[trigger] old(self).textures().with_white(t)
                &&& exists|m: Material<B>|
                    final(self).wears(m, *desc, final(self).white->0, final(self).white->0, *bind)
                        && final(self).material_mappings@ == #[trigger] old(self).material_mappings@.with_asset(m).with_name(name@, r.index)
            },
    {
        if let Some(index) = self.material_mappings.find(name) {
            return MaterialHandle { index };
        }
        let handle = self.white_texture(white);
        self.build_material(name, desc, handle, handle, bind)
    }

    /// Overwrites the constants of a material; a handle that names none is
    /// ignored.
    pub fn update_material_constants(
        &mut self,
        handle: &MaterialHandle,
        color_constant: &Vec4,
        mr_constant: &Vec4,
    )
        requires
            old(self).wf(),
        ensures
            final(self).wf(),
            final(self).same_but_materials(old(self)),
            final(self).material_mappings@ == if old(self).material_mappings@.assets.contains_key(handle.index) {
                MappingsModel {
                    assets: old(self).material_mappings@.assets.insert(
                        handle.index,
                        Material {
                            color_constant: *color_constant,
                            mr_constant: *mr_constant,
                            ..old(self).material_mappings@.assets[handle.index]
                        },
                    ),
                    ..old(self).material_mappings@
                }
            } else {
                old(self).material_mappings@
            },
    {
        if let Some(material) = self.material_mappings.get_mut(handle.index) {
            material.color_constant = *color_constant;
            material.mr_constant = *mr_constant;
        }
    }

    /// Makes a material anew and puts it in place of the one at `handle`, which
    /// stays valid. False, with the materials unchanged, where the metallic and
    /// roughness maps do not fit in memory.
    pub fn reload_material<
        W: Fn() -> T,
        C: Fn() -> T,
        U: Fn(&Vec<u8>, u32, u32) -> Option<T>,
        G: Fn(&T, &T) -> B,
    >(
        &mut self,
        handle: &MaterialHandle,
        desc: &MaterialDesc,
        color: Option<T>,
        metal: &Option<Vec<u8>>,
        rough: &Option<Vec<u8>>,
        white: &W,
        checker: &C,
        upload: &U,
        bind: &G,
    ) -> (r: bool)
        requires
            old(self).wf(),
            call_requires(*white, ()),
            call_requires(*checker, ()),
            forall|p: &Vec<u8>, w: u32, h: u32| call_requires(*upload, (p, w, h)),
            forall|c: &T, m: &T| call_requires(*bind, (c, m)),
        ensures
            final(self).wf(),
            final(self).shader_mappings == old(self).shader_mappings,
            final(self).model_mappings == old(self).model_mappings,
            final(self).same_files(old(self)),
            !r ==> old(self).packs_too_large(*desc, file_view(*metal), file_view(*rough)) && final(self).material_mappings == old(self).material_mappings,
            r ==> exists|m: Material<B>|
                {
                    &&& final(self).wears(m, *desc, m.color_texture, m.mr_texture, *bind)
                    &&& old(self).loads_worn(
                        final(self),
                        *desc,
                        color,
                        file_view(*metal),
                        file_view(*rough),
                        *white,
                        *checker,
                        *upload,
                        (m.color_texture, m.mr_texture),
                    )
                    &&& final(self).material_mappings@ == (MappingsModel {
                        assets: #[trigger] old(self).material_mappings@.assets.insert(
                            handle.index,
                            m,
                        ),
                        ..old(self).material_mappings@
                    })
                },
    {
        let pair = match self.load_worn_textures(
            desc,
            color,
            metal,
            rough,
            white,
            checker,
            upload,
        ) {
            Some(pair) => pair,
            None => {
                return false;
            },
        };
        let material = self.make_material(desc, pair.0, pair.1, bind);
        let ghost m = material;
        self.material_mappings.replace(handle.index, material);
        proof {
            assert(self.wears(m, *desc, pair.0, pair.1, *bind));
            assert(old(self).loads_worn(
                self,
                *desc,
                color,
                file_view(*metal),
                file_view(*rough),
                *white,
                *checker,
                *upload,
                pair,
            ));
            assert(self.material_mappings@.assets == old(self).material_mappings@.assets.insert(
                handle.index,
                m,
            ));
        }
        true
    }
}

/// A path is read from where it stands, or from somewhere under the working directory;
/// either way the path itself stays at its end. One with a drive letter, or too short
/// for one, stands as it is, and so does one that belongs to neither kind of assets.
/// The engine's own lie beside the program or in the engine's directory, and the game's
/// beside the program where they are looked for.
pub proof fn paths_are_resolved(
    path: &str,
    cwd: &str,
    engine_beside: bool,
    engine_dir: &str,
    game: bool,
    r: String,
)
    requires
        call_ensures(resolve_asset_path, (path, cwd, engine_beside, engine_dir, game), r),
    ensures
        ({
            let engine = contains_text(path@, "engine_assets"@);
            let games = contains_text(path@, "game_assets"@);
            &&& path@.is_suffix_of(r@)
            &&& r@ == path@ || cwd@.is_prefix_of(r@)
            &&& path@.len() < 2 ==> r@ == path@
            &&& path@.len() >= 2 && path@[1] == ':' ==> r@ == path@
            &&& !engine && !(game && games) ==> r@ == path@
            &&& path@.len() >= 2 && path@[1] != ':' && engine ==> {
                &&& engine_beside ==> r@ == cwd@ + seq!['/', '.', '/'] + path@
                &&& !engine_beside ==> r@ == cwd@ + engine_dir@ + path@
            }
            &&& path@.len() >= 2 && path@[1] != ':' && !engine && game && games ==> r@ == cwd@ + seq![
                '/',
                '.',
                '/',
            ] + path@
        }),
{
    reveal_strlit("/./");
    assert("/./"@ =~= seq!['/', '.', '/']);
    assert(path@.is_suffix_of(cwd@ + "/./"@ + path@));
    assert(path@.is_suffix_of(cwd@ + engine_dir@ + path@));
    assert(cwd@.is_prefix_of(cwd@ + "/./"@ + path@));
    assert(cwd@.is_prefix_of(cwd@ + engine_dir@ + path@));
}

/// Two pairs of maps share a key only where they are the same pair, as long as the
/// metallic paths hold no bar; a missing path counts as an empty one. The key is the
/// mark of such pairs, the metallic path, a bar and the roughness path.
pub proof fn pairs_have_their_own_keys(
    metal: Option<Seq<char>>,
    rough: Option<Seq<char>>,
    metal_2: Option<Seq<char>>,
    rough_2: Option<Seq<char>>,
)
    requires
        metal matches Some(p) ==> !p.contains('|'),
        metal_2 matches Some(p) ==> !p.contains('|'),
    ensures
        metal_rough_key(metal, rough) == metal_rough_key(metal_2, rough_2) ==> {
            &&& metal.unwrap_or(seq![]) == metal_2.unwrap_or(seq![])
            &&& rough.unwrap_or(seq![]) == rough_2.unwrap_or(seq![])
        },
        "<mr>"@.is_prefix_of(metal_rough_key(metal, rough)),
        rough.unwrap_or(seq![]).is_suffix_of(metal_rough_key(metal, rough)),
        metal_rough_key(metal, rough).len() == 5 + metal.unwrap_or(seq![]).len() + rough.unwrap_or(
            seq![],
        ).len(),
{
    reveal_strlit("<mr>");
    reveal_strlit("|");
    let a = metal.unwrap_or(seq![]);
    let b = rough.unwrap_or(seq![]);
    let c = metal_2.unwrap_or(seq![]);
    let d = rough_2.unwrap_or(seq![]);
    let k = metal_rough_key(metal, rough);
    let l = metal_rough_key(metal_2, rough_2);
    assert(k == "<mr>"@ + a + "|"@ + b);
    assert(l == "<mr>"@ + c + "|"@ + d);
    assert(k[4 + a.len() as int] == '|');
    assert(l[4 + c.len() as int] == '|');
    assert(!a.contains('|') && !c.contains('|'));
    if k == l {
        if a.len() < c.len() {
            assert(l[4 + a.len() as int] == c[a.len() as int]);
            assert(c.contains(c[a.len() as int]));
            assert(false);
        }
        if c.len() < a.len() {
            assert(k[4 + c.len() as int] == a[c.len() as int]);
            assert(a.contains(a[c.len() as int]));
            assert(false);
        }
        assert forall|i: int| 0 <= i < a.len() implies a[i] == c[i] by {
            assert(k[4 + i] == a[i] && l[4 + i] == c[i]);
        }
        assert(a =~= c);
        assert forall|i: int| 0 <= i < b.len() implies b[i] == d[i] by {
            assert(k[5 + a.len() + i] == b[i] && l[5 + c.len() + i] == d[i]);
        }
        assert(b =~= d);
    }
}

/// A path that is known keeps its texture, and nothing changes. A new one stands for
/// the texture that was read, under an index of its own; where none could be read it
/// stands for the checkerboard. No other name changes what it stands for but the
/// checkerboard's own.
pub proof fn loaded_textures_are_found<T, S, M, B, C: Fn() -> T>(
    manager: &mut AssetManager<T, S, M, B>,
    path: &str,
    loaded: Option<T>,
    checker: C,
    r: TextureHandle,
    other: Seq<char>,
)
    requires
        old(manager).wf(),
        call_ensures(
            AssetManager::<T, S, M, B>::load_texture::<C>,
            (manager, path, loaded, &checker),
            r,
        ),
    ensures
        ({
            let before = old(manager).texture_mappings@;
            let after = final(manager).texture_mappings@;
            let known = before.names.contains_key(path@);
            &&& after.names.contains_key(path@) && after.names[path@] == r.index
            &&& known ==> after == before && r.index == before.names[path@]
            &&& !known && loaded is Some ==> {
                &&& after.assets == before.assets.insert(r.index, loaded->0)
                &&& r.index == if before.next == 0xffff_ffff {
                    0
                } else {
                    before.next
                }
                &&& after.next == r.index + 1
            }
            &&& !known && loaded is None ==> {
                &&& final(manager).checker == Some(r)
                &&& old(manager).checker is Some ==> after.assets == before.assets && r == old(
                    manager,
                ).checker->0
                &&& old(manager).checker is None ==> call_ensures(
                    checker,
                    (),
                    after.assets[r.index],
                )
            }
            &&& other != path@ && other != "<checker>"@ ==> (after.names.contains_key(other)
                <==> before.names.contains_key(other)) && after.names[other] == before.names[other]
        }),
{
}

/// The built-in white texture is made by its maker on first use and kept from then on;
/// so is the checkerboard.
pub proof fn built_in_textures_are_made_by_their_makers<T, S, M, B, W: Fn() -> T>(
    manager: &mut AssetManager<T, S, M, B>,
    create: W,
    r: TextureHandle,
)
    requires
        old(manager).wf(),
        call_ensures(
            AssetManager::<T, S, M, B>::white_texture::<W>,
            (manager, &create),
            r,
        ),
    ensures
        final(manager).white == Some(r),
        final(manager).checker == old(manager).checker,
        old(manager).white is Some ==> final(manager).texture_mappings@ == old(
            manager,
        ).texture_mappings@ && old(manager).white == Some(r),
        old(manager).white is None ==> {
            let before = old(manager).texture_mappings@;
            let after = final(manager).texture_mappings@;
            &&& call_ensures(create, (), after.assets[r.index])
            &&& after.assets == before.assets.insert(r.index, after.assets[r.index])
            &&& after.names == before.names.insert("<white>"@, r.index)
        },
{
}

/// The checkerboard is made by its maker on first use and kept from then on.
pub proof fn the_checkerboard_is_made_by_its_maker<T, S, M, B, C: Fn() -> T>(
    manager: &mut AssetManager<T, S, M, B>,
    create: C,
    r: TextureHandle,
)
    requires
        old(manager).wf(),
        call_ensures(
            AssetManager::<T, S, M, B>::checker_texture::<C>,
            (manager, &create),
            r,
        ),
    ensures
        final(manager).checker == Some(r),
        final(manager).white == old(manager).white,
        old(manager).checker is Some ==> final(manager).texture_mappings@ == old(
            manager,
        ).texture_mappings@ && old(manager).checker == Some(r),
        old(manager).checker is None ==> {
            let before = old(manager).texture_mappings@;
            let after = final(manager).texture_mappings@;
            &&& call_ensures(create, (), after.assets[r.index])
            &&& after.assets == before.assets.insert(r.index, after.assets[r.index])
            &&& after.names == before.names.insert("<checker>"@, r.index)
        },
{
}

/// A path that is known keeps its shader; a new one stands for the shader given.
pub proof fn loaded_shaders_are_found<T, S, M, B>(
    manager: &mut AssetManager<T, S, M, B>,
    path: &str,
    shader: S,
    r: ShaderHandle,
)
    requires
        old(manager).wf(),
        call_ensures(AssetManager::<T, S, M, B>::load_shader, (manager, path, shader), r),
    ensures
        ({
            let before = old(manager).shader_mappings@;
            let after = final(manager).shader_mappings@;
            &&& after.names == before.names.insert(path@, r.index)
            &&& before.names.contains_key(path@) ==> after == before
            &&& !before.names.contains_key(path@) ==> after.assets == before.assets.insert(
                r.index,
                shader,
            ) && r.index == if before.next == 0xffff_ffff {
                0
            } else {
                before.next
            }
        }),
{
    let before = old(manager).shader_mappings@;
    if before.names.contains_key(path@) {
        assert(before.names.insert(path@, before.names[path@]) =~= before.names);
    }
}

/// A path that is known keeps its model; a new one stands for the model given.
pub proof fn loaded_models_are_found<T, S, M, B>(
    manager: &mut AssetManager<T, S, M, B>,
    path: &str,
    model: M,
    r: ModelHandle,
)
    requires
        old(manager).wf(),
        call_ensures(AssetManager::<T, S, M, B>::load_model, (manager, path, model), r),
    ensures
        ({
            let before = old(manager).model_mappings@;
            let after = final(manager).model_mappings@;
            &&& after.names == before.names.insert(path@, r.index)
            &&& before.names.contains_key(path@) ==> after == before
            &&& !before.names.contains_key(path@) ==> after.assets == before.assets.insert(
                r.index,
                model,
            ) && r.index == if before.next == 0xffff_ffff {
                0
            } else {
                before.next
            }
        }),
{
    let before = old(manager).model_mappings@;
    if before.names.contains_key(path@) {
        assert(before.names.insert(path@, before.names[path@]) =~= before.names);
    }
}

/// A model that is given for a path is the path's model from then on: under the handle
/// that the path had, if it had one, and else under a new one.
pub proof fn given_models_replace_their_path<T, S, M, B>(
    manager: &mut AssetManager<T, S, M, B>,
    path: &str,
    model: M,
    r: ModelHandle,
)
    requires
        old(manager).wf(),
        call_ensures(
            AssetManager::<T, S, M, B>::add_model_from_bytes,
            (manager, path, model),
            r,
        ),
    ensures
        ({
            let before = old(manager).model_mappings@;
            let after = final(manager).model_mappings@;
            &&& after.names == before.names.insert(path@, r.index)
            &&& after.assets == before.assets.insert(r.index, model)
            &&& r.index == if before.names.contains_key(path@) {
                before.names[path@]
            } else if before.next == 0xffff_ffff {
                0
            } else {
                before.next
            }
        }),
{
    let before = old(manager).model_mappings@;
    if before.names.contains_key(path@) {
        assert(before.names.insert(path@, before.names[path@]) =~= before.names);
    }
}

/// New constants reach the material at the handle and no other, and nothing else of it
/// changes; without such a material nothing changes at all.
pub proof fn constants_reach_their_material<T, S, M, B>(
    manager: &mut AssetManager<T, S, M, B>,
    handle: MaterialHandle,
    color: Vec4,
    mr: Vec4,
    other: u32,
)
    requires
        old(manager).wf(),
        call_ensures(
            AssetManager::<T, S, M, B>::update_material_constants,
            (manager, &handle, &color, &mr),
            (),
        ),
    ensures
        ({
            let before = old(manager).material_mappings@;
            let after = final(manager).material_mappings@;
            &&& after.names == before.names
            &&& after.assets.contains_key(other) <==> before.assets.contains_key(other)
            &&& other != handle.index ==> after.assets[other] == before.assets[other]
            &&& before.assets.contains_key(handle.index) ==> {
                let (m, n) = (before.assets[handle.index], after.assets[handle.index]);
                &&& n.color_constant == color
                &&& n.mr_constant == mr
                &&& n.color_texture == m.color_texture
                &&& n.mr_texture == m.mr_texture
                &&& n.bind_group == m.bind_group
            }
        }),
{
}

/// What a material wears: white where it names no texture; else its color texture, which
/// is the one that was read under its path, or the one that the path stood for before,
/// or the checkerboard. The same holds of its pair of maps under the pair's key.
pub proof fn materials_wear_their_textures<T>(
    before: TextureModel<T>,
    desc: MaterialDesc,
    color: Option<T>,
    packed: Option<T>,
    white: T,
    checker: T,
    checker_2: T,
)
    requires
        before.wf(),
        before.textures.fresh_ahead(),
        before.textures.next < u32::MAX - 8,
        desc.color_texture matches Some(p) ==> p@ != "<white>"@ && p@ != "<checker>"@,
    ensures
        ({
            let worn = worn_textures(before, desc, color, packed, white, checker, checker_2);
            let names = worn.after.textures.names;
            let assets = worn.after.textures.assets;
            let metal = opt_view(desc.metal_texture);
            let rough = opt_view(desc.rough_texture);
            let key = metal_rough_key(metal, rough);
            &&& desc.color_texture is None ==> Some(worn.color) == worn.after.white
            &&& metal is None && rough is None ==> Some(worn.mr) == worn.after.white
            &&& before.white is None ==> worn.after.white is Some
                && assets[worn.after.white->0.index] == white
            &&& desc.color_texture matches Some(p) ==> {
                &&& names.contains_key(p@) && names[p@] == worn.color.index
                &&& before.textures.names.contains_key(p@) ==> worn.color.index
                    == before.textures.names[p@]
                &&& !before.textures.names.contains_key(p@) && color is Some
                    ==> assets.contains_key(worn.color.index) && assets[worn.color.index] == color->0
                &&& !before.textures.names.contains_key(p@) && color is None ==> Some(worn.color)
                    == worn.after.checker
            }
            &&& !(metal is None && rough is None) ==> {
                &&& names.contains_key(key) && names[key] == worn.mr.index
                &&& before.textures.names.contains_key(key) ==> worn.mr.index
                    == before.textures.names[key]
                &&& !before.textures.names.contains_key(key) && opt_view(desc.color_texture) != Some(
                    key,
                ) && packed is Some ==> assets.contains_key(worn.mr.index) && assets[worn.mr.index]
                    == packed->0
                &&& !before.textures.names.contains_key(key) && opt_view(desc.color_texture) != Some(
                    key,
                ) && packed is None ==> Some(worn.mr) == worn.after.checker
            }
        }),
{
    reveal_strlit("<mr>");
    reveal_strlit("|");
    reveal_strlit("<white>");
    reveal_strlit("<checker>");
    let key = metal_rough_key(opt_view(desc.metal_texture), opt_view(desc.rough_texture));
    assert(key[1] == 'm');
    assert("<white>"@[1] == 'w' && "<checker>"@[1] == 'c');
}

/// A material that is made wears the handles it was given, with its own constants.
pub proof fn materials_keep_their_constants<T, S, M, B, G: Fn(&T, &T) -> B>(
    manager: AssetManager<T, S, M, B>,
    desc: MaterialDesc,
    color: TextureHandle,
    mr: TextureHandle,
    bind: G,
    r: Material<B>,
)
    requires
        call_ensures(
            AssetManager::<T, S, M, B>::make_material::<G>,
            (&manager, &desc, color, mr, &bind),
            r,
        ),
    ensures
        r.color_texture == color,
        r.mr_texture == mr,
        r.color_constant == desc.color_constant,
        r.mr_constant == desc.mr_constant,
        call_ensures(
            bind,
            (
                &manager.texture_mappings@.assets[color.index],
                &manager.texture_mappings@.assets[mr.index],
            ),
            r.bind_group,
        ),
{
}

proof fn lemma_texts(files: Seq<TextFile>, name: Seq<char>)
    ensures
        texts_by_name(files).contains_key(name) <==> exists|i: int|
            0 <= i < files.len() && (#[trigger] files[i]).name@ == name,
        forall|i: int|
            0 <= i < files.len() && (#[trigger] files[i]).name@ == name && (forall|j: int|
                i < j < files.len() ==> (#[trigger] files[j]).name@ != name) ==> texts_by_name(
                files,
            )[name] == files[i].text,
    decreases files.len(),
{
    if files.len() > 0 {
        let rest = files.drop_last();
        lemma_texts(rest, name);
        assert(files.last() == files[files.len() - 1]);
        if texts_by_name(files).contains_key(name) && files.last().name@ != name {
            let i = choose|i: int| 0 <= i < rest.len() && (#[trigger] rest[i]).name@ == name;
            assert(files[i].name@ == name);
        }
        assert forall|i: int|
            0 <= i < files.len() && (#[trigger] files[i]).name@ == name && (forall|j: int|
                i < j < files.len() ==> (#[trigger] files[j]).name@ != name) implies texts_by_name(
            files,
        )[name] == files[i].text by {
            if i < rest.len() {
                assert(rest[i] == files[i]);
                assert forall|j: int| i < j < rest.len() implies (#[trigger] rest[j]).name@ != name by {
                    assert(rest[j] == files[j]);
                }
                assert(files[files.len() - 1].name@ != name);
            }
        }
        if exists|i: int| 0 <= i < files.len() && (#[trigger] files[i]).name@ == name {
            let i = choose|i: int| 0 <= i < files.len() && (#[trigger] files[i]).name@ == name;
            if i < rest.len() {
                assert(rest[i].name@ == name);
            }
        }
    }
}

/// A built-in text is found exactly under the names of the files; of several files of
/// one name it is the last one's.
pub proof fn the_last_text_counts<T, S, M, B>(
    texts: Vec<TextFile>,
    files: Vec<ByteFile>,
    r: AssetManager<T, S, M, B>,
    name: Seq<char>,
    at: int,
)
    requires
        call_ensures(AssetManager::<T, S, M, B>::new, (texts, files), r),
        0 <= at < texts@.len(),
    ensures
        r.file_to_string_buffer@.contains_key(name) <==> exists|i: int|
            0 <= i < texts@.len() && (#[trigger] texts@[i]).name@ == name,
        texts@[at].name@ == name && (forall|j: int|
            at < j < texts@.len() ==> (#[trigger] texts@[j]).name@ != name)
            ==> r.file_to_string_buffer@[name] == texts@[at].text,
{
    lemma_texts(texts@, name);
}

proof fn lemma_bytes(files: Seq<ByteFile>, name: Seq<char>)
    ensures
        bytes_by_name(files).contains_key(name) <==> exists|i: int|
            0 <= i < files.len() && (#[trigger] files[i]).name@ == name,
        forall|i: int|
            0 <= i < files.len() && (#[trigger] files[i]).name@ == name && (forall|j: int|
                i < j < files.len() ==> (#[trigger] files[j]).name@ != name) ==> bytes_by_name(
                files,
            )[name] == files[i].bytes,
    decreases files.len(),
{
    if files.len() > 0 {
        let rest = files.drop_last();
        lemma_bytes(rest, name);
        assert(files.last() == files[files.len() - 1]);
        if bytes_by_name(files).contains_key(name) && files.last().name@ != name {
            let i = choose|i: int| 0 <= i < rest.len() && (#[trigger] rest[i]).name@ == name;
            assert(files[i].name@ == name);
        }
        assert forall|i: int|
            0 <= i < files.len() && (#[trigger] files[i]).name@ == name && (forall|j: int|
                i < j < files.len() ==> (#[trigger] files[j]).name@ != name) implies bytes_by_name(
            files,
        )[name] == files[i].bytes by {
            if i < rest.len() {
                assert(rest[i] == files[i]);
                assert forall|j: int| i < j < rest.len() implies (#[trigger] rest[j]).name@ != name by {
                    assert(rest[j] == files[j]);
                }
                assert(files[files.len() - 1].name@ != name);
            }
        }
        if exists|i: int| 0 <= i < files.len() && (#[trigger] files[i]).name@ == name {
            let i = choose|i: int| 0 <= i < files.len() && (#[trigger] files[i]).name@ == name;
            if i < rest.len() {
                assert(rest[i].name@ == name);
            }
        }
    }
}

/// Built-in bytes are found exactly under the names of the files; of several files of
/// one name they are the last one's.
pub proof fn the_last_bytes_count<T, S, M, B>(
    texts: Vec<TextFile>,
    files: Vec<ByteFile>,
    r: AssetManager<T, S, M, B>,
    name: Seq<char>,
    at: int,
)
    requires
        call_ensures(AssetManager::<T, S, M, B>::new, (texts, files), r),
        0 <= at < files@.len(),
    ensures
        r.file_to_byte_buffer@.contains_key(name) <==> exists|i: int|
            0 <= i < files@.len() && (#[trigger] files@[i]).name@ == name,
        files@[at].name@ == name && (forall|j: int|
            at < j < files@.len() ==> (#[trigger] files@[j]).name@ != name)
            ==> r.file_to_byte_buffer@[name] == files@[at].bytes,
{
    lemma_bytes(files@, name);
}

/// The shader of every kind of light ships with the engine.
pub proof fn light_shaders_ship(kind: LightType)
    ensures
        exists|i: int|
            0 <= i < engine_shaders().len() && shader_of(kind) == "/engine_assets/shaders/"@
                + #[trigger] engine_shaders()[i],
{
    reveal_strlit("/engine_assets/shaders/");
    reveal_strlit("light_skylight.wgsl");
    reveal_strlit("light_directional.wgsl");
    reveal_strlit("light_point.wgsl");
    reveal_strlit("light_spot.wgsl");
    reveal_strlit("/engine_assets/shaders/light_skylight.wgsl");
    reveal_strlit("/engine_assets/shaders/light_directional.wgsl");
    reveal_strlit("/engine_assets/shaders/light_point.wgsl");
    reveal_strlit("/engine_assets/shaders/light_spot.wgsl");
    let i: int = match kind {
        LightType::Skylight => 17,
        LightType::Directional => 18,
        LightType::Point => 19,
        LightType::Spot => 20,
    };
    assert(shader_of(kind) =~= "/engine_assets/shaders/"@ + engine_shaders()[i]);
}

/// A material wears, with the constants of its description, white in place of a missing
/// color and the texture of its color's path otherwise, and the same of its pair of
/// maps.
pub open spec fn dressed<T, S, M, B>(
    manager: AssetManager<T, S, M, B>,
    m: Material<B>,
    desc: MaterialDesc,
) -> bool {
    let names = manager.texture_mappings@.names;
    let no_maps = desc.metal_texture is None && desc.rough_texture is None;
    let key = metal_rough_key(opt_view(desc.metal_texture), opt_view(desc.rough_texture));
    &&& m.color_constant == desc.color_constant
    &&& m.mr_constant == desc.mr_constant
    &&& desc.color_texture is None ==> manager.white == Some(m.color_texture)
    &&& desc.color_texture matches Some(p) ==> names.contains_key(p@) && names[p@]
        == m.color_texture.index
    &&& no_maps ==> manager.white == Some(m.mr_texture)
    &&& !no_maps ==> names.contains_key(key) && names[key] == m.mr_texture.index
}

proof fn lemma_dressed<
    T,
    S,
    M,
    B,
    W: Fn() -> T,
    C: Fn() -> T,
    U: Fn(&Vec<u8>, u32, u32) -> Option<T>,
    G: Fn(&T, &T) -> B,
>(
    before: AssetManager<T, S, M, B>,
    after: AssetManager<T, S, M, B>,
    desc: MaterialDesc,
    color: Option<T>,
    metal: Option<Seq<u8>>,
    rough: Option<Seq<u8>>,
    white: W,
    checker: C,
    upload: U,
    bind: G,
    m: Material<B>,
)
    requires
        before.wf(),
        desc.color_texture matches Some(p) ==> p@ != "<white>"@ && p@ != "<checker>"@,
        after.wears(m, desc, m.color_texture, m.mr_texture, bind),
        before.loads_worn(
            &after,
            desc,
            color,
            metal,
            rough,
            white,
            checker,
            upload,
            (m.color_texture, m.mr_texture),
        ),
    ensures
        dressed(after, m, desc),
{
    reveal_strlit("<mr>");
    reveal_strlit("|");
    reveal_strlit("<white>");
    reveal_strlit("<checker>");
    let key = metal_rough_key(opt_view(desc.metal_texture), opt_view(desc.rough_texture));
    assert(key[1] == 'm');
    assert("<white>"@[1] == 'w' && "<checker>"@[1] == 'c');
}

/// A material that is loaded under a new name is found by it, dressed as it was
/// described; a name that is known keeps its material, and nothing changes.
pub proof fn loaded_materials_are_dressed<
    T,
    S,
    M,
    B,
    W: Fn() -> T,
    C: Fn() -> T,
    U: Fn(&Vec<u8>, u32, u32) -> Option<T>,
    G: Fn(&T, &T) -> B,
>(
    manager: &mut AssetManager<T, S, M, B>,
    name: &str,
    desc: MaterialDesc,
    color: Option<T>,
    metal: Option<Vec<u8>>,
    rough: Option<Vec<u8>>,
    white: W,
    checker: C,
    upload: U,
    bind: G,
    r: Option<MaterialHandle>,
)
    requires
        old(manager).wf(),
        desc.color_texture matches Some(p) ==> p@ != "<white>"@ && p@ != "<checker>"@,
        call_ensures(
            AssetManager::<T, S, M, B>::load_material::<W, C, U, G>,
            (manager, name, &desc, color, &metal, &rough, &white, &checker, &upload, &bind),
            r,
        ),
    ensures
        ({
            let before = old(manager).material_mappings@;
            let after = final(manager).material_mappings@;
            &&& before.names.contains_key(name@) ==> *final(manager) == *old(manager) && r == Some(
                MaterialHandle { index: before.names[name@] },
            )
            &&& !before.names.contains_key(name@) && r is Some ==> {
                let index = r->0.index;
                &&& after.names == before.names.insert(name@, index)
                &&& after.assets == before.assets.insert(index, after.assets[index])
                &&& dressed(*final(manager), after.assets[index], desc)
            }
            &&& r is None ==> after == before
        }),
{
    let before = old(manager).material_mappings@;
    if !before.names.contains_key(name@) && r is Some {
        let m = choose|m: Material<B>|
            {
                &&& final(manager).wears(m, desc, m.color_texture, m.mr_texture, bind)
                &&& old(manager).loads_worn(
                    final(manager),
                    desc,
                    color,
                    file_view(metal),
                    file_view(rough),
                    white,
                    checker,
                    upload,
                    (m.color_texture, m.mr_texture),
                )
                &&& final(manager).material_mappings@
                    == #[trigger] before.with_asset(m).with_name(name@, r->0.index)
            };
        lemma_dressed(
            *old(manager),
            *final(manager),
            desc,
            color,
            file_view(metal),
            file_view(rough),
            white,
            checker,
            upload,
            bind,
            m,
        );
    }
}

/// A material that is loaded again stands dressed anew at its handle; its name, and all
/// other materials, stay. Where it cannot be, no material changes.
pub proof fn reloaded_materials_are_dressed_anew<
    T,
    S,
    M,
    B,
    W: Fn() -> T,
    C: Fn() -> T,
    U: Fn(&Vec<u8>, u32, u32) -> Option<T>,
    G: Fn(&T, &T) -> B,
>(
    manager: &mut AssetManager<T, S, M, B>,
    handle: MaterialHandle,
    desc: MaterialDesc,
    color: Option<T>,
    metal: Option<Vec<u8>>,
    rough: Option<Vec<u8>>,
    white: W,
    checker: C,
    upload: U,
    bind: G,
    r: bool,
)
    requires
        old(manager).wf(),
        desc.color_texture matches Some(p) ==> p@ != "<white>"@ && p@ != "<checker>"@,
        call_ensures(
            AssetManager::<T, S, M, B>::reload_material::<W, C, U, G>,
            (manager, &handle, &desc, color, &metal, &rough, &white, &checker, &upload, &bind),
            r,
        ),
    ensures
        ({
            let before = old(manager).material_mappings@;
            let after = final(manager).material_mappings@;
            &&& after.names == before.names
            &&& !r ==> after == before
            &&& r ==> {
                &&& after.assets == before.assets.insert(handle.index, after.assets[handle.index])
                &&& dressed(*final(manager), after.assets[handle.index], desc)
            }
        }),
{
    let before = old(manager).material_mappings@;
    if r {
        let m = choose|m: Material<B>|
            {
                &&& final(manager).wears(m, desc, m.color_texture, m.mr_texture, bind)
                &&& old(manager).loads_worn(
                    final(manager),
                    desc,
                    color,
                    file_view(metal),
                    file_view(rough),
                    white,
                    checker,
                    upload,
                    (m.color_texture, m.mr_texture),
                )
                &&& final(manager).material_mappings@ == (MappingsModel {
                    assets: #[trigger] before.assets.insert(handle.index, m),
                    ..before
                })
            };
        lemma_dressed(
            *old(manager),
            *final(manager),
            desc,
            color,
            file_view(metal),
            file_view(rough),
            white,
            checker,
            upload,
            bind,
            m,
        );
    }
}

/// A material that is created wears white alone, whatever textures its description
/// names, with the description's constants.
pub proof fn created_materials_wear_white<T, S, M, B, W: Fn() -> T, G: Fn(&T, &T) -> B>(
    manager: &mut AssetManager<T, S, M, B>,
    name: &str,
    desc: MaterialDesc,
    white: W,
    bind: G,
    r: MaterialHandle,
)
    requires
        old(manager).wf(),
        call_ensures(
            AssetManager::<T, S, M, B>::create_material::<W, G>,
            (manager, name, &desc, &white, &bind),
            r,
        ),
    ensures
        ({
            let before = old(manager).material_mappings@;
            let after = final(manager).material_mappings@;
            let known = before.names.contains_key(name@);
            &&& known ==> *final(manager) == *old(manager) && r.index == before.names[name@]
            &&& !known ==> {
                let m = after.assets[r.index];
                &&& after.names == before.names.insert(name@, r.index)
                &&& after.assets == before.assets.insert(r.index, m)
                &&& Some(m.color_texture) == final(manager).white
                &&& Some(m.mr_texture) == final(manager).white
                &&& m.color_constant == desc.color_constant
                &&& m.mr_constant == desc.mr_constant
            }
        }),
{
}

/// A pair of maps is white where there is neither, and else the texture of the pair's
/// key: the one that is there, or a new one. Where there is none to be had, nothing
/// changes.
pub proof fn pairs_of_maps_are_found_again<
    T,
    S,
    M,
    B,
    W: Fn() -> T,
    C: Fn() -> T,
    U: Fn(&Vec<u8>, u32, u32) -> Option<T>,
>(
    manager: &mut AssetManager<T, S, M, B>,
    metal_path: Option<&str>,
    rough_path: Option<&str>,
    metal: Option<Vec<u8>>,
    rough: Option<Vec<u8>>,
    white: W,
    checker: C,
    upload: U,
    r: Option<TextureHandle>,
)
    requires
        old(manager).wf(),
        call_ensures(
            AssetManager::<T, S, M, B>::load_metal_rough_texture::<W, C, U>,
            (manager, metal_path, rough_path, &metal, &rough, &white, &checker, &upload),
            r,
        ),
    ensures
        ({
            let before = old(manager).texture_mappings@;
            let after = final(manager).texture_mappings@;
            let key = metal_rough_key(path_view(metal_path), path_view(rough_path));
            let neither = metal_path is None && rough_path is None;
            &&& neither ==> r is Some && final(manager).white == r
            &&& !neither && before.names.contains_key(key) ==> after == before && r == Some(
                TextureHandle { index: before.names[key] },
            )
            &&& !neither && r is Some ==> after.names.contains_key(key) && after.names[key]
                == r->0.index
            &&& !neither && r is None ==> after == before && !before.names.contains_key(key)
        }),
{
}

} // verus!
