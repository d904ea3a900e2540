//! The engine's configuration file.

use vstd::prelude::*;

use crate::float_bits::{clamped, float_clamp, FloatBits, Vec3, Vec4, ONE};
#[allow(unused_imports)]
use crate::float_bits::lt;
use crate::text::{chars_of, same_text};

verus! {

/// `json::JsonValue`, the document that the configuration is read from.
#[verifier::external_type_specification]
#[verifier::external_body]
pub struct ExJsonValue(json::JsonValue);

/// The parts of a JSON number, as `Number::as_parts` gives them: its sign, its digits
/// and its decimal exponent.
pub struct JsonNumber {
    pub positive: bool,
    pub mantissa: u64,
    pub exponent: i16,
}

/// What a JSON value is to the accessors; most values answer to one of them.
pub struct JsonField {
    /// Of a number, its parts.
    pub number: Option<JsonNumber>,
    /// `as_bool`.
    pub flag: Option<bool>,
    /// `as_str`.
    pub text: Option<Seq<char>>,
    /// Of an array, its elements where they are numbers.
    pub items: Option<Seq<Option<JsonNumber>>>,
}

/// The members of a JSON object; none for any other value.
pub uninterp spec fn json_members(doc: json::JsonValue) -> Map<Seq<char>, JsonField>;

/// The members of the object that `json::parse` makes of a text, or `None` where
/// the text is no JSON.
pub uninterp spec fn json_document(text: Seq<char>) -> Option<Map<Seq<char>, JsonField>>;

/// The bits that `JsonValue::as_f32` makes of the parts of a number, where its
/// exponent is within the reach of the crate's table of powers.
pub uninterp spec fn json_float(positive: bool, mantissa: u64, exponent: i16) -> FloatBits;

/// The exponent is one of those that the crate has a power of ten for.
pub open spec fn has_table_power(n: JsonNumber) -> bool {
    -22 <= n.exponent <= 22
}

/// The bits are what a number is read as. Beyond the table of powers the crate
/// computes one, with a precision that differs from machine to machine: any bits can
/// come back there.
pub open spec fn reads_as(n: JsonNumber, bits: FloatBits) -> bool {
    has_table_power(n) ==> bits == json_float(n.positive, n.mantissa, n.exponent)
}

/// What was read of a value that may be a number.
pub open spec fn number_reads_as(n: Option<JsonNumber>, bits: Option<FloatBits>) -> bool {
    match (n, bits) {
        (Some(n), Some(b)) => reads_as(n, b),
        (None, None) => true,
        _ => false,
    }
}

/// The unsigned number that a value is: one without a sign or an exponent, and not
/// too large.
pub open spec fn unsigned_of(n: Option<JsonNumber>) -> Option<u32> {
    match n {
        Some(n) => if n.positive && n.exponent == 0 && n.mantissa <= u32::MAX {
            Some(n.mantissa as u32)
        } else {
            None
        },
        None => None,
    }
}

/// The member `key`; a missing one answers to no accessor.
pub open spec fn member(m: Map<Seq<char>, JsonField>, key: Seq<char>) -> JsonField {
    if m.contains_key(key) {
        m[key]
    } else {
        JsonField { number: None, flag: None, text: None, items: None }
    }
}

/// Most digits in a row that a number can be read from: one more after a decimal
/// point would take its exponent out of range.
pub const MAX_DIGITS: usize = 32768;

pub open spec fn is_digit(c: char) -> bool {
    '0' <= c <= '9'
}

/// All of `n` characters from `at` on are digits.
pub open spec fn digits_at(text: Seq<char>, at: int, n: int) -> bool {
    forall|i: int| at <= i < at + n ==> is_digit(#[trigger] text[i])
}

/// No row of digits is too long to be a number.
pub open spec fn digits_fit(text: Seq<char>) -> bool {
    forall|at: int|
        0 <= at && at + MAX_DIGITS < text.len() ==> !(#[trigger] digits_at(
            text,
            at,
            MAX_DIGITS + 1,
        ))
}

/// Whether no row of digits is too long to be a number.
fn check_digits(text: &str) -> (r: bool)
    ensures
        r == digits_fit(text@),
{
    let chars = chars_of(text);
    let mut row: usize = 0;
    let mut i: usize = 0;
    while i < chars.len()
        invariant
            i <= chars.len(),
            chars@ == text@,
            row <= i,
            row <= MAX_DIGITS,
            digits_at(text@, i - row, row as int),
            row < i ==> !is_digit(text@[i - row - 1]),
            forall|at: int|
                0 <= at && at + MAX_DIGITS < i ==> !(#[trigger] digits_at(
                    text@,
                    at,
                    MAX_DIGITS + 1,
                )),
        decreases chars.len() - i,
    {
        let c: char = chars[i];
        if '0' <= c && c <= '9' {
            if row == MAX_DIGITS {
                assert(digits_at(text@, i - MAX_DIGITS, MAX_DIGITS + 1));
                return false;
            }
            row += 1;
        } else {
            row = 0;
        }
        i += 1;
        proof {
            assert forall|at: int| 0 <= at && at + MAX_DIGITS < i implies !(
            #[trigger] digits_at(text@, at, MAX_DIGITS + 1)) by {
                if at + MAX_DIGITS == i - 1 {
                    if row == 0 {
                        assert(!is_digit(text@[i - 1]));
                    } else {
                        assert(!is_digit(text@[i - row - 1]));
                    }
                }
            }
        }
    }
    true
}

/// `json::parse`: the document that a text holds, or `None` where it fails. The
/// crate counts the digits behind a decimal point in sixteen bits, so that a longer
/// row of them is left out.
#[verifier::external_body]
fn parse_json(text: &str) -> (r: Option<json::JsonValue>)
    requires
        digits_fit(text@),
    ensures
        match r {
            Some(doc) => json_document(text@) == Some(json_members(doc)),
            None => json_document(text@) is None,
        },
{
    json::parse(text).ok()
}

/// `JsonValue::as_f32` of the member `key`, as bits; a missing member is null,
/// which is no number. The bits depend on the parts of the number alone where its
/// exponent is in the crate's table of powers; nothing is said of them elsewhere,
/// where they rest on the machine.
#[verifier::external_body]
fn number_member(doc: &json::JsonValue, key: &str) -> (r: Option<FloatBits>)
    ensures
        match (member(json_members(*doc), key@).number, r) {
            (Some(n), Some(b)) => has_table_power(n) ==> b == json_float(
                n.positive,
                n.mantissa,
                n.exponent,
            ),
            (None, None) => true,
            _ => false,
        },
{
    doc[key].as_f32().map(|v| v.to_bits())
}

/// `JsonValue::as_u32` of the member `key`.
#[verifier::external_body]
fn unsigned_member(doc: &json::JsonValue, key: &str) -> (r: Option<u32>)
    ensures
        r == unsigned_of(member(json_members(*doc), key@).number),
{
    doc[key].as_u32()
}

/// `JsonValue::as_bool` of the member `key`.
#[verifier::external_body]
fn flag_member(doc: &json::JsonValue, key: &str) -> (r: Option<bool>)
    ensures
        r == member(json_members(*doc), key@).flag,
{
    doc[key].as_bool()
}

/// `JsonValue::as_str` of the member `key`.
#[verifier::external_body]
fn text_member<'a>(doc: &'a json::JsonValue, key: &str) -> (r: Option<&'a str>)
    ensures
        name_view(r) == member(json_members(*doc), key@).text,
{
    doc[key].as_str()
}

/// `JsonValue::is_array` of the member `key`.
#[verifier::external_body]
fn is_list(doc: &json::JsonValue, key: &str) -> (r: bool)
    ensures
        r == member(json_members(*doc), key@).items is Some,
{
    doc[key].is_array()
}

/// `JsonValue::len` of the member `key`, which is an array.
#[verifier::external_body]
fn list_len(doc: &json::JsonValue, key: &str) -> (r: usize)
    requires
        member(json_members(*doc), key@).items is Some,
    ensures
        r == member(json_members(*doc), key@).items->0.len(),
{
    doc[key].len()
}

/// `JsonValue::as_f32` of element `at` of the member `key`, as bits; what is said of
/// them is what `number_member` says.
#[verifier::external_body]
fn list_number(doc: &json::JsonValue, key: &str, at: usize) -> (r: Option<FloatBits>)
    requires
        member(json_members(*doc), key@).items matches Some(items) && at < items.len(),
    ensures
        match (member(json_members(*doc), key@).items->0[at as int], r) {
            (Some(n), Some(b)) => has_table_power(n) ==> b == json_float(
                n.positive,
                n.mantissa,
                n.exponent,
            ),
            (None, None) => true,
            _ => false,
        },
{
    doc[key][at].as_f32().map(|v| v.to_bits())
}

/// Graphics interfaces to choose from.
#[derive(Clone, Copy, PartialEq, Eq, Structural)]
pub enum GraphicsBackend {
    Dx12,
    Vulkan,
    Gl,
    /// Whatever the platform offers first.
    Primary,
    All,
    BrowserWebGpu,
}

/// The adapter to prefer.
#[derive(Clone, Copy, PartialEq, Eq, Structural)]
pub enum PowerPreference {
    HighPerformance,
    LowPower,
    Unspecified,
}

/// The effect of the last pass.
#[derive(Clone, Copy, PartialEq, Eq, Structural)]
pub enum PostProcessMode {
    Passthrough,
    /// One of the shader's effects, by number.
    Effect(u32),
}

/// The interface that a configuration asks for. A browser knows two; elsewhere an
/// unknown name allows all of them, and no name the primary ones.
pub open spec fn backend_of(name: Option<Seq<char>>, browser: bool) -> GraphicsBackend {
    if browser {
        if name == Some("webgpu"@) {
            GraphicsBackend::BrowserWebGpu
        } else {
            GraphicsBackend::Gl
        }
    } else {
        match name {
            None => GraphicsBackend::Primary,
            Some(n) => if n == "dx12"@ {
                GraphicsBackend::Dx12
            } else if n == "webgpu"@ {
                GraphicsBackend::Primary
            } else if n == "vulkan"@ {
                GraphicsBackend::Vulkan
            } else if n == "gl"@ {
                GraphicsBackend::Gl
            } else {
                GraphicsBackend::All
            },
        }
    }
}

pub open spec fn power_of(name: Option<Seq<char>>) -> PowerPreference {
    match name {
        None => PowerPreference::Unspecified,
        Some(n) => if n == "high"@ {
            PowerPreference::HighPerformance
        } else if n == "low"@ {
            PowerPreference::LowPower
        } else {
            PowerPreference::Unspecified
        },
    }
}

/// The view of an optional name.
pub open spec fn name_view(name: Option<&str>) -> Option<Seq<char>> {
    match name {
        Some(n) => Some(n@),
        None => None,
    }
}

/// Chooses the interface; see `backend_of`.
pub fn choose_backend(name: Option<&str>, browser: bool) -> (r: GraphicsBackend)
    ensures
        r == backend_of(name_view(name), browser),
{
    match name {
        None => if browser {
            GraphicsBackend::Gl
        } else {
            GraphicsBackend::Primary
        },
        Some(n) => if browser {
            if same_text(n, "webgpu") {
                GraphicsBackend::BrowserWebGpu
            } else {
                GraphicsBackend::Gl
            }
        } else if same_text(n, "dx12") {
            GraphicsBackend::Dx12
        } else if same_text(n, "webgpu") {
            GraphicsBackend::Primary
        } else if same_text(n, "vulkan") {
            GraphicsBackend::Vulkan
        } else if same_text(n, "gl") {
            GraphicsBackend::Gl
        } else {
            GraphicsBackend::All
        },
    }
}

/// Chooses the adapter; see `power_of`.
pub fn choose_power(name: Option<&str>) -> (r: PowerPreference)
    ensures
        r == power_of(name_view(name)),
{
    match name {
        None => PowerPreference::Unspecified,
        Some(n) => if same_text(n, "high") {
            PowerPreference::HighPerformance
        } else if same_text(n, "low") {
            PowerPreference::LowPower
        } else {
            PowerPreference::Unspecified
        },
    }
}

/// The bits of 0.1.
pub const TENTH: FloatBits = 0x3dcc_cccd;

/// A render scale brought between 0.1 and 1.0.
pub open spec fn clamped_scale(scale: FloatBits) -> FloatBits {
    clamped(scale, TENTH, ONE)
}

/// Brings a render scale between 0.1 and 1.0, so that no target is empty.
pub fn clamp_scale(scale: FloatBits) -> (r: FloatBits)
    ensures
        r == clamped_scale(scale),
{
    float_clamp(scale, TENTH, ONE)
}

#[derive(Clone, Copy)]
pub struct KbConfig {
    pub enemy_spawn_delay: FloatBits,
    pub enemy_move_speed: FloatBits,
    pub max_render_instances: u32,
    pub window_width: u32,
    pub window_height: u32,
    /// Size of the scene relative to the window.
    pub render_scale: FloatBits,
    pub fov: FloatBits,
    pub foreground_fov: FloatBits,
    pub graphics_backend: GraphicsBackend,
    pub graphics_power_pref: PowerPreference,
    pub vsync: bool,
    pub delta_time: FloatBits,
    pub last_frame_time: FloatBits,
    pub postprocess_mode: PostProcessMode,
    pub sunbeams_enabled: bool,
    pub clear_color: Vec4,
    pub sun_color: Vec4,
    pub sun_beam_pos_scale: Vec4,
    pub bullet_holes: bool,
    pub start_position: Vec3,
    pub start_rotation: Vec3,
}

/// A list that ends in four numbers.
pub open spec fn ends_in_four<N>(items: Seq<Option<N>>) -> bool {
    let n = items.len() as int;
    &&& n >= 4
    &&& items[n - 1] is Some
    &&& items[n - 2] is Some
    &&& items[n - 3] is Some
    &&& items[n - 4] is Some
}

/// A list of values, with the bits of those that are numbers.
pub type NumberList = Vec<Option<FloatBits>>;

/// The settings that a configuration file names; `None` where it does not, or where
/// what it names is of another type.
pub struct ConfigValues {
    pub enemy_spawn_delay: Option<FloatBits>,
    pub enemy_move_speed: Option<FloatBits>,
    pub max_instances: Option<u32>,
    pub window_width: Option<u32>,
    pub window_height: Option<u32>,
    pub render_scale: Option<FloatBits>,
    pub graphics_back_end: Option<String>,
    pub graphics_power_pref: Option<String>,
    pub vsync: Option<bool>,
    pub sunbeams: Option<bool>,
    pub sun_beam_pos_scale: Option<NumberList>,
    pub bullet_holes: Option<bool>,
    pub start_position: Option<NumberList>,
    pub start_rotation: Option<NumberList>,
}

/// The view of an optional text.
pub open spec fn text_view(text: Option<String>) -> Option<Seq<char>> {
    match text {
        Some(t) => Some(t@),
        None => None,
    }
}

/// The sun beam setting: the last four numbers of its list from the end on, and a
/// fixed place where it is no list.
pub open spec fn sun_beam_of(items: Option<NumberList>) -> Vec4 {
    match items {
        Some(s) => Vec4 {
            x: s@[s@.len() - 1]->0,
            y: s@[s@.len() - 2]->0,
            z: s@[s@.len() - 3]->0,
            w: s@[s@.len() - 4]->0,
        },
        None => Vec4 { x: 0x43fa_0000, y: 0x4409_8000, z: 0x43fa_0000, w: 0x44c1_c000 },
    }
}

/// Element `at` of a list of numbers; zero where there is none.
pub open spec fn item_or_zero(items: Seq<Option<FloatBits>>, at: int) -> FloatBits {
    if 0 <= at < items.len() {
        items[at].unwrap_or(0)
    } else {
        0
    }
}

/// The first three numbers of a list; zero for what is missing.
pub open spec fn vec3_of(items: Option<NumberList>) -> Vec3 {
    match items {
        Some(s) => Vec3 {
            x: item_or_zero(s@, 0),
            y: item_or_zero(s@, 1),
            z: item_or_zero(s@, 2),
        },
        None => Vec3 { x: 0, y: 0, z: 0 },
    }
}

impl ConfigValues {
    /// A sun beam list ends in four numbers.
    pub open spec fn usable(&self) -> bool {
        self.sun_beam_pos_scale matches Some(s) ==> ends_in_four(s@)
    }

    /// The values are those of a document.
    pub open spec fn read_from(&self, m: Map<Seq<char>, JsonField>) -> bool {
        &&& number_reads_as(member(m, "enemy_spawn_delay"@).number, self.enemy_spawn_delay)
        &&& number_reads_as(member(m, "enemy_move_speed"@).number, self.enemy_move_speed)
        &&& self.max_instances == unsigned_of(member(m, "max_instances"@).number)
        &&& self.window_width == unsigned_of(member(m, "window_width"@).number)
        &&& self.window_height == unsigned_of(member(m, "window_height"@).number)
        &&& number_reads_as(member(m, "render_scale"@).number, self.render_scale)
        &&& text_view(self.graphics_back_end) == member(m, "graphics_back_end"@).text
        &&& text_view(self.graphics_power_pref) == member(m, "graphics_power_pref"@).text
        &&& self.vsync == member(m, "vsync"@).flag
        &&& self.sunbeams == member(m, "sunbeams"@).flag
        &&& list_reads_as(member(m, "sun_beam_pos_scale"@).items, self.sun_beam_pos_scale)
        &&& self.bullet_holes == member(m, "bullet_holes"@).flag
        &&& list_reads_as(member(m, "start_position"@).items, self.start_position)
        &&& list_reads_as(member(m, "start_rotation"@).items, self.start_rotation)
    }
}

/// What was read of a value that may be a list.
pub open spec fn list_reads_as(
    items: Option<Seq<Option<JsonNumber>>>,
    list: Option<NumberList>,
) -> bool {
    match (items, list) {
        (Some(items), Some(list)) => items.len() == list@.len() && forall|i: int|
            0 <= i < items.len() ==> number_reads_as(#[trigger] items[i], list@[i]),
        (None, None) => true,
        _ => false,
    }
}

/// The configuration can be read: it is JSON without overlong numbers, and a sun beam
/// list ends in four numbers.
pub open spec fn readable(text: Seq<char>) -> bool {
    &&& digits_fit(text)
    &&& json_document(text) matches Some(m) && (member(
        m,
        "sun_beam_pos_scale"@,
    ).items matches Some(s) ==> ends_in_four(s))
}

/// The configuration that some settings make. What is missing takes its default.
pub open spec fn config_of(v: ConfigValues, browser: bool) -> KbConfig {
    KbConfig {
        enemy_spawn_delay: v.enemy_spawn_delay.unwrap_or(ONE),
        enemy_move_speed: v.enemy_move_speed.unwrap_or(0x3c23_d70a),
        max_render_instances: v.max_instances.unwrap_or(10000),
        window_width: v.window_width.unwrap_or(1280),
        window_height: v.window_height.unwrap_or(720),
        render_scale: clamped_scale(v.render_scale.unwrap_or(ONE)),
        fov: 0x4296_0000,
        foreground_fov: 0x4248_0000,
        graphics_backend: backend_of(text_view(v.graphics_back_end), browser),
        graphics_power_pref: power_of(text_view(v.graphics_power_pref)),
        vsync: v.vsync.unwrap_or(true),
        delta_time: 0,
        last_frame_time: 0,
        postprocess_mode: PostProcessMode::Passthrough,
        sunbeams_enabled: v.sunbeams.unwrap_or(false),
        clear_color: Vec4 { x: 0, y: 0, z: 0, w: 0 },
        sun_color: Vec4 { x: ONE, y: ONE, z: ONE, w: ONE },
        sun_beam_pos_scale: sun_beam_of(v.sun_beam_pos_scale),
        bullet_holes: v.bullet_holes.unwrap_or(false),
        start_position: vec3_of(v.start_position),
        start_rotation: vec3_of(v.start_rotation),
    }
}

/// The configuration of a document. Its floating-point settings are what `as_f32`
/// gave when they were read.
pub open spec fn is_config(c: KbConfig, m: Map<Seq<char>, JsonField>, browser: bool) -> bool {
    exists|v: ConfigValues|
        #[trigger] v.read_from(m) && v.usable() && c == config_of(v, browser)
}

fn read_list(doc: &json::JsonValue, key: &str) -> (r: Option<NumberList>)
    ensures
        list_reads_as(member(json_members(*doc), key@).items, r),
{
    if !is_list(doc, key) {
        return None;
    }
    let n: usize = list_len(doc, key);
    let ghost items = member(json_members(*doc), key@).items->0;
    let mut out: NumberList = Vec::new();
    let mut i: usize = 0;
    while i < n
        invariant
            i <= n,
            member(json_members(*doc), key@).items == Some(items),
            n == items.len(),
            out@.len() == i,
            forall|k: int| 0 <= k < i ==> number_reads_as(#[trigger] items[k], out@[k]),
        decreases n - i,
    {
        out.push(list_number(doc, key, i));
        i += 1;
    }
    Some(out)
}

fn read_text(doc: &json::JsonValue, key: &str) -> (r: Option<String>)
    ensures
        text_view(r) == member(json_members(*doc), key@).text,
{
    match text_member(doc, key) {
        Some(t) => Some(t.to_owned()),
        None => None,
    }
}

fn read_values(doc: &json::JsonValue) -> (r: ConfigValues)
    ensures
        r.read_from(json_members(*doc)),
{
    ConfigValues {
        enemy_spawn_delay: number_member(doc, "enemy_spawn_delay"),
        enemy_move_speed: number_member(doc, "enemy_move_speed"),
        max_instances: unsigned_member(doc, "max_instances"),
        window_width: unsigned_member(doc, "window_width"),
        window_height: unsigned_member(doc, "window_height"),
        render_scale: number_member(doc, "render_scale"),
        graphics_back_end: read_text(doc, "graphics_back_end"),
        graphics_power_pref: read_text(doc, "graphics_power_pref"),
        vsync: flag_member(doc, "vsync"),
        sunbeams: flag_member(doc, "sunbeams"),
        sun_beam_pos_scale: read_list(doc, "sun_beam_pos_scale"),
        bullet_holes: flag_member(doc, "bullet_holes"),
        start_position: read_list(doc, "start_position"),
        start_rotation: read_list(doc, "start_rotation"),
    }
}

fn number_at(list: &NumberList, at: usize) -> (r: FloatBits)
    ensures
        r == item_or_zero(list@, at as int),
{
    if at < list.len() {
        list[at].unwrap_or(0)
    } else {
        0
    }
}

fn first_three(list: &Option<NumberList>) -> (r: Vec3)
    ensures
        r == vec3_of(*list),
{
    match list {
        Some(l) => Vec3 { x: number_at(l, 0), y: number_at(l, 1), z: number_at(l, 2) },
        None => Vec3 { x: 0, y: 0, z: 0 },
    }
}

fn last_four(list: &Option<NumberList>) -> (r: Option<Vec4>)
    ensures
        match r {
            Some(v) => (*list matches Some(s) ==> ends_in_four(s@)) && v == sun_beam_of(*list),
            None => *list matches Some(s) && !ends_in_four(s@),
        },
{
    match list {
        Some(l) => {
            let n: usize = l.len();
            if n < 4 {
                return None;
            }
            match (l[n - 1], l[n - 2], l[n - 3], l[n - 4]) {
                (Some(x), Some(y), Some(z), Some(w)) => Some(Vec4 { x, y, z, w }),
                _ => None,
            }
        },
        None => Some(Vec4 { x: 0x43fa_0000, y: 0x4409_8000, z: 0x43fa_0000, w: 0x44c1_c000 }),
    }
}

fn name_of(text: &Option<String>) -> (r: Option<&str>)
    ensures
        name_view(r) == text_view(*text),
{
    match text {
        Some(t) => Some(t.as_str()),
        None => None,
    }
}

impl KbConfig {
    /// The configuration that some settings make, or `None` where the sun beam list
    /// does not end in four numbers.
    pub fn from_values(v: &ConfigValues, browser: bool) -> (r: Option<Self>)
        ensures
            r == if v.usable() {
                Some(config_of(*v, browser))
            } else {
                None
            },
    {
        let sun_beam_pos_scale = match last_four(&v.sun_beam_pos_scale) {
            Some(place) => place,
            None => {
                return None;
            },
        };
        Some(
            KbConfig {
                enemy_spawn_delay: v.enemy_spawn_delay.unwrap_or(ONE),
                enemy_move_speed: v.enemy_move_speed.unwrap_or(0x3c23_d70a),
                max_render_instances: v.max_instances.unwrap_or(10000),
                window_width: v.window_width.unwrap_or(1280),
                window_height: v.window_height.unwrap_or(720),
                render_scale: clamp_scale(v.render_scale.unwrap_or(ONE)),
                fov: 0x4296_0000,
                foreground_fov: 0x4248_0000,
                graphics_backend: choose_backend(name_of(&v.graphics_back_end), browser),
                graphics_power_pref: choose_power(name_of(&v.graphics_power_pref)),
                vsync: v.vsync.unwrap_or(true),
                delta_time: 0,
                last_frame_time: 0,
                postprocess_mode: PostProcessMode::Passthrough,
                sunbeams_enabled: v.sunbeams.unwrap_or(false),
                clear_color: Vec4 { x: 0, y: 0, z: 0, w: 0 },
                sun_color: Vec4 { x: ONE, y: ONE, z: ONE, w: ONE },
                sun_beam_pos_scale,
                bullet_holes: v.bullet_holes.unwrap_or(false),
                start_position: first_three(&v.start_position),
                start_rotation: first_three(&v.start_rotation),
            },
        )
    }

    /// Reads a configuration. What is missing takes its default.
    pub fn new(config_file_text: &str, browser: bool) -> (r: Self)
        requires
            readable(config_file_text@),
        ensures
            is_config(r, json_document(config_file_text@)->0, browser),
    {
        let doc = parse_json(config_file_text).unwrap();
        let values = read_values(&doc);
        assert(values.usable());
        KbConfig::from_values(&values, browser).unwrap()
    }

    /// Reads a configuration, or gives `None` where it cannot be read.
    pub fn try_new(config_file_text: &str, browser: bool) -> (r: Option<Self>)
        ensures
            match r {
                Some(c) => readable(config_file_text@) && is_config(
                    c,
                    json_document(config_file_text@)->0,
                    browser,
                ),
                None => !readable(config_file_text@),
            },
    {
        if !check_digits(config_file_text) {
            return None;
        }
        match parse_json(config_file_text) {
            None => None,
            Some(doc) => {
                let list = read_list(&doc, "sun_beam_pos_scale");
                match last_four(&list) {
                    None => None,
                    Some(_) => Some(KbConfig::new(config_file_text, browser)),
                }
            },
        }
    }

    /// Size of the offscreen scene: the window's size times the render scale,
    /// rounded by the caller, and at least one pixel each way.
    pub fn render_resolution(scaled_width: u32, scaled_height: u32) -> (r: (u32, u32))
        ensures
            r.0 == if scaled_width == 0 {
                1
            } else {
                scaled_width
            },
            r.1 == if scaled_height == 0 {
                1
            } else {
                scaled_height
            },
    {
        (
            if scaled_width == 0 {
                1
            } else {
                scaled_width
            },
            if scaled_height == 0 {
                1
            } else {
                scaled_height
            },
        )
    }
}

/// No configuration renders at a scale outside of 0.1 to 1.0, unless it names no
/// number at all.
pub proof fn render_scale_stays_in_range(scale: FloatBits)
    ensures
        crate::float_bits::is_nan(scale) ==> clamped_scale(scale) == scale,
        !crate::float_bits::is_nan(scale) ==> !lt(clamped_scale(scale), TENTH) && !lt(
            ONE,
            clamped_scale(scale),
        ) && !crate::float_bits::is_nan(clamped_scale(scale)),
{
}

/// Each native interface is chosen by its own name and by no other. Without a name, or
/// for the web's, the primary ones serve; any other name allows all of them. A browser
/// offers the web's own by its name, and else the one that every browser has.
pub proof fn interfaces_are_chosen_by_name(name: Option<&str>, browser: bool, r: GraphicsBackend)
    requires
        call_ensures(choose_backend, (name, browser), r),
    ensures
        ({
            let named = |t: &str| name matches Some(n) && n@ == t@;
            &&& browser ==> r == GraphicsBackend::BrowserWebGpu || r == GraphicsBackend::Gl
            &&& browser ==> (r == GraphicsBackend::BrowserWebGpu <==> named("webgpu"))
            &&& !browser ==> (r == GraphicsBackend::Dx12 <==> named("dx12"))
            &&& !browser ==> (r == GraphicsBackend::Vulkan <==> named("vulkan"))
            &&& !browser ==> (r == GraphicsBackend::Gl <==> named("gl"))
            &&& !browser ==> (r == GraphicsBackend::Primary <==> name is None || named("webgpu"))
            &&& !browser ==> r != GraphicsBackend::BrowserWebGpu
        }),
{
    reveal_strlit("webgpu");
    reveal_strlit("dx12");
    reveal_strlit("vulkan");
    reveal_strlit("gl");
    assert("webgpu"@.len() == 6 && "vulkan"@.len() == 6 && "webgpu"@[0] != "vulkan"@[0]);
    assert("dx12"@.len() == 4 && "gl"@.len() == 2);
}

/// An adapter is preferred by the names of its power and by nothing else.
pub proof fn adapters_are_chosen_by_name(name: Option<&str>, r: PowerPreference)
    requires
        call_ensures(choose_power, (name,), r),
    ensures
        r == PowerPreference::HighPerformance <==> (name matches Some(n) && n@ == "high"@),
        r == PowerPreference::LowPower <==> (name matches Some(n) && n@ == "low"@),
{
    reveal_strlit("high");
    reveal_strlit("low");
    assert("high"@.len() == 4 && "low"@.len() == 3);
}

/// A scale between 0.1 and 1.0 stays as it is; a smaller one becomes 0.1 and a larger
/// one 1.0.
pub proof fn scales_are_brought_into_range(scale: FloatBits, r: FloatBits)
    requires
        call_ensures(clamp_scale, (scale,), r),
    ensures
        lt(scale, 0x3dcc_cccd) ==> r == 0x3dcc_cccd,
        lt(0x3f80_0000, scale) ==> r == 0x3f80_0000,
        !lt(scale, 0x3dcc_cccd) && !lt(0x3f80_0000, scale) ==> r == scale,
{
}

/// A text of digits alone is a number that can be read where there are at most 32768
/// of them; one digit more, wherever it stands in a text, is too many.
pub proof fn overlong_numbers_are_refused(text: Seq<char>, at: int)
    requires
        0 <= at,
        at + 32769 <= text.len(),
        forall|i: int| at <= i < at + 32769 ==> '0' <= #[trigger] text[i] <= '9',
    ensures
        !digits_fit(text),
        !readable(text),
{
    assert(digits_at(text, at, MAX_DIGITS + 1));
}

/// Something other than a digit stands among 32769 characters from `at` on.
pub open spec fn breaks_within(text: Seq<char>, at: int) -> bool {
    exists|i: int| at <= i < at + 32769 && !('0' <= #[trigger] text[i] <= '9')
}

/// A text fits where every 32769 of its characters hold something other than a digit.
pub proof fn short_numbers_fit(text: Seq<char>)
    requires
        forall|at: int|
            0 <= at && at + 32769 <= text.len() ==> #[trigger] breaks_within(text, at),
    ensures
        digits_fit(text),
{
    assert forall|at: int| 0 <= at && at + MAX_DIGITS < text.len() implies !(#[trigger] digits_at(
        text,
        at,
        MAX_DIGITS + 1,
    )) by {
        assert(breaks_within(text, at));
        let i = choose|i: int| at <= i < at + 32769 && !('0' <= #[trigger] text[i] <= '9');
        assert(!is_digit(text[i]));
    }
}

/// Every setting that is named stands in the configuration as it was named, whatever
/// the others are; the scale is brought between 0.1 and 1.0.
pub proof fn named_settings_are_kept(v: ConfigValues, browser: bool, r: Option<KbConfig>)
    requires
        call_ensures(KbConfig::from_values, (&v, browser), r),
        r is Some,
    ensures
        ({
            let c = r->0;
            &&& v.enemy_spawn_delay matches Some(x) ==> c.enemy_spawn_delay == x
            &&& v.enemy_move_speed matches Some(x) ==> c.enemy_move_speed == x
            &&& v.max_instances matches Some(x) ==> c.max_render_instances == x
            &&& v.window_width matches Some(x) ==> c.window_width == x
            &&& v.window_height matches Some(x) ==> c.window_height == x
            &&& v.render_scale matches Some(x) ==> (!lt(x, 0x3dcc_cccd) && !lt(0x3f80_0000, x)
                ==> c.render_scale == x) && (lt(x, 0x3dcc_cccd) ==> c.render_scale == 0x3dcc_cccd)
                && (lt(0x3f80_0000, x) ==> c.render_scale == 0x3f80_0000)
            &&& v.vsync matches Some(x) ==> c.vsync == x
            &&& v.sunbeams matches Some(x) ==> c.sunbeams_enabled == x
            &&& v.bullet_holes matches Some(x) ==> c.bullet_holes == x
        }),
{
}

/// What is not named takes its default: one enemy a second that moves by 0.01, ten
/// thousand instances, a window of 1280 by 720 in full scale and in step with the
/// screen, no sun beams and no holes, and a start at the origin.
pub proof fn missing_settings_take_their_defaults(
    v: ConfigValues,
    browser: bool,
    r: Option<KbConfig>,
)
    requires
        call_ensures(KbConfig::from_values, (&v, browser), r),
        r is Some,
    ensures
        ({
            let c = r->0;
            &&& v.enemy_spawn_delay is None ==> c.enemy_spawn_delay == 0x3f80_0000
            &&& v.enemy_move_speed is None ==> c.enemy_move_speed == 0x3c23_d70a
            &&& v.max_instances is None ==> c.max_render_instances == 10000
            &&& v.window_width is None ==> c.window_width == 1280
            &&& v.window_height is None ==> c.window_height == 720
            &&& v.render_scale is None ==> c.render_scale == 0x3f80_0000
            &&& v.graphics_back_end is None ==> c.graphics_backend == if browser {
                GraphicsBackend::Gl
            } else {
                GraphicsBackend::Primary
            }
            &&& v.graphics_power_pref is None ==> c.graphics_power_pref
                == PowerPreference::Unspecified
            &&& v.vsync is None ==> c.vsync
            &&& v.sunbeams is None ==> !c.sunbeams_enabled
            &&& v.bullet_holes is None ==> !c.bullet_holes
            &&& v.start_position is None ==> c.start_position.x == 0 && c.start_position.y == 0
                && c.start_position.z == 0
            &&& v.start_rotation is None ==> c.start_rotation.x == 0 && c.start_rotation.y == 0
                && c.start_rotation.z == 0
            &&& v.sun_beam_pos_scale is None ==> c.sun_beam_pos_scale.x == 0x43fa_0000
                && c.sun_beam_pos_scale.y == 0x4409_8000 && c.sun_beam_pos_scale.z == 0x43fa_0000
                && c.sun_beam_pos_scale.w == 0x44c1_c000
        }),
{
}

/// What no file can name is the same in every configuration.
pub proof fn other_settings_are_fixed(v: ConfigValues, browser: bool, r: Option<KbConfig>)
    requires
        call_ensures(KbConfig::from_values, (&v, browser), r),
        r is Some,
    ensures
        r->0.fov == 0x4296_0000,
        r->0.foreground_fov == 0x4248_0000,
        r->0.delta_time == 0,
        r->0.last_frame_time == 0,
        r->0.postprocess_mode == PostProcessMode::Passthrough,
        r->0.clear_color == (Vec4 { x: 0, y: 0, z: 0, w: 0 }),
        r->0.sun_color == (Vec4 {
            x: 0x3f80_0000,
            y: 0x3f80_0000,
            z: 0x3f80_0000,
            w: 0x3f80_0000,
        }),
{
}

/// A list of places stands in the configuration number by number: a start from its
/// beginning, with zero for what is missing or is no number, and the sun beams' from
/// its end. A sun beam list that does not end in four numbers, and nothing else, leaves
/// no configuration.
pub proof fn places_stand_in_order(
    v: ConfigValues,
    browser: bool,
    r: Option<KbConfig>,
    before: Seq<Option<FloatBits>>,
    x: FloatBits,
    y: FloatBits,
    z: FloatBits,
    w: FloatBits,
)
    requires
        call_ensures(KbConfig::from_values, (&v, browser), r),
    ensures
        v.sun_beam_pos_scale is None ==> r is Some,
        v.sun_beam_pos_scale matches Some(s) ==> {
            &&& s@ == before + seq![Some(w), Some(z), Some(y), Some(x)] ==> r is Some
                && r->0.sun_beam_pos_scale == (Vec4 { x, y, z, w })
            &&& s@.len() < 4 ==> r is None
            &&& s@ == before + seq![None, Some(z), Some(y), Some(x)] ==> r is None
            &&& s@ == before + seq![Some(w), None, Some(y), Some(x)] ==> r is None
            &&& s@ == before + seq![Some(w), Some(z), None, Some(x)] ==> r is None
            &&& s@ == before + seq![Some(w), Some(z), Some(y), None] ==> r is None
        },
        r is Some && v.start_position is Some ==> {
            let s = v.start_position->0@;
            let p = r->0.start_position;
            &&& p.x == if s.len() > 0 && s[0] is Some { s[0]->0 } else { 0 }
            &&& p.y == if s.len() > 1 && s[1] is Some { s[1]->0 } else { 0 }
            &&& p.z == if s.len() > 2 && s[2] is Some { s[2]->0 } else { 0 }
        },
        r is Some && v.start_rotation is Some ==> {
            let s = v.start_rotation->0@;
            let p = r->0.start_rotation;
            &&& p.x == if s.len() > 0 && s[0] is Some { s[0]->0 } else { 0 }
            &&& p.y == if s.len() > 1 && s[1] is Some { s[1]->0 } else { 0 }
            &&& p.z == if s.len() > 2 && s[2] is Some { s[2]->0 } else { 0 }
        },
{
    if let Some(s) = v.sun_beam_pos_scale {
        let n = s@.len() as int;
        let m = before.len() as int;
        if n == m + 4 {
            assert(n - 4 == m && n - 3 == m + 1 && n - 2 == m + 2 && n - 1 == m + 3);
        }
    }
}

/// A whole number without a sign that fits is read as it is; nothing else is read as
/// one.
pub proof fn whole_numbers_are_read_as_they_are(n: Option<JsonNumber>)
    ensures
        unsigned_of(n) matches Some(u) ==> n is Some && n->0.positive && n->0.exponent == 0
            && n->0.mantissa == u,
        n is Some && n->0.positive && n->0.exponent == 0 && n->0.mantissa < 0x1_0000_0000
            ==> unsigned_of(n) == Some(n->0.mantissa as u32),
{
}

/// Whether a document names a number by a name.
pub open spec fn names_number(m: Map<Seq<char>, JsonField>, key: Seq<char>) -> bool {
    m.contains_key(key) && m[key].number is Some
}

/// The settings of a text are those of its members of the same names: a switch is
/// taken as it stands, a whole number as it is, and any other number as its parts are
/// read.
pub proof fn settings_are_read_by_name(text: &str, browser: bool, r: KbConfig)
    requires
        call_ensures(KbConfig::new, (text, browser), r),
        json_document(text@) is Some,
    ensures
        ({
            let m = json_document(text@)->0;
            let whole = |key: &str, otherwise: u32| if names_number(m, key@)
                && m[key@].number->0.positive && m[key@].number->0.exponent == 0
                && m[key@].number->0.mantissa <= u32::MAX {
                m[key@].number->0.mantissa as u32
            } else {
                otherwise
            };
            let switch = |key: &str, otherwise: bool| if m.contains_key(key@) && m[key@].flag is Some {
                m[key@].flag->0
            } else {
                otherwise
            };
            let reads = |key: &str, bits: FloatBits, otherwise: FloatBits| {
                let n = m[key@].number->0;
                if names_number(m, key@) {
                    -22 <= n.exponent <= 22 ==> bits == json_float(
                        n.positive,
                        n.mantissa,
                        n.exponent,
                    )
                } else {
                    bits == otherwise
                }
            };
            &&& r.window_width == whole("window_width", 1280)
            &&& r.window_height == whole("window_height", 720)
            &&& r.max_render_instances == whole("max_instances", 10000)
            &&& r.vsync == switch("vsync", true)
            &&& r.sunbeams_enabled == switch("sunbeams", false)
            &&& r.bullet_holes == switch("bullet_holes", false)
            &&& reads("enemy_spawn_delay", r.enemy_spawn_delay, 0x3f80_0000)
            &&& reads("enemy_move_speed", r.enemy_move_speed, 0x3c23_d70a)
        }),
{
}

/// A target is never empty, and keeps its size where it is not.
pub proof fn targets_are_never_empty(width: u32, height: u32, r: (u32, u32))
    requires
        call_ensures(KbConfig::render_resolution, (width, height), r),
    ensures
        r.0 > 0 && r.1 > 0,
        width > 0 ==> r.0 == width,
        height > 0 ==> r.1 == height,
        r.0 <= width || r.0 == 1,
        r.1 <= height || r.1 == 1,
{
}

/// The interface and the adapter of a text are chosen by its members of those names, and
/// its start by the first numbers of its lists; the render scale is the number that is
/// read, where that is in range.
pub proof fn names_and_places_are_read(text: &str, browser: bool, r: KbConfig)
    requires
        call_ensures(KbConfig::new, (text, browser), r),
        json_document(text@) is Some,
    ensures
        ({
            let m = json_document(text@)->0;
            let says = |key: &str, t: &str| m.contains_key(key@) && m[key@].text == Some(t@);
            let silent = |key: &str| !m.contains_key(key@) || m[key@].text is None;
            let reads = |n: Option<JsonNumber>, bits: FloatBits| if n is Some {
                -22 <= n->0.exponent <= 22 ==> bits == json_float(
                    n->0.positive,
                    n->0.mantissa,
                    n->0.exponent,
                )
            } else {
                bits == 0
            };
            let place = |key: &str, v: Vec3| {
                let items = m[key@].items->0;
                if m.contains_key(key@) && m[key@].items is Some && items.len() == 3 {
                    reads(items[0], v.x) && reads(items[1], v.y) && reads(items[2], v.z)
                } else if !m.contains_key(key@) || m[key@].items is None {
                    v.x == 0 && v.y == 0 && v.z == 0
                } else {
                    true
                }
            };
            &&& !browser && says("graphics_back_end", "vulkan") ==> r.graphics_backend
                == GraphicsBackend::Vulkan
            &&& !browser && says("graphics_back_end", "dx12") ==> r.graphics_backend
                == GraphicsBackend::Dx12
            &&& !browser && says("graphics_back_end", "gl") ==> r.graphics_backend
                == GraphicsBackend::Gl
            &&& browser && says("graphics_back_end", "webgpu") ==> r.graphics_backend
                == GraphicsBackend::BrowserWebGpu
            &&& browser && silent("graphics_back_end") ==> r.graphics_backend == GraphicsBackend::Gl
            &&& !browser && silent("graphics_back_end") ==> r.graphics_backend
                == GraphicsBackend::Primary
            &&& says("graphics_power_pref", "high") ==> r.graphics_power_pref
                == PowerPreference::HighPerformance
            &&& says("graphics_power_pref", "low") ==> r.graphics_power_pref
                == PowerPreference::LowPower
            &&& silent("graphics_power_pref") ==> r.graphics_power_pref
                == PowerPreference::Unspecified
            &&& place("start_position", r.start_position)
            &&& place("start_rotation", r.start_rotation)
        }),
{
    reveal_strlit("webgpu");
    reveal_strlit("dx12");
    reveal_strlit("vulkan");
    reveal_strlit("gl");
    reveal_strlit("high");
    reveal_strlit("low");
    assert("webgpu"@.len() == 6 && "vulkan"@.len() == 6 && "webgpu"@[0] != "vulkan"@[0]);
    assert("dx12"@.len() == 4 && "gl"@.len() == 2 && "high"@.len() == 4 && "low"@.len() == 3);
    let m = json_document(text@)->0;
    let v = choose|v: ConfigValues|
        #[trigger] v.read_from(m) && v.usable() && r == config_of(v, browser);
    assert(v.read_from(m));
    if m.contains_key("start_position"@) && m["start_position"@].items is Some {
        let items = m["start_position"@].items->0;
        let list = v.start_position->0@;
        assert(items.len() == list.len());
        if items.len() == 3 {
            assert(number_reads_as(items[0], list[0]));
            assert(number_reads_as(items[1], list[1]));
            assert(number_reads_as(items[2], list[2]));
        }
    }
    if m.contains_key("start_rotation"@) && m["start_rotation"@].items is Some {
        let items = m["start_rotation"@].items->0;
        let list = v.start_rotation->0@;
        assert(items.len() == list.len());
        if items.len() == 3 {
            assert(number_reads_as(items[0], list[0]));
            assert(number_reads_as(items[1], list[1]));
            assert(number_reads_as(items[2], list[2]));
        }
    }
}

/// A text is read wherever it is JSON without overlong numbers and names no sun beams,
/// and refused wherever it is no JSON.
pub proof fn texts_are_read_where_they_can_be(text: &str, browser: bool, r: Option<KbConfig>)
    requires
        call_ensures(KbConfig::try_new, (text, browser), r),
    ensures
        json_document(text@) is None ==> r is None,
        digits_fit(text@) && (json_document(text@) matches Some(m) && !m.contains_key(
            "sun_beam_pos_scale"@,
        )) ==> r is Some,
{
}

} // verus!
