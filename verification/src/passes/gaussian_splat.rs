//! Gaussian splat clouds: reading `.ply` exports, keeping the loaded clouds, and
//! planning the GPU radix sort that orders them back to front.

use vstd::prelude::*;
use vstd::utf8::{decode_utf8, encode_utf8, valid_utf8};

use crate::float_bits::{float_is_nan, is_nan, neg, negated, word_at, FloatBits, ONE};
use crate::gpu::{
    bindings, blend_alpha, one_target, two_groups, uniform_binding, Binding, BindingKind,
    DepthCompare, DepthTest, PipelinePlan, Stage, Target, TargetFormat, Topology,
};
#[allow(unused_imports)]
use crate::gpu::{alpha_blend, bindings_of, groups_view};
use crate::ply::{
    data_start, find_data, find_subsequence, first_found, header_of, names_with, offset_of,
    offsets_view, read_vertex, resolve_fields, scan_header, splat_fields, vertex_fits,
    vertex_values, vertices_present, HeaderModel,
};
#[allow(unused_imports)]
use crate::float_bits::words_hold_their_bytes;
#[allow(unused_imports)]
use crate::ply::{
    bytes_before, field_value, found_at, header_text, splat_field_names, writable,
    written_headers_are_read_back, Property,
};
#[allow(unused_imports)]
use crate::text::decimal;
use crate::text::{same_text, utf8_text, views};
#[allow(unused_imports)]
use vstd::utf8::{encode_utf8_decode_utf8, encode_utf8_valid_utf8};

verus! {

/// Most splats of one cloud on a desktop. The GPU-side ceiling comes from the
/// device's limits at load time; this one bounds how much memory a parse may
/// commit, and stays below the radix sort's 65535 workgroups of 256 splats.
pub const MAX_SPLATS: usize = 16_000_000;

/// Most splats of one cloud in a browser, where a storage binding commonly ends
/// at 128 MiB.
pub const MAX_SPLATS_BROWSER: usize = 700_000;

/// Size of one splat record on the GPU.
pub const SPLAT_RECORD_BYTES: u64 = 160;

/// Splats that one workgroup of the sort handles.
pub const SORT_WORKGROUP_SIZE: u32 = 256;

/// Number of 8-bit digit passes for a 32-bit radix sort.
pub const RADIX_PASSES: u32 = 4;

/// One splat as it stands in the file, turned into the engine's frame. Scale is
/// in log space and opacity a logit.
#[derive(Clone, Copy)]
pub struct SplatInstance {
    /// xyz position, w unused.
    pub position: [FloatBits; 4],
    /// Log-space scale xyz, opacity logit w.
    pub scale_opacity: [FloatBits; 4],
    /// Quaternion x, y, z, w.
    pub rotation: [FloatBits; 4],
    /// Degree-0 color, w unused.
    pub sh0: [FloatBits; 4],
    /// Eight higher-order coefficients of three channels.
    pub sh_rest: [FloatBits; 24],
}

/// What `parse_splat_ply` produced: the splats plus, where the file held more
/// than the budget, how many it held.
pub struct SplatParse {
    pub instances: Vec<SplatInstance>,
    pub clamped_from: Option<usize>,
}

/// Outcome of a splat load: how many splats were loaded, and how many the file
/// held where the cloud had to be clamped.
#[derive(Clone, Copy)]
pub struct SplatLoadInfo {
    pub num_splats: u32,
    pub clamped_from: Option<usize>,
}

/// The properties that every splat export carries.
pub open spec fn required_names() -> Seq<Seq<char>> {
    seq!["x"@, "y"@, "z"@, "scale_0"@, "rot_0"@, "opacity"@, "f_dc_0"@]
}

/// The first of `names` that the header lacks.
pub open spec fn first_missing(h: HeaderModel, names: Seq<Seq<char>>) -> Option<Seq<char>>
    decreases names.len(),
{
    if names.len() == 0 {
        None
    } else if offset_of(h.offsets, names[0]) is None {
        Some(names[0])
    } else {
        first_missing(h, names.skip(1))
    }
}

/// The first format that is not binary little endian.
pub open spec fn first_unsupported(formats: Seq<Seq<char>>) -> Option<Seq<char>>
    decreases formats.len(),
{
    if formats.len() == 0 {
        None
    } else if formats[0] != "binary_little_endian"@ {
        Some(formats[0])
    } else {
        first_unsupported(formats.skip(1))
    }
}

/// The vertex data of an acceptable file.
pub struct SplatSource {
    pub header: HeaderModel,
    /// Where the first vertex begins.
    pub start: int,
    /// Vertices that are both claimed and present.
    pub present: nat,
    /// Where each splat field begins within a vertex.
    pub fields: Seq<Option<nat>>,
}

/// Coefficients per color channel: a third of the `f_rest_` properties.
pub open spec fn rest_per_channel(h: HeaderModel) -> nat {
    names_with(h.offsets, "f_rest_"@).len() / 3
}

/// The vertex data of a file, or the reason why it is rejected.
pub open spec fn splat_source(bytes: Seq<u8>) -> Result<SplatSource, Seq<char>> {
    match first_found(bytes, encode_utf8("end_header"@)) {
        None => Err("not a .ply file (no end_header)"@),
        Some(pos) => {
            let h = header_of(decode_utf8(bytes.take(pos)));
            let start = data_start(bytes, pos + encode_utf8("end_header"@).len());
            let there = vertices_present(bytes.len(), start, h.stride);
            let present = if there < h.vertex_count {
                there
            } else {
                h.vertex_count
            };
            if !valid_utf8(bytes.take(pos)) {
                Err("header is not valid utf-8"@)
            } else if let Some(format) = first_unsupported(h.formats) {
                Err("'"@ + format + "' .ply is unsupported (need binary_little_endian)"@)
            } else if h.formats.len() == 0 {
                Err("no 'format' line -- not a valid .ply"@)
            } else if let Some(name) = first_missing(h, required_names()) {
                Err("no '"@ + name + "' property -- compressed or non-3DGS .ply? (unsupported)"@)
            } else if h.vertex_count == 0 || h.stride == 0 {
                Err("header lists no vertices"@)
            } else if present == 0 {
                Err("vertex data is missing or truncated"@)
            } else {
                Ok(
                    SplatSource {
                        header: h,
                        start,
                        present,
                        fields: splat_fields(h, rest_per_channel(h)),
                    },
                )
            }
        },
    }
}

impl SplatSource {
    /// Where vertex `i` begins.
    pub open spec fn base(&self, i: int) -> int {
        self.start + i * self.header.stride
    }

    /// How many splats a budget of `max_splats` keeps.
    pub open spec fn kept(&self, max_splats: nat) -> nat {
        if self.present > max_splats {
            max_splats
        } else {
            self.present
        }
    }

    /// The last of `count` splats lies within `bytes`. It may not where the last
    /// property takes fewer than four bytes.
    pub open spec fn fits(&self, bytes: Seq<u8>, count: nat) -> bool {
        count > 0 ==> vertex_fits(bytes.len(), self.base(count - 1), self.fields)
    }

    /// The raw values of splat `i`.
    pub open spec fn values(&self, bytes: Seq<u8>, i: int) -> Seq<FloatBits> {
        vertex_values(bytes, self.base(i), self.fields)
    }
}

impl SplatInstance {
    /// The splat holds the raw `values` of a vertex. The file's frame is rotated
    /// by half a turn about Z into the engine's: x and y change sign, in the
    /// position and in the quaternion, whose stored order is w, x, y, z.
    pub open spec fn holds(&self, values: Seq<FloatBits>) -> bool {
        &&& self.position@ == seq![neg(values[0]), neg(values[1]), values[2], 0]
        &&& self.rotation@ == seq![neg(values[4]), neg(values[5]), values[6], values[3]]
        &&& self.scale_opacity@ == values.subrange(7, 11)
        &&& self.sh0@ == values.subrange(11, 14).push(0)
        &&& self.sh_rest@ == values.subrange(14, 38)
    }
}

/// The splats that a parse under a budget of `max_splats` yields.
pub open spec fn is_parse(parse: SplatParse, bytes: Seq<u8>, src: SplatSource, max_splats: nat) -> bool {
    &&& parse.instances@.len() == src.kept(max_splats)
    &&& forall|i: int|
        0 <= i < parse.instances@.len() ==> (#[trigger] parse.instances@[i]).holds(
            src.values(bytes, i),
        )
    &&& parse.clamped_from == if src.present > max_splats {
        Some(src.present as usize)
    } else {
        None
    }
}

/// What parsing `bytes` under a budget of `max_splats` returns.
pub open spec fn is_parse_result(
    r: Result<SplatParse, String>,
    bytes: Seq<u8>,
    max_splats: nat,
) -> bool {
    match splat_source(bytes) {
        Err(reason) => r matches Err(e) && e@ == reason,
        Ok(src) => if src.fits(bytes, src.kept(max_splats)) {
            r matches Ok(parse) && is_parse(parse, bytes, src, max_splats)
        } else {
            r matches Err(e) && e@ == "vertex data is missing or truncated"@
        },
    }
}

pub(crate) fn copy_rest(values: &Vec<FloatBits>) -> (r: [FloatBits; 24])
    requires
        values@.len() == 38,
    ensures
        r@ == values@.subrange(14, 38),
{
    let mut out: [FloatBits; 24] = [0; 24];
    let mut k: usize = 0;
    while k < 24
        invariant
            k <= 24,
            values@.len() == 38,
            out@.len() == 24,
            forall|j: int| 0 <= j < k ==> out@[j] == values@[14 + j],
        decreases 24 - k,
    {
        out[k] = values[14 + k];
        k += 1;
    }
    out
}

fn splat_from(values: &Vec<FloatBits>) -> (r: SplatInstance)
    requires
        values@.len() == 38,
    ensures
        r.holds(values@),
{
    let r = SplatInstance {
        position: [negated(values[0]), negated(values[1]), values[2], 0],
        scale_opacity: [values[7], values[8], values[9], values[10]],
        rotation: [negated(values[4]), negated(values[5]), values[6], values[3]],
        sh0: [values[11], values[12], values[13], 0],
        sh_rest: copy_rest(values),
    };
    assert(r.position@ == seq![neg(values@[0]), neg(values@[1]), values@[2], 0]);
    assert(r.rotation@ == seq![neg(values@[4]), neg(values@[5]), values@[6], values@[3]]);
    assert(r.scale_opacity@ == values@.subrange(7, 11));
    assert(r.sh0@ == values@.subrange(11, 14).push(0));
    r
}

fn find_unsupported(formats: &Vec<String>) -> (r: Option<usize>)
    ensures
        match r {
            Some(i) => i < formats@.len() && first_unsupported(views(formats@)) == Some(
                formats@[i as int]@,
            ),
            None => first_unsupported(views(formats@)) is None,
        },
{
    let mut i: usize = 0;
    let ghost all = views(formats@);
    assert(all.skip(0) == all);
    while i < formats.len()
        invariant
            i <= formats.len(),
            all == views(formats@),
            first_unsupported(all) == first_unsupported(all.skip(i as int)),
        decreases formats.len() - i,
    {
        assert(all.skip(i as int)[0] == formats@[i as int]@);
        if !same_text(formats[i].as_str(), "binary_little_endian") {
            return Some(i);
        }
        assert(all.skip(i as int).skip(1) == all.skip(i as int + 1));
        i += 1;
    }
    None
}

fn find_missing(header: &crate::ply::PlyHeader) -> (r: Option<&'static str>)
    ensures
        match r {
            Some(name) => first_missing(header@, required_names()) == Some(name@),
            None => first_missing(header@, required_names()) is None,
        },
{
    let names: [&'static str; 7] = ["x", "y", "z", "scale_0", "rot_0", "opacity", "f_dc_0"];
    let ghost all = required_names();
    assert(forall|k: int| 0 <= k < 7 ==> (#[trigger] names@[k])@ == all[k]);
    let mut i: usize = 0;
    assert(all.skip(0) == all);
    while i < 7
        invariant
            i <= 7,
            all == required_names(),
            forall|k: int| 0 <= k < 7 ==> (#[trigger] names@[k])@ == all[k],
            first_missing(header@, all) == first_missing(header@, all.skip(i as int)),
        decreases 7 - i,
    {
        assert(all.skip(i as int)[0] == names@[i as int]@);
        if !header.offsets.contains_key(names[i]) {
            return Some(names[i]);
        }
        assert(all.skip(i as int).skip(1) == all.skip(i as int + 1));
        i += 1;
    }
    None
}

/// Whether every field of the vertex at `base` lies within `len` bytes.
pub fn fields_fit(len: usize, base: usize, fields: &Vec<Option<usize>>) -> (r: bool)
    requires
        base <= len,
    ensures
        r == vertex_fits(len as nat, base as int, offsets_view(fields@)),
{
    let mut k: usize = 0;
    let ghost all = offsets_view(fields@);
    while k < fields.len()
        invariant
            k <= fields.len(),
            base <= len,
            all == offsets_view(fields@),
            forall|j: int|
                0 <= j < k ==> (#[trigger] all[j] matches Some(o) ==> base + o + 4 <= len),
        decreases fields.len() - k,
    {
        if let Some(o) = fields[k] {
            assert(all[k as int] == Some(o as nat));
            if len - base < 4 || o > len - base - 4 {
                return false;
            }
        }
        k += 1;
    }
    true
}

fn unsupported_reason(format: &str) -> (r: String)
    ensures
        r@ == "'"@ + format@ + "' .ply is unsupported (need binary_little_endian)"@,
{
    let mut reason = String::from_str("'");
    reason.append(format);
    reason.append("' .ply is unsupported (need binary_little_endian)");
    reason
}

fn missing_reason(name: &str) -> (r: String)
    ensures
        r@ == "no '"@ + name@ + "' property -- compressed or non-3DGS .ply? (unsupported)"@,
{
    let mut reason = String::from_str("no '");
    reason.append(name);
    reason.append("' property -- compressed or non-3DGS .ply? (unsupported)");
    reason
}

/// Parses a binary little-endian 3D gaussian splat `.ply`, keeping at most
/// `max_splats` splats. Malformed input is answered with a short reason that can
/// be shown to the user. `_source` names the file for whoever logs the outcome.
pub fn parse_splat_ply(bytes: &[u8], _source: &str, max_splats: usize) -> (r: Result<
    SplatParse,
    String,
>)
    ensures
        is_parse_result(r, bytes@, max_splats as nat),
{
    let marker = "end_header".as_bytes();
    proof {
        lemma_marker();
    }
    let header_pos = match find_subsequence(bytes, marker) {
        Some(pos) => pos,
        None => {
            return Err(String::from_str("not a .ply file (no end_header)"));
        },
    };
    assert(header_pos + marker.len() <= bytes.len());
    let head = vstd::slice::slice_subrange(bytes, 0, header_pos);
    assert(head@ == bytes@.take(header_pos as int));
    let text = match utf8_text(head) {
        Some(text) => text,
        None => {
            return Err(String::from_str("header is not valid utf-8"));
        },
    };
    let header = scan_header(text);
    let ghost h = header@;
    if let Some(i) = find_unsupported(&header.formats) {
        return Err(unsupported_reason(header.formats[i].as_str()));
    }
    if header.formats.len() == 0 {
        return Err(String::from_str("no 'format' line -- not a valid .ply"));
    }
    if let Some(name) = find_missing(&header) {
        return Err(missing_reason(name));
    }
    if header.vertex_count == 0 || header.stride == 0 {
        return Err(String::from_str("header lists no vertices"));
    }
    let start = match find_data(bytes, header_pos + marker.len()) {
        Some(start) => start,
        None => {
            return Err(String::from_str("vertex data is missing or truncated"));
        },
    };
    let available: usize = (bytes.len() - start) / header.stride;
    let present: usize = if available < header.vertex_count {
        available
    } else {
        header.vertex_count
    };
    if present == 0 {
        return Err(String::from_str("vertex data is missing or truncated"));
    }
    let fields = resolve_fields(&header, header.num_rest / 3);
    let ghost src = SplatSource {
        header: h,
        start: start as int,
        present: present as nat,
        fields: splat_fields(h, rest_per_channel(h)),
    };
    assert(splat_source(bytes@) == Ok::<SplatSource, Seq<char>>(src));
    let count: usize = if present > max_splats {
        max_splats
    } else {
        present
    };
    let clamped_from: Option<usize> = if present > max_splats {
        Some(present)
    } else {
        None
    };
    let stride: usize = header.stride;
    proof {
        lemma_span(bytes@.len() as int, start as int, stride as int, count as int);
    }
    if count > 0 && !fields_fit(bytes.len(), start + (count - 1) * stride, &fields) {
        return Err(String::from_str("vertex data is missing or truncated"));
    }
    let mut instances: Vec<SplatInstance> = Vec::new();
    let mut i: usize = 0;
    while i < count
        invariant
            i <= count,
            count <= src.present,
            src.start == start,
            src.header.stride == stride,
            src.fields == offsets_view(fields@),
            src.fields.len() == 38,
            src.fits(bytes@, count as nat),
            start + count * stride <= bytes@.len(),
            instances@.len() == i,
            forall|j: int|
                0 <= j < i ==> (#[trigger] instances@[j]).holds(src.values(bytes@, j)),
        decreases count - i,
    {
        proof {
            assert(bytes.len() <= usize::MAX);
            assert(i * stride <= (count - 1) * stride && (count - 1) * stride <= count * stride)
                by (nonlinear_arith)
                requires
                    i <= count - 1,
                    stride >= 0,
            ;
        }
        let values = read_vertex(bytes, start + i * stride, &fields);
        instances.push(splat_from(&values));
        i += 1;
    }
    Ok(SplatParse { instances, clamped_from })
}

pub(crate) proof fn lemma_marker()
    ensures
        encode_utf8("end_header"@).len() == 10,
{
    reveal_strlit("end_header");
    assert(vstd::utf8::is_ascii_chars("end_header"@));
    vstd::utf8::is_ascii_chars_encode_utf8("end_header"@);
}

pub proof fn lemma_span(len: int, start: int, stride: int, count: int)
    requires
        0 <= start <= len,
        stride > 0,
        0 <= count <= (len - start) / stride,
    ensures
        start + count * stride <= len,
        0 <= count * stride,
        count > 0 ==> 0 <= (count - 1) * stride <= count * stride,
{
    assert(count * stride <= ((len - start) / stride) * stride && 0 <= count * stride)
        by (nonlinear_arith)
        requires
            0 <= count <= (len - start) / stride,
            stride > 0,
    ;
    assert(((len - start) / stride) * stride <= len - start) by (nonlinear_arith)
        requires
            stride > 0,
            len - start >= 0,
    ;
    if count > 0 {
        assert(0 <= (count - 1) * stride <= count * stride) by (nonlinear_arith)
            requires
                count > 0,
                stride > 0,
        ;
    }
}

/// A smaller budget never changes the splats that it keeps: it yields a prefix of
/// what a larger budget yields, and accepts every file that the larger one does.
pub proof fn smaller_budget_keeps_a_prefix(
    bytes: Seq<u8>,
    small: nat,
    large: nat,
    r_small: Result<SplatParse, String>,
    r_large: Result<SplatParse, String>,
)
    requires
        small <= large,
        is_parse_result(r_small, bytes, small),
        is_parse_result(r_large, bytes, large),
        r_large is Ok,
    ensures
        r_small is Ok,
        r_small->Ok_0.instances@ == r_large->Ok_0.instances@.take(
            r_small->Ok_0.instances@.len() as int,
        ),
        r_small->Ok_0.instances@.len() <= small,
{
    let src = splat_source(bytes)->Ok_0;
    let a = src.kept(small) as int;
    let b = src.kept(large) as int;
    assert(a <= b);
    if a > 0 {
        assert((a - 1) * src.header.stride <= (b - 1) * src.header.stride) by (nonlinear_arith)
            requires
                a <= b,
                src.header.stride >= 0,
        ;
        assert(src.fits(bytes, a as nat));
    }
    let p = r_small->Ok_0.instances@;
    let q = r_large->Ok_0.instances@;
    assert forall|i: int| 0 <= i < p.len() implies p[i] == #[trigger] q.take(a)[i] by {
        assert(p[i].holds(src.values(bytes, i)));
        assert(q[i].holds(src.values(bytes, i)));
        assert(p[i].position =~= q[i].position);
        assert(p[i].scale_opacity =~= q[i].scale_opacity);
        assert(p[i].rotation =~= q[i].rotation);
        assert(p[i].sh0 =~= q[i].sh0);
        assert(p[i].sh_rest =~= q[i].sh_rest);
    }
}

/// Rendering parameters that can be tuned.
#[derive(Clone, Copy)]
pub struct SplatParams {
    pub falloff: FloatBits,
    pub scale: FloatBits,
    pub contrast: FloatBits,
    pub max_sh_degree: FloatBits,
    pub overall_scale: FloatBits,
}

impl Default for SplatParams {
    /// Falloff 8.0, scale, contrast and overall scale 1.0, degree 0.0.
    fn default() -> (r: Self)
        ensures
            r == (SplatParams {
                falloff: 0x4100_0000,
                scale: ONE,
                contrast: ONE,
                max_sh_degree: 0,
                overall_scale: ONE,
            }),
    {
        SplatParams {
            falloff: 0x4100_0000,
            scale: ONE,
            contrast: ONE,
            max_sh_degree: 0,
            overall_scale: ONE,
        }
    }
}

/// How many splats one storage binding of a device can hold, within the
/// platform's own budget.
pub fn device_max_splats(
    platform_max: usize,
    max_storage_buffer_binding_size: u64,
    max_buffer_size: u64,
) -> (r: usize)
    ensures
        r <= platform_max,
        r * SPLAT_RECORD_BYTES <= max_storage_buffer_binding_size,
        r * SPLAT_RECORD_BYTES <= max_buffer_size,
        r < platform_max ==> (r + 1) * SPLAT_RECORD_BYTES > max_storage_buffer_binding_size || (r
            + 1) * SPLAT_RECORD_BYTES > max_buffer_size,
{
    let size: u64 = if max_buffer_size < max_storage_buffer_binding_size {
        max_buffer_size
    } else {
        max_storage_buffer_binding_size
    };
    let device_cap: u64 = size / SPLAT_RECORD_BYTES;
    if device_cap < platform_max as u64 {
        device_cap as usize
    } else {
        platform_max
    }
}

/// Number of sort tiles that `num_splats` splats take; at least one.
pub open spec fn tiles_for(num_splats: nat) -> nat {
    if num_splats == 0 {
        1
    } else {
        (num_splats + SORT_WORKGROUP_SIZE as nat - 1) as nat / SORT_WORKGROUP_SIZE as nat
    }
}

/// Buffer sizes of one cloud's sort.
#[derive(Clone, Copy)]
pub struct SortBuffers {
    /// Whole tiles that cover the splats.
    pub num_tiles: u32,
    /// Bytes of each key and value buffer: one word per slot of a tile.
    pub slot_bytes: u64,
    /// Bytes of the histogram: 256 buckets of one word per tile.
    pub hist_bytes: u64,
    /// Bytes of the scan spine: one word per tile.
    pub block_sum_bytes: u64,
}

/// Sizes the sort buffers of a cloud.
pub fn sort_buffers(num_splats: u32) -> (r: SortBuffers)
    requires
        num_splats <= u32::MAX - 255,
    ensures
        r.num_tiles == tiles_for(num_splats as nat),
        r.slot_bytes == r.num_tiles * SORT_WORKGROUP_SIZE * 4,
        r.hist_bytes == 256 * r.num_tiles * 4,
        r.block_sum_bytes == r.num_tiles * 4,
{
    let at_least_one: u32 = if num_splats < 1 {
        1
    } else {
        num_splats
    };
    let num_tiles: u32 = (at_least_one + (SORT_WORKGROUP_SIZE - 1)) / SORT_WORKGROUP_SIZE;
    let slots: u64 = (num_tiles * SORT_WORKGROUP_SIZE) as u64;
    SortBuffers {
        num_tiles,
        slot_bytes: slots * 4,
        hist_bytes: (256 * num_tiles) as u64 * 4,
        block_sum_bytes: num_tiles as u64 * 4,
    }
}

/// The tiles cover all splats, and no tile is left empty.
pub proof fn tiles_cover_the_splats(num_splats: nat)
    ensures
        tiles_for(num_splats) * SORT_WORKGROUP_SIZE >= num_splats,
        num_splats > 0 ==> (tiles_for(num_splats) - 1) * SORT_WORKGROUP_SIZE < num_splats,
        tiles_for(num_splats) >= 1,
{
}

/// The clouds of the desktop budget stay below the dispatch limit of the GPU.
pub proof fn budget_fits_one_dispatch(num_splats: nat)
    requires
        num_splats <= MAX_SPLATS,
    ensures
        tiles_for(num_splats) <= 65535,
{
}

/// Distance between the uniform slots of two digit passes.
pub fn pass_stride(min_uniform_buffer_offset_alignment: u32) -> (r: u32)
    ensures
        r == if min_uniform_buffer_offset_alignment < 16 {
            16
        } else {
            min_uniform_buffer_offset_alignment
        },
{
    if min_uniform_buffer_offset_alignment < 16 {
        16
    } else {
        min_uniform_buffer_offset_alignment
    }
}

/// Byte `at` of the pass uniforms: at the beginning of slot `p` stands the bit
/// shift `8 * p` as a little-endian word, everything else is zero.
pub open spec fn pass_byte(stride: int, at: int) -> u8 {
    if at % stride == 0 && at / stride < 4 {
        (8 * (at / stride)) as u8
    } else {
        0
    }
}

/// The uniform slots that hold the bit shift of each digit pass.
pub fn pass_uniforms(stride: u32) -> (r: Vec<u8>)
    requires
        16 <= stride,
        RADIX_PASSES * stride <= usize::MAX,
    ensures
        r@.len() == RADIX_PASSES * stride,
        forall|at: int| 0 <= at < r@.len() ==> r@[at] == pass_byte(stride as int, at),
        forall|p: int| 0 <= p < RADIX_PASSES ==> #[trigger] word_at(r@, p * stride) == 8 * p,
{
    let mut out: Vec<u8> = Vec::new();
    let total: usize = RADIX_PASSES as usize * stride as usize;
    let mut pass: usize = 0;
    let mut within: usize = 0;
    let mut at: usize = 0;
    while at < total
        invariant
            16 <= stride,
            total == 4 * stride,
            at <= total,
            out@.len() == at,
            at == pass * stride + within,
            within < stride,
            pass <= 4,
            forall|j: int| 0 <= j < at ==> out@[j] == pass_byte(stride as int, j),
        decreases total - at,
    {
        proof {
            lemma_slot(pass as int, within as int, stride as int, at as int);
            assert(pass < 4) by (nonlinear_arith)
                requires
                    pass * stride + within < 4 * stride,
                    within >= 0,
                    stride > 0,
            ;
        }
        out.push(
            if within == 0 {
                8 * pass as u8
            } else {
                0
            },
        );
        at += 1;
        within += 1;
        if within == stride as usize {
            within = 0;
            pass += 1;
            assert(pass * stride == (pass - 1) * stride + stride) by (nonlinear_arith);
            assert(pass <= 4) by (nonlinear_arith)
                requires
                    pass * stride <= 4 * stride,
                    stride > 0,
            ;
        }
    }
    assert forall|p: int| 0 <= p < RADIX_PASSES implies #[trigger] word_at(out@, p * stride) == 8
        * p by {
        let b = p * stride;
        assert(b + 16 <= 4 * stride) by (nonlinear_arith)
            requires
                b == p * stride,
                p <= 3,
                16 <= stride,
        ;
        assert(0 <= b) by (nonlinear_arith)
            requires
                b == p * stride,
                p >= 0,
                stride >= 0,
        ;
        lemma_slot(p, 0, stride as int, b);
        lemma_slot(p, 1, stride as int, b + 1);
        lemma_slot(p, 2, stride as int, b + 2);
        lemma_slot(p, 3, stride as int, b + 3);
        assert(pass_byte(stride as int, b) == 8 * p);
        assert(b + 3 < out@.len());
        assert(pass_byte(stride as int, b + 1) == 0);
        assert(pass_byte(stride as int, b + 2) == 0);
        assert(pass_byte(stride as int, b + 3) == 0);
        assert(out@[b] == 8 * p && out@[b + 1] == 0 && out@[b + 2] == 0 && out@[b + 3] == 0);
    }
    out
}

proof fn lemma_slot(pass: int, within: int, stride: int, at: int)
    requires
        0 <= within < stride,
        at == pass * stride + within,
    ensures
        at / stride == pass,
        at % stride == within,
{
    vstd::arithmetic::div_mod::lemma_fundamental_div_mod_converse(at, stride, pass, within);
}

/// Kernels of the radix sort.
#[derive(Clone, Copy, PartialEq, Eq, Structural)]
pub enum SortPhase {
    ComputeKeys,
    Histogram,
    ScanReduce,
    ScanSpine,
    ScanAdd,
    Scatter,
}

/// The side of the ping-pong buffers that a phase reads and writes.
#[derive(Clone, Copy, PartialEq, Eq, Structural)]
pub enum SortDirection {
    AToB,
    BToA,
}

/// One dispatch of the sort; each is a compute pass of its own.
#[derive(Clone, Copy, PartialEq, Eq, Structural)]
pub struct SortDispatch {
    pub phase: SortPhase,
    pub direction: SortDirection,
    /// Offset of the pass uniform.
    pub offset: u32,
    pub groups: u32,
}

pub open spec fn pass_direction(p: int) -> SortDirection {
    if p % 2 == 0 {
        SortDirection::AToB
    } else {
        SortDirection::BToA
    }
}

/// The five phases of digit pass `p`.
pub open spec fn pass_plan(p: int, stride: int, groups: u32) -> Seq<SortDispatch> {
    let direction = pass_direction(p);
    let offset = (p * stride) as u32;
    seq![
        SortDispatch { phase: SortPhase::Histogram, direction, offset, groups },
        SortDispatch { phase: SortPhase::ScanReduce, direction, offset, groups },
        SortDispatch { phase: SortPhase::ScanSpine, direction, offset, groups: 1 },
        SortDispatch { phase: SortPhase::ScanAdd, direction, offset, groups },
        SortDispatch { phase: SortPhase::Scatter, direction, offset, groups },
    ]
}

/// The first `passes` digit passes, after the keys were written into A.
pub open spec fn sort_plan_upto(passes: nat, stride: int, groups: u32) -> Seq<SortDispatch>
    decreases passes,
{
    if passes == 0 {
        seq![
            SortDispatch {
                phase: SortPhase::ComputeKeys,
                direction: SortDirection::BToA,
                offset: 0,
                groups,
            },
        ]
    } else {
        sort_plan_upto((passes - 1) as nat, stride, groups) + pass_plan(passes - 1, stride, groups)
    }
}

/// The dispatches that sort one cloud, in order.
pub open spec fn sort_plan_of(stride: int, groups: u32) -> Seq<SortDispatch> {
    sort_plan_upto(RADIX_PASSES as nat, stride, groups)
}

/// Plans the dispatches that sort one cloud.
pub fn sort_plan(stride: u32, groups: u32) -> (r: Vec<SortDispatch>)
    requires
        RADIX_PASSES * stride <= u32::MAX,
    ensures
        r@ == sort_plan_of(stride as int, groups),
{
    let mut out: Vec<SortDispatch> = Vec::new();
    out.push(
        SortDispatch {
            phase: SortPhase::ComputeKeys,
            direction: SortDirection::BToA,
            offset: 0,
            groups,
        },
    );
    assert(out@ == sort_plan_upto(0, stride as int, groups));
    let mut p: u32 = 0;
    while p < RADIX_PASSES
        invariant
            p <= RADIX_PASSES,
            RADIX_PASSES * stride <= u32::MAX,
            out@ == sort_plan_upto(p as nat, stride as int, groups),
        decreases RADIX_PASSES - p,
    {
        let direction = if p % 2 == 0 {
            SortDirection::AToB
        } else {
            SortDirection::BToA
        };
        assert(p * stride <= 4 * stride) by (nonlinear_arith)
            requires
                p <= 4,
                stride >= 0,
        ;
        let offset: u32 = p * stride;
        let ghost before = out@;
        out.push(SortDispatch { phase: SortPhase::Histogram, direction, offset, groups });
        out.push(SortDispatch { phase: SortPhase::ScanReduce, direction, offset, groups });
        out.push(SortDispatch { phase: SortPhase::ScanSpine, direction, offset, groups: 1 });
        out.push(SortDispatch { phase: SortPhase::ScanAdd, direction, offset, groups });
        out.push(SortDispatch { phase: SortPhase::Scatter, direction, offset, groups });
        assert(out@ == before + pass_plan(p as int, stride as int, groups));
        p += 1;
    }
    out
}

/// Each digit pass reads the side that the one before it wrote, the first reads
/// the side that the keys were written to, and the last one leaves the sorted
/// values in A, where the draw reads them.
pub proof fn passes_hand_over(stride: int, groups: u32)
    ensures
        sort_plan_of(stride, groups).len() == 1 + 5 * RADIX_PASSES,
        sort_plan_of(stride, groups)[0].phase == SortPhase::ComputeKeys,
        sort_plan_of(stride, groups)[0].direction == SortDirection::BToA,
        forall|p: int, k: int|
            #![trigger pass_direction(p), pass_direction(k)]
            0 <= p < RADIX_PASSES && k == p + 1 ==> pass_direction(p) != pass_direction(k),
        pass_direction(0) == SortDirection::AToB,
        pass_direction(RADIX_PASSES - 1) == SortDirection::BToA,
        forall|i: int|
            1 <= i < 1 + 5 * RADIX_PASSES ==> (#[trigger] sort_plan_of(
                stride,
                groups,
            )[i]).direction == pass_direction((i - 1) / 5),
{
    reveal_with_fuel(sort_plan_upto, 5);
    let plan = sort_plan_of(stride, groups);
    assert forall|i: int| 1 <= i < 21 implies (#[trigger] plan[i]).direction == pass_direction(
        (i - 1) / 5,
    ) by {
        lemma_plan_entry(4, stride, groups, i);
    }
}

proof fn lemma_plan_entry(passes: nat, stride: int, groups: u32, i: int)
    requires
        1 <= i < 1 + 5 * passes,
    ensures
        sort_plan_upto(passes, stride, groups).len() == 1 + 5 * passes,
        sort_plan_upto(passes, stride, groups)[i] == pass_plan((i - 1) / 5, stride, groups)[(i - 1)
            % 5],
    decreases passes,
{
    lemma_plan_len((passes - 1) as nat, stride, groups);
    if i < 1 + 5 * (passes - 1) {
        lemma_plan_entry((passes - 1) as nat, stride, groups, i);
    }
}

proof fn lemma_plan_len(passes: nat, stride: int, groups: u32)
    ensures
        sort_plan_upto(passes, stride, groups).len() == 1 + 5 * passes,
    decreases passes,
{
    if passes > 0 {
        lemma_plan_len((passes - 1) as nat, stride, groups);
    }
}

/// A loaded cloud and the state of its sort.
pub struct SplatModel {
    pub splats: Vec<SplatInstance>,
    pub num_splats: u32,
    pub buffers: SortBuffers,
    pub pass_stride: u32,
    /// Depth row of the view at the last sort; NaN before the first one.
    pub last_sort_zc: [FloatBits; 4],
}

impl SplatModel {
    pub open spec fn wf(&self) -> bool {
        &&& self.num_splats == self.splats@.len()
        &&& self.num_splats <= MAX_SPLATS
        &&& self.buffers.num_tiles == tiles_for(self.num_splats as nat)
        &&& 16 <= self.pass_stride
        &&& RADIX_PASSES * self.pass_stride <= u32::MAX
    }
}

/// What one frame does with the active cloud.
pub struct SplatFrame {
    /// Which cloud is drawn.
    pub model: usize,
    /// The sort to run before the draw; empty where the last order still holds.
    pub sort: Vec<SortDispatch>,
    /// Vertices to draw: two triangles per splat.
    pub vertices: u32,
}

/// The quiet NaN that stands for "not sorted yet".
pub const NAN: FloatBits = 0x7fc0_0000;

/// All loaded clouds, one of which is drawn.
pub struct GaussianSplatPass {
    pub models: Vec<SplatModel>,
    pub active_model: usize,
    pub params: SplatParams,
}

impl GaussianSplatPass {
    /// The active index names a cloud, or is zero where there is none.
    pub open spec fn wf(&self) -> bool {
        &&& self.active_model == 0 || self.active_model < self.models@.len()
        &&& forall|i: int| 0 <= i < self.models@.len() ==> (#[trigger] self.models@[i]).wf()
    }

    /// A pass without clouds.
    pub fn new() -> (r: Self)
        ensures
            r.wf(),
            r.models@.len() == 0,
            r.active_model == 0,
            r.params == (SplatParams {
                falloff: 0x4100_0000,
                scale: ONE,
                contrast: ONE,
                max_sh_degree: 0,
                overall_scale: ONE,
            }),
    {
        GaussianSplatPass { models: Vec::new(), active_model: 0, params: SplatParams::default() }
    }

    pub fn set_params(&mut self, params: &SplatParams)
        ensures
            *final(self) == (GaussianSplatPass { params: *params, ..*old(self) }),
    {
        self.params = *params;
    }

    /// Number of clouds loaded.
    pub fn num_models(&self) -> (r: usize)
        ensures
            r == self.models@.len(),
    {
        self.models.len()
    }

    /// Selects the cloud to draw; an index out of range is ignored.
    pub fn set_active_model(&mut self, index: usize)
        requires
            old(self).wf(),
        ensures
            final(self).wf(),
            final(self).models == old(self).models,
            final(self).params == old(self).params,
            final(self).active_model == if index < old(self).models@.len() {
                index
            } else {
                old(self).active_model
            },
    {
        if index < self.models.len() {
            self.active_model = index;
        }
    }

    /// Unloads every cloud.
    pub fn clear_models(&mut self)
        ensures
            final(self).wf(),
            final(self).models@.len() == 0,
            final(self).active_model == 0,
            final(self).params == old(self).params,
    {
        self.models.clear();
        self.active_model = 0;
    }

    /// The active index after cloud `index` of `len` clouds was removed.
    pub open spec fn active_after_removal(active: int, index: int, len: int) -> int {
        if len == 1 {
            0
        } else if index < active {
            active - 1
        } else if index == active && active == len - 1 {
            active - 1
        } else {
            active
        }
    }

    /// Unloads one cloud and keeps the others; the active index goes on naming
    /// the same cloud, or the next one where the active cloud was removed. An
    /// index out of range is ignored.
    pub fn remove_model(&mut self, index: usize)
        requires
            old(self).wf(),
        ensures
            final(self).wf(),
            final(self).params == old(self).params,
            index >= old(self).models@.len() ==> *final(self) == *old(self),
            index < old(self).models@.len() ==> {
                &&& final(self).models@ == old(self).models@.remove(index as int)
                &&& final(self).active_model == Self::active_after_removal(
                    old(self).active_model as int,
                    index as int,
                    old(self).models@.len() as int,
                )
            },
    {
        if index >= self.models.len() {
            return;
        }
        self.models.remove(index);
        if self.models.len() == 0 {
            self.active_model = 0;
        } else if index < self.active_model {
            self.active_model -= 1;
        } else if index == self.active_model {
            let last: usize = self.models.len() - 1;
            if last < self.active_model {
                self.active_model = last;
            }
        }
        assert forall|i: int| 0 <= i < self.models@.len() implies (
        #[trigger] self.models@[i]).wf() by {
            assert(self.models@[i] == old(self).models@[i] || self.models@[i] == old(
                self,
            ).models@[i + 1]);
        }
    }

    /// Number of splats in the active cloud; zero where there is none.
    pub fn active_splat_count(&self) -> (r: u32)
        requires
            self.wf(),
        ensures
            r == if self.models@.len() == 0 {
                0
            } else {
                self.models@[self.active_model as int].num_splats
            },
    {
        if self.active_model < self.models.len() {
            self.models[self.active_model].num_splats
        } else {
            0
        }
    }

    pub fn has_model(&self) -> (r: bool)
        ensures
            r == (self.models@.len() > 0),
    {
        self.models.len() != 0
    }

    /// The cloud that `add_model` appends.
    pub open spec fn is_new_model(m: SplatModel, instances: Seq<SplatInstance>, alignment: u32) -> bool {
        &&& m.wf()
        &&& m.splats@ == instances
        &&& m.buffers.slot_bytes == m.buffers.num_tiles * SORT_WORKGROUP_SIZE * 4
        &&& m.buffers.hist_bytes == 256 * m.buffers.num_tiles * 4
        &&& m.buffers.block_sum_bytes == m.buffers.num_tiles * 4
        &&& m.pass_stride == if alignment < 16 {
            16
        } else {
            alignment
        }
        &&& m.last_sort_zc@ == seq![NAN, NAN, NAN, NAN]
    }

    /// Appends a cloud with fresh sort state.
    pub fn add_model(&mut self, instances: Vec<SplatInstance>, min_uniform_buffer_offset_alignment: u32)
        requires
            old(self).wf(),
            instances@.len() <= MAX_SPLATS,
            RADIX_PASSES * min_uniform_buffer_offset_alignment <= u32::MAX,
        ensures
            final(self).wf(),
            final(self).params == old(self).params,
            final(self).active_model == old(self).active_model,
            final(self).models@.len() == old(self).models@.len() + 1,
            final(self).models@.drop_last() == old(self).models@,
            Self::is_new_model(
                final(self).models@.last(),
                instances@,
                min_uniform_buffer_offset_alignment,
            ),
    {
        let num_splats: u32 = instances.len() as u32;
        let model = SplatModel {
            num_splats,
            buffers: sort_buffers(num_splats),
            pass_stride: pass_stride(min_uniform_buffer_offset_alignment),
            last_sort_zc: [NAN, NAN, NAN, NAN],
            splats: instances,
        };
        assert(model.last_sort_zc@ == seq![NAN, NAN, NAN, NAN]);
        self.models.push(model);
        assert(self.models@.drop_last() == old(self).models@);
    }

    /// Parses a `.ply` held in memory and appends it as a new cloud. On failure
    /// nothing changes and a short reason that can be shown is returned.
    pub fn load_from_bytes(
        &mut self,
        bytes: &[u8],
        name: &str,
        max_splats: usize,
        min_uniform_buffer_offset_alignment: u32,
    ) -> (r: Result<SplatLoadInfo, String>)
        requires
            old(self).wf(),
            max_splats <= MAX_SPLATS,
            RADIX_PASSES * min_uniform_buffer_offset_alignment <= u32::MAX,
        ensures
            final(self).wf(),
            match r {
                Err(e) => {
                    &&& is_parse_result(Err(e), bytes@, max_splats as nat)
                    &&& *final(self) == *old(self)
                },
                Ok(info) => {
                    &&& is_parse_result(
                        Ok(
                            SplatParse {
                                instances: final(self).models@.last().splats,
                                clamped_from: info.clamped_from,
                            },
                        ),
                        bytes@,
                        max_splats as nat,
                    )
                    &&& final(self).models@.drop_last() == old(self).models@
                    &&& final(self).models@.len() == old(self).models@.len() + 1
                    &&& final(self).active_model == old(self).active_model
                    &&& final(self).params == old(self).params
                    &&& info.num_splats == final(self).models@.last().splats@.len()
                    &&& Self::is_new_model(
                        final(self).models@.last(),
                        final(self).models@.last().splats@,
                        min_uniform_buffer_offset_alignment,
                    )
                },
            },
    {
        let parse = match parse_splat_ply(bytes, name, max_splats) {
            Ok(parse) => parse,
            Err(e) => {
                return Err(e);
            },
        };
        let info = SplatLoadInfo {
            num_splats: parse.instances.len() as u32,
            clamped_from: parse.clamped_from,
        };
        self.add_model(parse.instances, min_uniform_buffer_offset_alignment);
        Ok(info)
    }

    /// A depth row that has not been sorted by yet.
    pub open spec fn unsorted(zc: Seq<FloatBits>) -> bool {
        is_nan(zc[0])
    }

    /// Plans one frame. `visible` says whether the active cloud's bounding sphere
    /// meets the view, `zc` is the depth row of the view, and `turned` says
    /// whether its direction moved since the last sort. Nothing is drawn, and
    /// nothing changes, where there is no cloud, it is empty or it is not visible.
    /// Translation alone keeps the order, so it causes no sort.
    pub fn render(&mut self, visible: bool, zc: [FloatBits; 4], turned: bool) -> (r: Option<SplatFrame>)
        requires
            old(self).wf(),
        ensures
            final(self).wf(),
            ({
                let active = old(self).active_model as int;
                let drawn = active < old(self).models@.len() && old(
                    self,
                ).models@[active].num_splats > 0 && visible;
                let model = old(self).models@[active];
                let sorts = turned || Self::unsorted(model.last_sort_zc@);
                &&& r is Some <==> drawn
                &&& !(drawn && sorts) ==> *final(self) == *old(self)
                &&& drawn && sorts ==> {
                    &&& final(self).models@ == old(self).models@.update(
                        active,
                        SplatModel { last_sort_zc: zc, ..model },
                    )
                    &&& final(self).active_model == old(self).active_model
                    &&& final(self).params == old(self).params
                }
                &&& r matches Some(frame) ==> {
                    &&& frame.model == active
                    &&& frame.vertices == 6 * model.num_splats
                    &&& frame.sort@ == if sorts {
                        sort_plan_of(model.pass_stride as int, model.buffers.num_tiles)
                    } else {
                        seq![]
                    }
                }
            }),
    {
        let active: usize = self.active_model;
        if active >= self.models.len() {
            return None;
        }
        let num_splats: u32 = self.models[active].num_splats;
        if num_splats == 0 || !visible {
            return None;
        }
        let sorts = turned || float_is_nan(self.models[active].last_sort_zc[0]);
        let sort = if sorts {
            let plan = sort_plan(
                self.models[active].pass_stride,
                self.models[active].buffers.num_tiles,
            );
            self.models[active].last_sort_zc = zc;
            plan
        } else {
            Vec::new()
        };
        Some(SplatFrame { model: active, sort, vertices: num_splats * 6 })
    }
}

/// Removing a cloud other than the active one leaves the same cloud active.
pub proof fn removal_keeps_the_active_cloud(models: Seq<SplatModel>, active: int, index: int)
    requires
        0 <= active < models.len(),
        0 <= index < models.len(),
        index != active,
    ensures
        models.remove(index)[GaussianSplatPass::active_after_removal(
            active,
            index,
            models.len() as int,
        )] == models[active],
{
}

/// The pipeline that draws the sorted splats into their own target. They are
/// blended among themselves and tested against the scene's depth, which they do
/// not write.
pub fn draw_pipeline() -> (r: PipelinePlan)
    ensures
        groups_view(r.groups@) == seq![
            bindings_of(Stage::VertexFragment, seq![BindingKind::Uniform]),
            bindings_of(
                Stage::Vertex,
                seq![
                    BindingKind::Storage { read_only: true },
                    BindingKind::Storage { read_only: true },
                ],
            ),
        ],
        !r.vertex_buffer,
        r.targets@ == seq![
            Target { format: TargetFormat::SceneColor, blend: Some(alpha_blend()) },
        ],
        !r.cull_back,
        r.topology == Topology::TriangleList,
        r.depth == Some(DepthTest { compare: DepthCompare::LessEqual, write: false }),
{
    let kinds: [BindingKind; 2] = [
        BindingKind::Storage { read_only: true },
        BindingKind::Storage { read_only: true },
    ];
    assert(kinds@ == seq![
        BindingKind::Storage { read_only: true },
        BindingKind::Storage { read_only: true },
    ]);
    PipelinePlan {
        groups: two_groups(
            uniform_binding(Stage::VertexFragment),
            bindings(Stage::Vertex, &kinds),
        ),
        vertex_buffer: false,
        targets: one_target(TargetFormat::SceneColor, Some(blend_alpha())),
        cull_back: false,
        topology: Topology::TriangleList,
        depth: Some(DepthTest { compare: DepthCompare::LessEqual, write: false }),
    }
}

/// What the sort kernels bind: the globals, the splats, keys and values to read and
/// to write, the histogram and the scan spine.
pub open spec fn sort_inputs() -> Seq<BindingKind> {
    seq![
        BindingKind::Uniform,
        BindingKind::Storage { read_only: true },
        BindingKind::Storage { read_only: true },
        BindingKind::Storage { read_only: false },
        BindingKind::Storage { read_only: true },
        BindingKind::Storage { read_only: false },
        BindingKind::Storage { read_only: false },
        BindingKind::Storage { read_only: false },
    ]
}

/// The bind groups of the sort kernels: what they work on, and the slot of their
/// digit pass.
pub fn sort_layouts() -> (r: Vec<Vec<Binding>>)
    ensures
        groups_view(r@) == seq![
            bindings_of(Stage::Compute, sort_inputs()),
            bindings_of(Stage::Compute, seq![BindingKind::DynamicUniform(16)]),
        ],
{
    let kinds: [BindingKind; 8] = [
        BindingKind::Uniform,
        BindingKind::Storage { read_only: true },
        BindingKind::Storage { read_only: true },
        BindingKind::Storage { read_only: false },
        BindingKind::Storage { read_only: true },
        BindingKind::Storage { read_only: false },
        BindingKind::Storage { read_only: false },
        BindingKind::Storage { read_only: false },
    ];
    assert(kinds@ == sort_inputs());
    let slot: [BindingKind; 1] = [BindingKind::DynamicUniform(16)];
    assert(slot@ == seq![BindingKind::DynamicUniform(16)]);
    two_groups(bindings(Stage::Compute, &kinds), bindings(Stage::Compute, &slot))
}

/// Buffers of the sort.
#[derive(Clone, Copy, PartialEq, Eq, Structural)]
pub enum SortBuffer {
    Globals,
    Splats,
    KeysA,
    KeysB,
    ValsA,
    ValsB,
    Hist,
    BlockSums,
}

/// The buffers that a direction binds, in the order of `sort_inputs`.
pub open spec fn sort_buffers_of(direction: SortDirection) -> Seq<SortBuffer> {
    match direction {
        SortDirection::AToB => seq![
            SortBuffer::Globals,
            SortBuffer::Splats,
            SortBuffer::KeysA,
            SortBuffer::KeysB,
            SortBuffer::ValsA,
            SortBuffer::ValsB,
            SortBuffer::Hist,
            SortBuffer::BlockSums,
        ],
        SortDirection::BToA => seq![
            SortBuffer::Globals,
            SortBuffer::Splats,
            SortBuffer::KeysB,
            SortBuffer::KeysA,
            SortBuffer::ValsB,
            SortBuffer::ValsA,
            SortBuffer::Hist,
            SortBuffer::BlockSums,
        ],
    }
}

/// The buffers that a direction binds.
pub fn sort_bindings(direction: SortDirection) -> (r: [SortBuffer; 8])
    ensures
        r@ == sort_buffers_of(direction),
{
    let (keys_in, keys_out, vals_in, vals_out) = match direction {
        SortDirection::AToB => (
            SortBuffer::KeysA,
            SortBuffer::KeysB,
            SortBuffer::ValsA,
            SortBuffer::ValsB,
        ),
        SortDirection::BToA => (
            SortBuffer::KeysB,
            SortBuffer::KeysA,
            SortBuffer::ValsB,
            SortBuffer::ValsA,
        ),
    };
    let r = [
        SortBuffer::Globals,
        SortBuffer::Splats,
        keys_in,
        keys_out,
        vals_in,
        vals_out,
        SortBuffer::Hist,
        SortBuffer::BlockSums,
    ];
    assert(r@ == sort_buffers_of(direction));
    r
}

/// A kernel never writes a buffer that it also binds elsewhere, and what one
/// direction writes the other one reads.
pub proof fn sort_buffers_stay_apart(direction: SortDirection, i: int, j: int)
    requires
        0 <= i < 8,
        0 <= j < 8,
        i != j,
    ensures
        sort_buffers_of(direction)[i] != sort_buffers_of(direction)[j],
        sort_buffers_of(SortDirection::AToB)[3] == sort_buffers_of(SortDirection::BToA)[2],
        sort_buffers_of(SortDirection::AToB)[5] == sort_buffers_of(SortDirection::BToA)[4],
        sort_buffers_of(SortDirection::BToA)[3] == sort_buffers_of(SortDirection::AToB)[2],
        sort_buffers_of(SortDirection::BToA)[5] == sort_buffers_of(SortDirection::AToB)[4],
{
}

/// `b` is `a` with its sign bit turned round and every other bit kept.
pub open spec fn opposite(a: FloatBits, b: FloatBits) -> bool {
    (b >= 0x8000_0000) != (a >= 0x8000_0000) && b % 0x8000_0000 == a % 0x8000_0000
}

/// The file's frame is turned by half a turn about z into the engine's, in the position
/// and in the rotation: x and y have the opposite sign and the same size, and z and the
/// real part stay. Scale, opacity and color are taken over as they are.
pub proof fn splats_are_turned_about_z(s: SplatInstance, values: Seq<FloatBits>, k: int)
    requires
        values.len() == 38,
        s.holds(values),
    ensures
        opposite(values[0], s.position@[0]),
        opposite(values[1], s.position@[1]),
        s.position@[2] == values[2],
        opposite(values[4], s.rotation@[0]),
        opposite(values[5], s.rotation@[1]),
        s.rotation@[2] == values[6],
        s.rotation@[3] == values[3],
        0 <= k < 4 ==> s.scale_opacity@[k] == values[7 + k],
        0 <= k < 3 ==> s.sh0@[k] == values[11 + k],
        0 <= k < 24 ==> s.sh_rest@[k] == values[14 + k],
        s.position@[3] == 0,
        s.sh0@[3] == 0,
{
}

/// A half turn taken twice is no turn: a splat that is read from what another one was
/// turned into stands where the first one's vertex stood, turned as that was.
pub proof fn two_half_turns_are_none(
    s: SplatInstance,
    values: Seq<FloatBits>,
    t: SplatInstance,
    turned: Seq<FloatBits>,
)
    requires
        values.len() == 38,
        turned.len() == 38,
        s.holds(values),
        t.holds(turned),
        turned[0] == s.position@[0] && turned[1] == s.position@[1] && turned[2] == s.position@[2],
        turned[3] == s.rotation@[3] && turned[4] == s.rotation@[0] && turned[5] == s.rotation@[1]
            && turned[6] == s.rotation@[2],
    ensures
        t.position@[0] == values[0],
        t.position@[1] == values[1],
        t.position@[2] == values[2],
        t.rotation@[0] == values[4],
        t.rotation@[1] == values[5],
        t.rotation@[2] == values[6],
        t.rotation@[3] == values[3],
{
}

/// Two vertices with different values make different splats: nothing that a vertex holds
/// is lost.
pub proof fn different_vertices_make_different_splats(
    s: SplatInstance,
    values: Seq<FloatBits>,
    t: SplatInstance,
    others: Seq<FloatBits>,
    k: int,
)
    requires
        values.len() == 38,
        others.len() == 38,
        s.holds(values),
        t.holds(others),
        0 <= k < 38,
        values[k] != others[k],
    ensures
        k < 3 ==> s.position@[k] != t.position@[k],
        3 <= k < 7 ==> s.rotation@ != t.rotation@,
        7 <= k < 11 ==> s.scale_opacity@ != t.scale_opacity@,
        11 <= k < 14 ==> s.sh0@ != t.sh0@,
        14 <= k ==> s.sh_rest@ != t.sh_rest@,
{
    if 3 <= k < 7 {
        assert(s.rotation@[0] != t.rotation@[0] || s.rotation@[1] != t.rotation@[1]
            || s.rotation@[2] != t.rotation@[2] || s.rotation@[3] != t.rotation@[3]);
    }
    if 7 <= k < 11 {
        assert(s.scale_opacity@[k - 7] != t.scale_opacity@[k - 7]);
    }
    if 11 <= k < 14 {
        assert(s.sh0@[k - 11] != t.sh0@[k - 11]);
    }
    if 14 <= k {
        assert(s.sh_rest@[k - 14] != t.sh_rest@[k - 14]);
    }
}

/// Bytes that begin with a written header, its end marker and a line feed, and then hold
/// vertices. The marker does not stand anywhere before.
pub open spec fn is_written(bytes: Seq<u8>, count: nat, props: Seq<Property>) -> bool {
    let head = encode_utf8(header_text(count, props));
    let marker = encode_utf8("end_header"@);
    let n = head.len() as int;
    &&& n + 11 <= bytes.len()
    &&& bytes.take(n) == head
    &&& bytes.subrange(n, n + 10) == marker
    &&& bytes[n + 10] == 0x0a
    &&& forall|j: int| 0 <= j < n ==> !#[trigger] found_at(bytes, marker, j)
}

/// Where the vertices of a written file begin.
pub open spec fn written_start(count: nat, props: Seq<Property>) -> int {
    encode_utf8(header_text(count, props)).len() as int + 11
}

/// The number at `at`, lowest byte first, is `w`.
pub open spec fn reads(bytes: Seq<u8>, at: int, w: FloatBits) -> bool {
    w as int == bytes[at] + 0x100 * bytes[at + 1] + 0x1_0000 * bytes[at + 2] + 0x100_0000 * bytes[at
        + 3]
}

/// The names of the properties.
pub open spec fn names_of(props: Seq<Property>) -> Set<Seq<char>> {
    Set::new(|n: Seq<char>| exists|j: int| 0 <= j < props.len() && (#[trigger] props[j]).name == n)
}

/// A splat's properties are all there that have to be.
pub open spec fn lists_a_splat(props: Seq<Property>) -> bool {
    &&& names_of(props).contains("x"@) && names_of(props).contains("y"@) && names_of(
        props,
    ).contains("z"@)
    &&& names_of(props).contains("scale_0"@) && names_of(props).contains("rot_0"@)
    &&& names_of(props).contains("opacity"@) && names_of(props).contains("f_dc_0"@)
}

/// Where the header of a written file ends, and where its vertices begin.
pub(crate) proof fn lemma_header_end(bytes: Seq<u8>, count: nat, props: Seq<Property>)
    requires
        is_written(bytes, count, props),
    ensures
        ({
            let text = header_text(count, props);
            let n = encode_utf8(text).len() as int;
            &&& first_found(bytes, encode_utf8("end_header"@)) == Some(n)
            &&& encode_utf8("end_header"@).len() == 10
            &&& valid_utf8(bytes.take(n))
            &&& decode_utf8(bytes.take(n)) == text
            &&& data_start(bytes, n + 10) == n + 11
        }),
{
    let text = header_text(count, props);
    let marker = encode_utf8("end_header"@);
    let n = encode_utf8(text).len() as int;
    lemma_marker();
    assert(found_at(bytes, marker, n));
    let pos = first_found(bytes, marker)->0;
    assert(exists|i: int| found_at(bytes, marker, i));
    assert(found_at(bytes, marker, pos) && forall|j: int|
        0 <= j < pos ==> !found_at(bytes, marker, j));
    assert(pos == n);
    encode_utf8_decode_utf8(text);
    encode_utf8_valid_utf8(text);
}

/// How many whole vertices there are.
pub(crate) proof fn lemma_whole_vertices(len: int, start: int, size: nat, there: nat)
    requires
        0 <= start <= len,
        start + there * size <= len,
        len < start + (there + 1) * size,
    ensures
        size > 0,
        vertices_present(len as nat, start, size) == there,
{
    assert(size > 0) by (nonlinear_arith)
        requires
            len < start + (there + 1) * size,
            start <= len,
            size >= 0,
    ;
    assert((len - start) / (size as int) == there) by (nonlinear_arith)
        requires
            start + there * size <= len,
            len < start + (there + 1) * size,
            size > 0,
    ;
}

#[verifier::rlimit(60)]
proof fn lemma_source(bytes: Seq<u8>, count: nat, props: Seq<Property>, there: nat)
    requires
        writable(props),
        lists_a_splat(props),
        0 < count <= usize::MAX,
        is_written(bytes, count, props),
        there > 0,
        written_start(count, props) + there * bytes_before(props, props.len() as int)
            <= bytes.len(),
        bytes.len() < written_start(count, props) + (there + 1) * bytes_before(
            props,
            props.len() as int,
        ),
    ensures
        splat_source(bytes) matches Ok(src) && {
            &&& src.start == written_start(count, props)
            &&& src.header == header_of(header_text(count, props))
            &&& src.header.stride == bytes_before(props, props.len() as int)
            &&& src.present == if there < count {
                there
            } else {
                count
            }
            &&& src.fields == splat_fields(src.header, rest_per_channel(src.header))
        },
{
    let text = header_text(count, props);
    let n = encode_utf8(text).len() as int;
    let stride = bytes_before(props, props.len() as int);
    lemma_header_end(bytes, count, props);
    let x = choose|j: int| 0 <= j < props.len() && (#[trigger] props[j]).name == "x"@;
    written_headers_are_read_back(count, props, x, "x"@);
    let h = header_of(text);
    assert(first_unsupported(h.formats) is None) by {
        reveal_with_fuel(first_unsupported, 2);
        assert(h.formats.skip(1).len() == 0);
    }
    written_headers_are_read_back(count, props, x, "y"@);
    written_headers_are_read_back(count, props, x, "z"@);
    written_headers_are_read_back(count, props, x, "scale_0"@);
    written_headers_are_read_back(count, props, x, "rot_0"@);
    written_headers_are_read_back(count, props, x, "opacity"@);
    written_headers_are_read_back(count, props, x, "f_dc_0"@);
    lemma_none_missing(h);
    lemma_whole_vertices(bytes.len() as int, n + 11, stride, there);
}

proof fn lemma_none_missing(h: HeaderModel)
    requires
        h.offsets.contains_key("x"@),
        h.offsets.contains_key("y"@),
        h.offsets.contains_key("z"@),
        h.offsets.contains_key("scale_0"@),
        h.offsets.contains_key("rot_0"@),
        h.offsets.contains_key("opacity"@),
        h.offsets.contains_key("f_dc_0"@),
    ensures
        first_missing(h, required_names()) is None,
{
    lemma_none_missing_from(h, required_names(), 0);
}

proof fn lemma_none_missing_from(h: HeaderModel, names: Seq<Seq<char>>, i: int)
    requires
        0 <= i <= names.len(),
        forall|k: int| 0 <= k < names.len() ==> h.offsets.contains_key(#[trigger] names[k]),
    ensures
        first_missing(h, names.skip(i)) is None,
        first_missing(h, names) == first_missing(h, names.skip(0)),
    decreases names.len() - i,
{
    assert(names.skip(0) =~= names);
    if i < names.len() {
        lemma_none_missing_from(h, names, i + 1);
        assert(names.skip(i).skip(1) =~= names.skip(i + 1));
        assert(names.skip(i)[0] == names[i]);
    }
}

/// The value of the field that a property writes.
pub(crate) proof fn lemma_field(
    bytes: Seq<u8>,
    count: nat,
    props: Seq<Property>,
    base: int,
    per_channel: nat,
    k: int,
    p: int,
)
    requires
        writable(props),
        count <= usize::MAX,
        0 <= k < 38,
        0 <= p < props.len(),
        splat_field_names(per_channel)[k] == props[p].name,
        0 <= base,
        base + bytes_before(props, p) + 4 <= bytes.len(),
    ensures
        ({
            let h = header_of(header_text(count, props));
            let v = vertex_values(bytes, base, splat_fields(h, per_channel));
            &&& v.len() == 38
            &&& reads(bytes, base + bytes_before(props, p), v[k])
        }),
{
    written_headers_are_read_back(count, props, p, props[p].name);
    words_hold_their_bytes(bytes, base + bytes_before(props, p));
}

/// A file that follows a written header with `there` whole vertices of four-byte
/// properties.
pub open spec fn is_cloud(bytes: Seq<u8>, count: nat, props: Seq<Property>, there: nat) -> bool {
    let size = bytes_before(props, props.len() as int);
    &&& writable(props)
    &&& lists_a_splat(props)
    &&& forall|p: int| 0 <= p < props.len() ==> (#[trigger] props[p]).size == 4
    &&& 0 < count <= usize::MAX
    &&& is_written(bytes, count, props)
    &&& there > 0
    &&& written_start(count, props) + there * size <= bytes.len()
    &&& bytes.len() < written_start(count, props) + (there + 1) * size
}

/// The values of vertex `i` of such a file.
#[verifier::opaque]
spec fn written_values(bytes: Seq<u8>, count: nat, props: Seq<Property>, i: int) -> Seq<FloatBits> {
    let h = header_of(header_text(count, props));
    vertex_values(
        bytes,
        written_start(count, props) + i * bytes_before(props, props.len() as int),
        splat_fields(h, rest_per_channel(h)),
    )
}

#[verifier::rlimit(60)]
proof fn lemma_parsed(
    bytes: Seq<u8>,
    count: nat,
    props: Seq<Property>,
    there: nat,
    max_splats: nat,
    r: Result<SplatParse, String>,
)
    requires
        is_cloud(bytes, count, props, there),
        is_parse_result(r, bytes, max_splats),
    ensures
        ({
            let present = if there < count {
                there
            } else {
                count
            };
            &&& r is Ok
            &&& r->Ok_0.instances@.len() == if present < max_splats {
                present
            } else {
                max_splats
            }
            &&& present > max_splats ==> r->Ok_0.clamped_from == Some(present as usize)
            &&& present <= max_splats ==> r->Ok_0.clamped_from is None
            &&& forall|i: int|
                0 <= i < r->Ok_0.instances@.len() ==> (#[trigger] r->Ok_0.instances@[i]).holds(
                    written_values(bytes, count, props, i),
                )
        }),
{
    reveal(written_values);
    let size = bytes_before(props, props.len() as int);
    let start = written_start(count, props);
    lemma_source(bytes, count, props, there);
    let src = splat_source(bytes)->Ok_0;
    let kept = src.kept(max_splats);
    if kept > 0 {
        lemma_vertex_within(bytes.len() as int, start, size as int, there as int, kept - 1);
        lemma_all_fit(bytes, count, props, src.base(kept - 1), rest_per_channel(src.header));
    }
    assert(src.fits(bytes, kept));
}

proof fn lemma_written_field(
    bytes: Seq<u8>,
    count: nat,
    props: Seq<Property>,
    there: nat,
    i: int,
    k: int,
    p: int,
)
    requires
        is_cloud(bytes, count, props, there),
        0 <= i < there,
        0 <= k < 38,
        0 <= p < props.len(),
        splat_field_names(rest_per_channel(header_of(header_text(count, props))))[k]
            == props[p].name,
    ensures
        written_values(bytes, count, props, i).len() == 38,
        reads(
            bytes,
            written_start(count, props) + i * bytes_before(props, props.len() as int)
                + bytes_before(props, p),
            written_values(bytes, count, props, i)[k],
        ),
{
    reveal(written_values);
    let size = bytes_before(props, props.len() as int);
    let start = written_start(count, props);
    let base = start + i * size;
    lemma_fours(props, props.len() as int);
    lemma_fours(props, p);
    lemma_vertex_within(bytes.len() as int, start, size as int, there as int, i);
    lemma_field(
        bytes,
        count,
        props,
        base,
        rest_per_channel(header_of(header_text(count, props))),
        k,
        p,
    );
}

/// A cloud that was written is read back. `there` whole vertices follow the header; the
/// reader keeps as many as the header claims, as are there and as the budget allows, and
/// says how many there were where the budget cut them short. Vertex `i` lies `i` sizes of
/// a vertex behind the header, and the splat made of it has, turned by half a turn about
/// z, the position that the properties `x`, `y` and `z` hold there.
#[verifier::rlimit(60)]
pub proof fn written_clouds_are_read_back(
    bytes: Seq<u8>,
    count: nat,
    props: Seq<Property>,
    there: nat,
    max_splats: nat,
    r: Result<SplatParse, String>,
    i: int,
    x: int,
    y: int,
    z: int,
)
    requires
        is_cloud(bytes, count, props, there),
        is_parse_result(r, bytes, max_splats),
        0 <= x < props.len() && props[x].name == "x"@,
        0 <= y < props.len() && props[y].name == "y"@,
        0 <= z < props.len() && props[z].name == "z"@,
    ensures
        ({
            let size = bytes_before(props, props.len() as int);
            let base = written_start(count, props) + i * size;
            let present = if there < count {
                there
            } else {
                count
            };
            &&& r is Ok
            &&& r->Ok_0.instances@.len() == if present < max_splats {
                present
            } else {
                max_splats
            }
            &&& present > max_splats ==> r->Ok_0.clamped_from == Some(present as usize)
            &&& present <= max_splats ==> r->Ok_0.clamped_from is None
            &&& 0 <= i < r->Ok_0.instances@.len() ==> {
                let s = r->Ok_0.instances@[i];
                &&& reads(bytes, base + bytes_before(props, z), s.position@[2])
                &&& exists|w: FloatBits| #[trigger]
                    reads(bytes, base + bytes_before(props, x), w) && opposite(w, s.position@[0])
                &&& exists|w: FloatBits| #[trigger]
                    reads(bytes, base + bytes_before(props, y), w) && opposite(w, s.position@[1])
            }
        }),
{
    lemma_parsed(bytes, count, props, there, max_splats, r);
    if 0 <= i < r->Ok_0.instances@.len() {
        let s = r->Ok_0.instances@[i];
        let v = written_values(bytes, count, props, i);
        let base = written_start(count, props) + i * bytes_before(props, props.len() as int);
        lemma_written_field(bytes, count, props, there, i, 0, x);
        lemma_written_field(bytes, count, props, there, i, 1, y);
        lemma_written_field(bytes, count, props, there, i, 2, z);
        splats_are_turned_about_z(s, v, 0);
        assert(reads(bytes, base + bytes_before(props, x), v[0]) && opposite(v[0], s.position@[0]));
        assert(reads(bytes, base + bytes_before(props, y), v[1]) && opposite(v[1], s.position@[1]));
    }
}

pub(crate) proof fn lemma_fours(props: Seq<Property>, n: int)
    requires
        0 <= n <= props.len(),
        forall|p: int| 0 <= p < props.len() ==> (#[trigger] props[p]).size == 4,
    ensures
        bytes_before(props, n) == 4 * n,
    decreases n,
{
    if n > 0 {
        lemma_fours(props, n - 1);
    }
}

pub(crate) proof fn lemma_vertex_within(len: int, start: int, size: int, there: int, i: int)
    requires
        0 <= i < there,
        0 <= size,
        0 <= start,
        start + there * size <= len,
    ensures
        0 <= i * size,
        start + i * size + size <= len,
{
    assert(0 <= i * size && i * size + size <= there * size) by (nonlinear_arith)
        requires
            0 <= i < there,
            0 <= size,
    ;
}

pub(crate) proof fn lemma_all_fit(
    bytes: Seq<u8>,
    count: nat,
    props: Seq<Property>,
    base: int,
    per: nat,
)
    requires
        writable(props),
        props.len() > 0,
        count <= usize::MAX,
        forall|p: int| 0 <= p < props.len() ==> (#[trigger] props[p]).size == 4,
        base + bytes_before(props, props.len() as int) <= bytes.len(),
    ensures
        vertex_fits(
            bytes.len(),
            base,
            splat_fields(header_of(header_text(count, props)), per),
        ),
{
    let h = header_of(header_text(count, props));
    let fields = splat_fields(h, per);
    let names = splat_field_names(per);
    lemma_fours(props, props.len() as int);
    assert forall|k: int| 0 <= k < fields.len() implies (#[trigger] fields[k] matches Some(o)
        ==> base + o + 4 <= bytes.len()) by {
        let name = names[k];
        assert(fields[k] == offset_of(h.offsets, name));
        written_headers_are_read_back(count, props, 0, name);
        if h.offsets.contains_key(name) {
            let j = choose|j: int| 0 <= j < props.len() && (#[trigger] props[j]).name == name;
            written_headers_are_read_back(count, props, j, name);
            lemma_fours(props, j);
        }
    }
}

/// What else a vertex holds reaches its splat: the rotation, whose real part is stored
/// first, turned with the position; the scale, the opacity and the color as they are;
/// and of the higher coefficients, which are stored channel after channel, the first
/// eight of each channel, laid out color by color. A property that is missing reads as
/// zero.
#[verifier::rlimit(60)]
pub proof fn written_vertices_reach_their_splats(
    bytes: Seq<u8>,
    count: nat,
    props: Seq<Property>,
    there: nat,
    max_splats: nat,
    parse: SplatParse,
    i: int,
    p: int,
    c: int,
    n: int,
)
    requires
        is_cloud(bytes, count, props, there),
        is_parse_result(Ok(parse), bytes, max_splats),
        0 <= i < parse.instances@.len(),
        0 <= p < props.len(),
        0 <= c < 3,
        0 <= n < 8,
    ensures
        ({
            let size = bytes_before(props, props.len() as int);
            let at = written_start(count, props) + i * size + bytes_before(props, p);
            let s = parse.instances@[i];
            let name = props[p].name;
            &&& name == "rot_0"@ ==> reads(bytes, at, s.rotation@[3])
            &&& name == "rot_1"@ ==> exists|w: FloatBits| #[trigger]
                reads(bytes, at, w) && opposite(w, s.rotation@[0])
            &&& name == "rot_2"@ ==> exists|w: FloatBits| #[trigger]
                reads(bytes, at, w) && opposite(w, s.rotation@[1])
            &&& name == "rot_3"@ ==> reads(bytes, at, s.rotation@[2])
            &&& name == "scale_0"@ ==> reads(bytes, at, s.scale_opacity@[0])
            &&& name == "scale_1"@ ==> reads(bytes, at, s.scale_opacity@[1])
            &&& name == "scale_2"@ ==> reads(bytes, at, s.scale_opacity@[2])
            &&& name == "opacity"@ ==> reads(bytes, at, s.scale_opacity@[3])
            &&& name == "f_dc_0"@ ==> reads(bytes, at, s.sh0@[0])
            &&& name == "f_dc_1"@ ==> reads(bytes, at, s.sh0@[1])
            &&& name == "f_dc_2"@ ==> reads(bytes, at, s.sh0@[2])
            &&& name == "f_rest_"@ + decimal(
                (n + c * (rest_names(props).len() / 3)) as nat,
            ) ==> reads(bytes, at, s.sh_rest@[3 * n + c])
            &&& !names_of(props).contains(
                "f_rest_"@ + decimal((n + c * (rest_names(props).len() / 3)) as nat),
            ) ==> s.sh_rest@[3 * n + c] == 0
        }),
{
    lemma_parsed(bytes, count, props, there, max_splats, Ok(parse));
    let h = header_of(header_text(count, props));
    let per = rest_per_channel(h);
    let s = parse.instances@[i];
    let v = written_values(bytes, count, props, i);
    let names = splat_field_names(per);
    lemma_rest_names(count, props, p);
    let k = 3 * n + c;
    assert(k / 3 == n && k % 3 == c);
    assert(names[14 + k] == "f_rest_"@ + decimal((n + c * per) as nat));
    lemma_names_in_order(per);
    assert forall|f: int| 3 <= f < 38 && #[trigger] names[f] == props[p].name implies reads(
        bytes,
        written_start(count, props) + i * bytes_before(props, props.len() as int) + bytes_before(
            props,
            p,
        ),
        v[f],
    ) by {
        lemma_written_field(bytes, count, props, there, i, f, p);
    }
    lemma_missing_field(bytes, count, props, i, 14 + k, p);
    splats_are_turned_about_z(s, v, 0);
    splats_are_turned_about_z(s, v, 1);
    splats_are_turned_about_z(s, v, 2);
    splats_are_turned_about_z(s, v, 3);
    splats_are_turned_about_z(s, v, k);
}

proof fn lemma_names_in_order(per: nat)
    ensures
        ({
            let names = splat_field_names(per);
            &&& names.len() == 38
            &&& names[3] == "rot_0"@ && names[4] == "rot_1"@ && names[5] == "rot_2"@ && names[6]
                == "rot_3"@
            &&& names[7] == "scale_0"@ && names[8] == "scale_1"@ && names[9] == "scale_2"@
            &&& names[10] == "opacity"@ && names[11] == "f_dc_0"@ && names[12] == "f_dc_1"@
                && names[13] == "f_dc_2"@
        }),
{
}

proof fn lemma_rest_names(count: nat, props: Seq<Property>, p: int)
    requires
        writable(props),
        count <= usize::MAX,
        0 <= p < props.len(),
    ensures
        rest_per_channel(header_of(header_text(count, props))) == rest_names(props).len() / 3,
{
    let h = header_of(header_text(count, props));
    reveal_strlit("f_rest_");
    assert forall|name: Seq<char>| #[trigger]
        names_with(h.offsets, "f_rest_"@).contains(name) <==> rest_names(props).contains(name) by {
        written_headers_are_read_back(count, props, p, name);
    }
    assert(names_with(h.offsets, "f_rest_"@) =~= rest_names(props));
}

proof fn lemma_missing_field(
    bytes: Seq<u8>,
    count: nat,
    props: Seq<Property>,
    i: int,
    k: int,
    p: int,
)
    requires
        writable(props),
        count <= usize::MAX,
        0 <= p < props.len(),
        0 <= k < 38,
    ensures
        written_values(bytes, count, props, i).len() == 38,
        !names_of(props).contains(
            splat_field_names(rest_per_channel(header_of(header_text(count, props))))[k],
        ) ==> written_values(bytes, count, props, i)[k] == 0,
{
    reveal(written_values);
    let h = header_of(header_text(count, props));
    let names = splat_field_names(rest_per_channel(h));
    written_headers_are_read_back(count, props, p, names[k]);
}

/// The names of the higher coefficients.
pub open spec fn rest_names(props: Seq<Property>) -> Set<Seq<char>> {
    names_of(props).filter(
        |name: Seq<char>| 7 <= name.len() && name.take(7) == "f_rest_"@,
    )
}

/// The sort writes the keys once and then takes the four bytes of a key one after the
/// other, the lowest first: each pass counts, adds the counts up in three steps, and
/// scatters, all with the slot of its own byte; only the middle step of the three runs
/// as a single group.
pub proof fn digit_passes_follow_each_other(stride: int, groups: u32, p: int, k: int)
    requires
        0 <= p < 4,
        0 <= k < 5,
    ensures
        ({
            let plan = sort_plan_of(stride, groups);
            let d = plan[1 + 5 * p + k];
            &&& plan.len() == 21
            &&& plan[0].phase == SortPhase::ComputeKeys && plan[0].groups == groups
            &&& d.offset == (p * stride) as u32
            &&& d.groups == (if k == 2 {
                1
            } else {
                groups
            })
            &&& k == 0 <==> d.phase == SortPhase::Histogram
            &&& k == 1 <==> d.phase == SortPhase::ScanReduce
            &&& k == 2 <==> d.phase == SortPhase::ScanSpine
            &&& k == 3 <==> d.phase == SortPhase::ScanAdd
            &&& k == 4 <==> d.phase == SortPhase::Scatter
        }),
{
    reveal_with_fuel(sort_plan_upto, 5);
    lemma_plan_entry(4, stride, groups, 1 + 5 * p + k);
    assert((5 * p + k) / 5 == p && (5 * p + k) % 5 == k);
}

/// The slot of each digit pass holds how far its byte lies from the lowest bit, and
/// nothing else: the four passes together see all thirty-two bits.
pub proof fn slots_hold_the_shifts(stride: int, p: int, at: int)
    requires
        16 <= stride,
        0 <= p < 4,
        p * stride <= at < p * stride + stride,
    ensures
        at == p * stride ==> pass_byte(stride, at) == 8 * p,
        at != p * stride ==> pass_byte(stride, at) == 0,
{
    lemma_slot(p, at - p * stride, stride, at);
}

/// Tiles of 256 splats: enough for all of them, and not one more than that takes.
pub proof fn tiles_hold_two_hundred_and_fifty_six(num_splats: nat)
    ensures
        tiles_for(num_splats) * 256 >= num_splats,
        num_splats > 0 ==> (tiles_for(num_splats) - 1) * 256 < num_splats,
        num_splats <= 16_000_000 ==> tiles_for(num_splats) <= 65535,
{
}

/// Removing the active cloud makes the one after it active, or the one before it where
/// it was the last; with the only cloud the index goes back to zero. Whatever is removed
/// and left, the index names a cloud.
pub proof fn removing_the_active_cloud_moves_on(models: Seq<SplatModel>, active: int, index: int)
    requires
        0 <= active < models.len(),
        0 <= index < models.len(),
    ensures
        ({
            let after = GaussianSplatPass::active_after_removal(active, index, models.len() as int);
            let left = models.remove(index);
            &&& models.len() == 1 ==> after == 0
            &&& models.len() > 1 ==> 0 <= after < left.len()
            &&& index == active && active + 1 < models.len() ==> left[after] == models[active + 1]
            &&& index == active && active + 1 == models.len() && active > 0 ==> left[after]
                == models[active - 1]
        }),
{
}

/// What a direction of the sort reads it cannot write, and what it fills it can: the
/// splats and the keys and values that come in are read only, those that go out and the
/// counts are not.
pub proof fn sorts_write_only_their_outputs(direction: SortDirection)
    ensures
        sort_inputs().len() == 8,
        sort_buffers_of(direction).len() == 8,
        sort_buffers_of(direction)[1] == SortBuffer::Splats,
        sort_inputs()[1] == (BindingKind::Storage { read_only: true }),
        sort_buffers_of(direction)[2] == (if direction == SortDirection::AToB {
            SortBuffer::KeysA
        } else {
            SortBuffer::KeysB
        }),
        sort_inputs()[2] == (BindingKind::Storage { read_only: true }),
        sort_inputs()[3] == (BindingKind::Storage { read_only: false }),
        sort_buffers_of(direction)[4] == (if direction == SortDirection::AToB {
            SortBuffer::ValsA
        } else {
            SortBuffer::ValsB
        }),
        sort_inputs()[4] == (BindingKind::Storage { read_only: true }),
        sort_inputs()[5] == (BindingKind::Storage { read_only: false }),
        sort_buffers_of(direction)[6] == SortBuffer::Hist,
        sort_inputs()[6] == (BindingKind::Storage { read_only: false }),
        sort_buffers_of(direction)[7] == SortBuffer::BlockSums,
        sort_inputs()[7] == (BindingKind::Storage { read_only: false }),
        sort_buffers_of(direction)[0] == SortBuffer::Globals,
        sort_inputs()[0] == BindingKind::Uniform,
{
}

/// A file is refused where it has no header end, where its header says no format or
/// another one, where a property that every splat has is missing, or where no whole
/// vertex follows; and it is read where none of that holds and its last vertex is whole.
pub proof fn refused_files_lack_something(
    bytes: Seq<u8>,
    max_splats: nat,
    r: Result<SplatParse, String>,
    pos: int,
    name: int,
)
    requires
        is_parse_result(r, bytes, max_splats),
        r is Ok,
        0 <= name < 7,
        found_at(bytes, encode_utf8("end_header"@), pos),
        forall|j: int| 0 <= j < pos ==> !#[trigger] found_at(bytes, encode_utf8("end_header"@), j),
    ensures
        ({
            let h = header_of(decode_utf8(bytes.take(pos)));
            &&& valid_utf8(bytes.take(pos))
            &&& h.formats.len() > 0
            &&& h.formats[0] == "binary_little_endian"@
            &&& h.vertex_count > 0
            &&& h.stride > 0
            &&& h.offsets.contains_key(
                seq!["x"@, "y"@, "z"@, "scale_0"@, "rot_0"@, "opacity"@, "f_dc_0"@][name],
            )
            &&& r->Ok_0.instances@.len() <= h.vertex_count
            &&& r->Ok_0.instances@.len() <= max_splats
            &&& r->Ok_0.clamped_from is Some ==> r->Ok_0.instances@.len() == max_splats
        }),
{
    let marker = encode_utf8("end_header"@);
    let found = first_found(bytes, marker)->0;
    assert(exists|i: int| found_at(bytes, marker, i));
    assert(found_at(bytes, marker, found) && forall|j: int|
        0 <= j < found ==> !found_at(bytes, marker, j));
    assert(found == pos);
    let h = header_of(decode_utf8(bytes.take(pos)));
    assert(first_missing(h, required_names()) is None);
    lemma_present(h, required_names(), name);
}

proof fn lemma_present(h: HeaderModel, names: Seq<Seq<char>>, k: int)
    requires
        first_missing(h, names) is None,
        0 <= k < names.len(),
    ensures
        h.offsets.contains_key(names[k]),
    decreases names.len(),
{
    if k > 0 {
        lemma_present(h, names.skip(1), k - 1);
        assert(names.skip(1)[k - 1] == names[k]);
    }
}

/// A device holds as many splats of 160 bytes as its smaller limit has room for, and
/// never more than the platform's own budget.
pub proof fn devices_hold_whole_records(
    platform_max: usize,
    binding: u64,
    buffer: u64,
    r: usize,
)
    requires
        call_ensures(device_max_splats, (platform_max, binding, buffer), r),
    ensures
        r <= platform_max,
        160 * r <= binding && 160 * r <= buffer,
        r < platform_max ==> 160 * (r + 1) > binding || 160 * (r + 1) > buffer,
{
}

/// The buffers of a sort have room for every splat, in tiles of 256 words of four bytes:
/// at least one tile, and no tile without a splat but that one. The histogram has 256
/// words for each tile, and the spine one.
pub proof fn sort_buffers_hold_every_splat(num_splats: u32, r: SortBuffers)
    requires
        num_splats <= u32::MAX - 255,
        call_ensures(sort_buffers, (num_splats,), r),
    ensures
        r.num_tiles >= 1,
        256 * r.num_tiles >= num_splats,
        num_splats > 0 ==> 256 * (r.num_tiles - 1) < num_splats,
        num_splats == 0 ==> r.num_tiles == 1,
        r.slot_bytes == 1024 * r.num_tiles,
        r.hist_bytes == 1024 * r.num_tiles,
        r.block_sum_bytes == 4 * r.num_tiles,
{
}

/// The slots of two digit passes lie a device's alignment apart, and never less than 16
/// bytes.
pub proof fn slots_are_aligned(alignment: u32, r: u32)
    requires
        call_ensures(pass_stride, (alignment,), r),
    ensures
        r >= 16 && r >= alignment,
        r == 16 || r == alignment,
{
}

/// A frame draws the active cloud where there is one, it has splats and they can be
/// seen: two triangles for each. It is sorted before where the view has turned or it
/// never was sorted, and then not again until the view turns.
pub proof fn clouds_are_sorted_when_the_view_turns(
    pass: &mut GaussianSplatPass,
    visible: bool,
    zc: [FloatBits; 4],
    turned: bool,
    r: Option<SplatFrame>,
)
    requires
        old(pass).wf(),
        call_ensures(GaussianSplatPass::render, (pass, visible, zc, turned), r),
    ensures
        ({
            let a = old(pass).active_model as int;
            let models = old(pass).models@;
            let there = a < models.len() && models[a].splats@.len() > 0;
            &&& r is Some <==> there && visible
            &&& r matches Some(frame) ==> {
                let fresh = is_nan(models[a].last_sort_zc@[0]);
                &&& frame.model == a
                &&& frame.vertices == 6 * models[a].splats@.len()
                &&& frame.sort@.len() > 0 <==> turned || fresh
                &&& turned || fresh ==> final(pass).models@[a].last_sort_zc == zc
                &&& !turned && !fresh ==> final(pass).models@[a].last_sort_zc
                    == models[a].last_sort_zc
                &&& final(pass).models@[a].splats == models[a].splats
            }
            &&& final(pass).models@.len() == models.len()
            &&& final(pass).active_model == old(pass).active_model
            &&& forall|k: int|
                0 <= k < models.len() && k != a ==> #[trigger] final(pass).models@[k] == models[k]
        }),
{
    let a = old(pass).active_model as int;
    let models = old(pass).models@;
    if a < models.len() {
        assert(models[a].wf());
        digit_passes_follow_each_other(
            models[a].pass_stride as int,
            models[a].buffers.num_tiles,
            0,
            0,
        );
    }
}

/// A sort that is planned writes the keys once and then takes the four bytes of a key
/// from the lowest to the highest; see `digit_passes_follow_each_other`.
pub proof fn planned_sorts_take_every_byte(
    stride: u32,
    groups: u32,
    r: Vec<SortDispatch>,
    p: int,
    k: int,
)
    requires
        4 * stride <= u32::MAX,
        call_ensures(sort_plan, (stride, groups), r),
        0 <= p < 4,
        0 <= k < 5,
    ensures
        r@.len() == 21,
        r@[0].phase == SortPhase::ComputeKeys && r@[0].groups == groups,
        r@[1 + 5 * p + k].offset == p * stride,
        r@[1 + 5 * p + k].groups == if k == 2 {
            1
        } else {
            groups
        },
        k == 0 <==> r@[1 + 5 * p + k].phase == SortPhase::Histogram,
        k == 4 <==> r@[1 + 5 * p + k].phase == SortPhase::Scatter,
{
    digit_passes_follow_each_other(stride as int, groups, p, k);
    assert(p * stride <= 3 * stride) by (nonlinear_arith)
        requires
            0 <= p < 4,
            stride >= 0,
    ;
    assert(0 <= p * stride) by (nonlinear_arith)
        requires
            0 <= p < 4,
            stride >= 0,
    ;
}

/// A cloud that is added stands behind the others with its splats and as if never
/// sorted; the others, and which one is active, stay.
pub proof fn added_clouds_stand_last(
    pass: &mut GaussianSplatPass,
    instances: Vec<SplatInstance>,
    alignment: u32,
    k: int,
)
    requires
        old(pass).wf(),
        instances@.len() <= MAX_SPLATS,
        RADIX_PASSES * alignment <= u32::MAX,
        call_ensures(GaussianSplatPass::add_model, (pass, instances, alignment), ()),
    ensures
        ({
            let before = old(pass).models@;
            let after = final(pass).models@;
            &&& after.len() == before.len() + 1
            &&& 0 <= k < before.len() ==> after[k] == before[k]
            &&& after.last().splats@ == instances@
            &&& after.last().num_splats == instances@.len()
            &&& is_nan(after.last().last_sort_zc@[0])
            &&& after.last().pass_stride >= 16 && after.last().pass_stride >= alignment
            &&& 256 * after.last().buffers.num_tiles >= instances@.len()
            &&& final(pass).active_model == old(pass).active_model
            &&& final(pass).params == old(pass).params
        }),
{
    let before = old(pass).models@;
    let after = final(pass).models@;
    if 0 <= k < before.len() {
        assert(after.drop_last()[k] == before[k]);
    }
    tiles_hold_two_hundred_and_fifty_six(instances@.len());
}

/// Removing a cloud takes it out and closes the gap; see also
/// `removing_the_active_cloud_moves_on`. Without such a cloud nothing changes.
pub proof fn removed_clouds_are_gone(pass: &mut GaussianSplatPass, index: usize, k: int)
    requires
        old(pass).wf(),
        call_ensures(GaussianSplatPass::remove_model, (pass, index), ()),
    ensures
        ({
            let before = old(pass).models@;
            let after = final(pass).models@;
            let a = old(pass).active_model as int;
            let b = final(pass).active_model as int;
            &&& index >= before.len() ==> after == before && b == a
            &&& index < before.len() ==> {
                &&& after.len() == before.len() - 1
                &&& 0 <= k < index ==> after[k] == before[k]
                &&& index < k < before.len() ==> after[k - 1] == before[k]
                &&& index < a ==> b == a - 1
                &&& index > a ==> b == a
                &&& index == a && a + 1 < before.len() ==> b == a
                &&& index == a && a + 1 == before.len() && a > 0 ==> b == a - 1
                &&& before.len() == 1 ==> b == 0
            }
        }),
{
}

/// Choosing a cloud that is there makes it active, and choosing another one changes
/// nothing; no cloud is touched.
pub proof fn chosen_clouds_become_active(pass: &mut GaussianSplatPass, index: usize)
    requires
        old(pass).wf(),
        call_ensures(GaussianSplatPass::set_active_model, (pass, index), ()),
    ensures
        final(pass).models == old(pass).models,
        index < old(pass).models@.len() ==> final(pass).active_model == index,
        index >= old(pass).models@.len() ==> final(pass).active_model == old(pass).active_model,
{
}

proof fn lemma_first_missing(h: HeaderModel, names: Seq<Seq<char>>, k: int)
    requires
        0 <= k < names.len(),
        !h.offsets.contains_key(names[k]),
        forall|j: int| 0 <= j < k ==> h.offsets.contains_key(#[trigger] names[j]),
    ensures
        first_missing(h, names) == Some(names[k]),
    decreases names.len(),
{
    if k > 0 {
        assert(h.offsets.contains_key(names[0]));
        let rest = names.skip(1);
        assert forall|j: int| 0 <= j < k - 1 implies h.offsets.contains_key(#[trigger] rest[j]) by {
            assert(rest[j] == names[j + 1]);
        }
        lemma_first_missing(h, rest, k - 1);
    }
}

proof fn lemma_first_unsupported(formats: Seq<Seq<char>>, k: int)
    requires
        0 <= k <= formats.len(),
        k < formats.len() ==> formats[k] != "binary_little_endian"@,
        forall|j: int| 0 <= j < k ==> #[trigger] formats[j] == "binary_little_endian"@,
    ensures
        first_unsupported(formats) == if k < formats.len() {
            Some(formats[k])
        } else {
            None
        },
    decreases formats.len(),
{
    if k > 0 {
        assert(formats[0] == "binary_little_endian"@);
        let rest = formats.skip(1);
        assert forall|j: int| 0 <= j < k - 1 implies #[trigger] rest[j] == "binary_little_endian"@ by {
            assert(rest[j] == formats[j + 1]);
        }
        lemma_first_unsupported(rest, k - 1);
    }
}

/// Why a file is refused is said in its own words: that it has no header end; that its
/// header cannot be read; which format it has that is not read, or that it names none;
/// which property is the first that it lacks; or that it lists no vertices. `k` is the
/// number of its leading formats that are read, and `name` the first property that is
/// missing, by its place among those that every splat has.
pub proof fn refusals_say_what_is_missing(
    bytes: &[u8],
    source: &str,
    max_splats: usize,
    r: Result<SplatParse, String>,
    pos: int,
    k: int,
    name: int,
)
    requires
        call_ensures(parse_splat_ply, (bytes, source, max_splats), r),
        0 <= name <= 7,
    ensures
        ({
            let marker = encode_utf8("end_header"@);
            let text = bytes@.take(pos);
            let h = header_of(decode_utf8(text));
            let names = seq!["x"@, "y"@, "z"@, "scale_0"@, "rot_0"@, "opacity"@, "f_dc_0"@];
            let read = "binary_little_endian"@;
            let ends = found_at(bytes@, marker, pos) && forall|j: int|
                0 <= j < pos ==> !#[trigger] found_at(bytes@, marker, j);
            let leading = 0 <= k <= h.formats.len() && forall|j: int|
                0 <= j < k ==> #[trigger] h.formats[j] == read;
            let all = leading && k == h.formats.len() && k > 0;
            let first = forall|j: int|
                0 <= j < name ==> h.offsets.contains_key(#[trigger] names[j]);
            let says = |t: Seq<char>| r matches Err(e) && e@ == t;
            &&& (forall|j: int| !#[trigger] found_at(bytes@, marker, j)) ==> says(
                "not a .ply file (no end_header)"@,
            )
            &&& ends && !valid_utf8(text) ==> says("header is not valid utf-8"@)
            &&& ends && valid_utf8(text) && leading && k < h.formats.len() && h.formats[k] != read
                ==> says(
                "'"@ + h.formats[k] + "' .ply is unsupported (need binary_little_endian)"@,
            )
            &&& ends && valid_utf8(text) && h.formats.len() == 0 ==> says(
                "no 'format' line -- not a valid .ply"@,
            )
            &&& ends && valid_utf8(text) && all && first && name < 7 && !h.offsets.contains_key(
                names[name],
            ) ==> says(
                "no '"@ + names[name]
                    + "' property -- compressed or non-3DGS .ply? (unsupported)"@,
            )
            &&& ends && valid_utf8(text) && all && first && name == 7 && h.vertex_count == 0
                ==> says("header lists no vertices"@)
        }),
{
    let marker = encode_utf8("end_header"@);
    let h = header_of(decode_utf8(bytes@.take(pos)));
    let names = seq!["x"@, "y"@, "z"@, "scale_0"@, "rot_0"@, "opacity"@, "f_dc_0"@];
    let read = "binary_little_endian"@;
    let ends = found_at(bytes@, marker, pos) && forall|j: int|
        0 <= j < pos ==> !#[trigger] found_at(bytes@, marker, j);
    assert(required_names() =~= names);
    if ends {
        let found = first_found(bytes@, marker)->0;
        assert(exists|i: int| found_at(bytes@, marker, i));
        assert(found_at(bytes@, marker, found) && forall|j: int|
            0 <= j < found ==> !found_at(bytes@, marker, j));
        assert(found == pos);
        if h.formats.len() == 0 {
            lemma_first_unsupported(h.formats, 0);
        }
        if 0 <= k <= h.formats.len() && (forall|j: int|
            0 <= j < k ==> #[trigger] h.formats[j] == read) && (k < h.formats.len() ==> h.formats[k]
            != read) {
            lemma_first_unsupported(h.formats, k);
        }
        if forall|j: int| 0 <= j < name ==> h.offsets.contains_key(#[trigger] names[j]) {
            if name < 7 && !h.offsets.contains_key(names[name]) {
                lemma_first_missing(h, names, name);
            }
            if name == 7 {
                assert forall|j: int| 0 <= j < 7 implies h.offsets.contains_key(#[trigger] names[j]) by {}
                lemma_all_there(h, names);
            }
        }
    }
}

proof fn lemma_all_there(h: HeaderModel, names: Seq<Seq<char>>)
    requires
        forall|j: int| 0 <= j < names.len() ==> h.offsets.contains_key(#[trigger] names[j]),
    ensures
        first_missing(h, names) is None,
    decreases names.len(),
{
    if names.len() > 0 {
        let rest = names.skip(1);
        assert(h.offsets.contains_key(names[0]));
        assert forall|j: int| 0 <= j < rest.len() implies h.offsets.contains_key(#[trigger] rest[j]) by {
            assert(rest[j] == names[j + 1]);
        }
        lemma_all_there(h, rest);
    }
}

/// The uniforms of the digit passes hold one slot each, `stride` bytes apart, with the
/// pass's shift as its first byte and nothing else.
pub proof fn uniforms_hold_one_slot_each(stride: u32, r: Vec<u8>, p: int, k: int)
    requires
        16 <= stride,
        RADIX_PASSES * stride <= usize::MAX,
        call_ensures(pass_uniforms, (stride,), r),
        0 <= p < 4,
        0 <= k < stride,
    ensures
        r@.len() == 4 * stride,
        p * stride + k < r@.len(),
        r@[p * stride + k] == if k == 0 {
            8 * p
        } else {
            0
        },
{
    assert(0 <= p * stride && p * stride + stride <= 4 * stride) by (nonlinear_arith)
        requires
            0 <= p < 4,
            stride >= 0,
    ;
    slots_hold_the_shifts(stride as int, p, p * stride + k);
}

/// Each direction of the sort reads what the other one writes, and touches the same
/// other buffers in the same places.
pub proof fn directions_swap_their_buffers(
    there: [SortBuffer; 8],
    back: [SortBuffer; 8],
    i: int,
)
    requires
        call_ensures(sort_bindings, (SortDirection::AToB,), there),
        call_ensures(sort_bindings, (SortDirection::BToA,), back),
    ensures
        there@[2] == SortBuffer::KeysA && there@[3] == SortBuffer::KeysB,
        there@[4] == SortBuffer::ValsA && there@[5] == SortBuffer::ValsB,
        back@[2] == there@[3] && back@[3] == there@[2],
        back@[4] == there@[5] && back@[5] == there@[4],
        i == 0 || i == 1 || i == 6 || i == 7 ==> back@[i] == there@[i],
        there@[0] == SortBuffer::Globals && there@[1] == SortBuffer::Splats,
        there@[6] == SortBuffer::Hist && there@[7] == SortBuffer::BlockSums,
{
}

/// Unloading every cloud leaves none, and the settings as they are.
pub proof fn cleared_passes_are_empty(pass: &mut GaussianSplatPass)
    requires
        call_ensures(GaussianSplatPass::clear_models, (pass,), ()),
    ensures
        final(pass).models@.len() == 0,
        final(pass).active_model == 0,
        final(pass).params == old(pass).params,
{
}

/// The count of the active cloud is the number of its splats.
pub proof fn counts_are_those_of_the_active_cloud(pass: GaussianSplatPass, r: u32)
    requires
        pass.wf(),
        call_ensures(GaussianSplatPass::active_splat_count, (&pass,), r),
    ensures
        pass.models@.len() == 0 ==> r == 0,
        pass.models@.len() > 0 ==> r == pass.models@[pass.active_model as int].splats@.len(),
{
    if pass.models@.len() > 0 {
        assert(pass.models@[pass.active_model as int].wf());
    }
}

} // verus!
