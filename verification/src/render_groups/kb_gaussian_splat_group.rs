//! Gaussian splats that are sorted on the CPU.

use vstd::prelude::*;
use vstd::utf8::{decode_utf8, encode_utf8, valid_utf8};

use crate::float_bits::{neg, negated, FloatBits, Vec3, ONE, SIGN};
use crate::gpu::{
    bindings, blend_alpha, one_target, two_groups, uniform_binding, BindingKind, PipelinePlan,
    Stage, Target, TargetFormat, Topology,
};
#[allow(unused_imports)]
use crate::gpu::{alpha_blend, bindings_of, groups_view};
use crate::passes::gaussian_splat::{copy_rest, fields_fit};
#[allow(unused_imports)]
use crate::passes::gaussian_splat::{lemma_marker, lemma_span};
use crate::ply::{
    data_start, find_data, find_subsequence, first_found, header_of, offsets_view, read_vertex,
    resolve_fields, scan_header, splat_fields, vertex_fits, vertex_values, vertices_present,
    HeaderModel,
};
use crate::sorting::{sort_keyed, Keyed};
#[allow(unused_imports)]
use crate::sorting::{keyed_le, lemma_no_duplicates, lemma_same_pairs};
#[allow(unused_imports)]
use crate::passes::gaussian_splat::{
    is_cloud, lemma_all_fit, lemma_field, lemma_fours, lemma_header_end, lemma_vertex_within,
    lemma_whole_vertices, opposite, reads, written_start,
};
#[allow(unused_imports)]
use crate::ply::{
    bytes_before, found_at, header_text, splat_field_names, written_headers_are_read_back, Property,
};
#[allow(unused_imports)]
use crate::text::decimal;
use crate::text::utf8_text;

verus! {

/// Most splats of a cloud.
pub const MAX_SPLATS: usize = 700_000;

/// Coefficients per color channel in a full export.
pub const REST_PER_CHANNEL: usize = 15;

/// One splat as it stands in the file, with y flipped.
#[derive(Clone, Copy)]
pub struct KbSplatInstance {
    pub position: [FloatBits; 4],
    /// Log-space scale xyz, opacity logit w.
    pub scale_opacity: [FloatBits; 4],
    pub rotation: [FloatBits; 4],
    pub sh0: [FloatBits; 4],
    pub sh_rest: [FloatBits; 24],
}

impl KbSplatInstance {
    /// The splat holds the raw `values` of a vertex. Flipping y is a reflection,
    /// which negates x and z of the quaternion.
    pub open spec fn holds(&self, values: Seq<FloatBits>) -> bool {
        &&& self.position@ == seq![values[0], neg(values[1]), values[2], 0]
        &&& self.rotation@ == seq![neg(values[4]), values[5], neg(values[6]), values[3]]
        &&& self.scale_opacity@ == values.subrange(7, 11)
        &&& self.sh0@ == values.subrange(11, 14).push(0)
        &&& self.sh_rest@ == values.subrange(14, 38)
    }
}

/// Why a file cannot be read.
#[derive(Debug, Clone, Copy, PartialEq, Eq, Structural)]
pub enum KbPlyProblem {
    /// There is no end of the header.
    NoHeaderEnd,
    /// The header is not valid UTF-8.
    HeaderNotText,
    /// There are no vertices, or they take no bytes.
    NoVertices,
    /// The data ends before it begins, or within the last vertex.
    Truncated,
}

/// The vertex data of a file.
pub struct KbSource {
    pub header: HeaderModel,
    pub start: int,
    /// Vertices to read.
    pub count: nat,
    pub fields: Seq<Option<nat>>,
}

impl KbSource {
    pub open spec fn base(&self, i: int) -> int {
        self.start + i * self.header.stride
    }
}

/// The vertex data of a file, or why it cannot be read.
pub open spec fn kb_source(bytes: Seq<u8>) -> Result<KbSource, KbPlyProblem> {
    match first_found(bytes, encode_utf8("end_header"@)) {
        None => Err(KbPlyProblem::NoHeaderEnd),
        Some(pos) => {
            let h = header_of(decode_utf8(bytes.take(pos)));
            let start = data_start(bytes, pos + encode_utf8("end_header"@).len());
            let there = vertices_present(bytes.len(), start, h.stride);
            let present = if there < h.vertex_count {
                there
            } else {
                h.vertex_count
            };
            let count = if present > MAX_SPLATS {
                MAX_SPLATS as nat
            } else {
                present
            };
            let src = KbSource {
                header: h,
                start,
                count,
                fields: splat_fields(h, REST_PER_CHANNEL as nat),
            };
            if !valid_utf8(bytes.take(pos)) {
                Err(KbPlyProblem::HeaderNotText)
            } else if h.vertex_count == 0 || h.stride == 0 {
                Err(KbPlyProblem::NoVertices)
            } else if start > bytes.len() || (count > 0 && !vertex_fits(
                bytes.len(),
                src.base(count - 1),
                src.fields,
            )) {
                Err(KbPlyProblem::Truncated)
            } else {
                Ok(src)
            }
        },
    }
}

fn splat_from(values: &Vec<FloatBits>) -> (r: KbSplatInstance)
    requires
        values@.len() == 38,
    ensures
        r.holds(values@),
{
    let r = KbSplatInstance {
        position: [values[0], negated(values[1]), values[2], 0],
        scale_opacity: [values[7], values[8], values[9], values[10]],
        rotation: [negated(values[4]), values[5], negated(values[6]), values[3]],
        sh0: [values[11], values[12], values[13], 0],
        sh_rest: copy_rest(values),
    };
    assert(r.position@ == seq![values@[0], neg(values@[1]), values@[2], 0]);
    assert(r.rotation@ == seq![neg(values@[4]), values@[5], neg(values@[6]), values@[3]]);
    assert(r.scale_opacity@ == values@.subrange(7, 11));
    assert(r.sh0@ == values@.subrange(11, 14).push(0));
    r
}

/// The splats that a source yields.
pub open spec fn holds_source(list: Seq<KbSplatInstance>, bytes: Seq<u8>, src: KbSource) -> bool {
    &&& list.len() == src.count
    &&& forall|i: int|
        0 <= i < list.len() ==> (#[trigger] list[i]).holds(
            vertex_values(bytes, src.base(i), src.fields),
        )
}

/// Reads a binary little-endian splat `.ply`. Properties that are missing read as
/// zero, and at most `MAX_SPLATS` splats are kept.
pub fn load_splat_ply(bytes: &[u8]) -> (r: Result<Vec<KbSplatInstance>, KbPlyProblem>)
    ensures
        match kb_source(bytes@) {
            Err(problem) => r == Err::<Vec<KbSplatInstance>, KbPlyProblem>(problem),
            Ok(src) => r matches Ok(list) && holds_source(list@, bytes@, src),
        },
{
    let marker = "end_header".as_bytes();
    proof {
        lemma_marker();
    }
    let header_pos = match find_subsequence(bytes, marker) {
        Some(pos) => pos,
        None => {
            return Err(KbPlyProblem::NoHeaderEnd);
        },
    };
    assert(header_pos + marker.len() <= bytes.len());
    let head = vstd::slice::slice_subrange(bytes, 0, header_pos);
    assert(head@ == bytes@.take(header_pos as int));
    let text = match utf8_text(head) {
        Some(text) => text,
        None => {
            return Err(KbPlyProblem::HeaderNotText);
        },
    };
    let header = scan_header(text);
    if header.vertex_count == 0 || header.stride == 0 {
        return Err(KbPlyProblem::NoVertices);
    }
    let start = match find_data(bytes, header_pos + marker.len()) {
        Some(start) => start,
        None => {
            return Err(KbPlyProblem::Truncated);
        },
    };
    let stride: usize = header.stride;
    let available: usize = (bytes.len() - start) / stride;
    let present: usize = if available < header.vertex_count {
        available
    } else {
        header.vertex_count
    };
    let count: usize = if present > MAX_SPLATS {
        MAX_SPLATS
    } else {
        present
    };
    let fields = resolve_fields(&header, REST_PER_CHANNEL);
    let ghost src = KbSource {
        header: header@,
        start: start as int,
        count: count as nat,
        fields: splat_fields(header@, REST_PER_CHANNEL as nat),
    };
    proof {
        lemma_span(
            bytes@.len() as int,
            start as int,
            stride as int,
            count as int,
        );
    }
    if count > 0 && !fields_fit(bytes.len(), start + (count - 1) * stride, &fields) {
        return Err(KbPlyProblem::Truncated);
    }
    assert(kb_source(bytes@) == Ok::<KbSource, KbPlyProblem>(src));
    let mut instances: Vec<KbSplatInstance> = Vec::new();
    let mut i: usize = 0;
    while i < count
        invariant
            i <= count,
            src.start == start,
            src.count == count,
            src.header.stride == stride,
            src.fields == offsets_view(fields@),
            src.fields.len() == 38,
            count > 0 ==> vertex_fits(bytes@.len(), src.base(count - 1), src.fields),
            start + count * stride <= bytes@.len(),
            instances@.len() == i,
            forall|j: int|
                0 <= j < i ==> (#[trigger] instances@[j]).holds(
                    vertex_values(bytes@, src.base(j), src.fields),
                ),
        decreases count - i,
    {
        proof {
            assert(bytes.len() <= usize::MAX);
            assert(i * stride <= (count - 1) * stride && (count - 1) * stride <= count * stride)
                by (nonlinear_arith)
                requires
                    i <= count - 1,
                    stride >= 0,
            ;
        }
        let values = read_vertex(bytes, start + i * stride, &fields);
        instances.push(splat_from(&values));
        i += 1;
    }
    Ok(instances)
}

/// Rendering parameters that can be tuned.
#[derive(Clone, Copy)]
pub struct KbSplatParams {
    pub falloff: FloatBits,
    pub scale: FloatBits,
    pub contrast: FloatBits,
    pub max_sh_degree: FloatBits,
    pub overall_scale: FloatBits,
}

pub open spec fn default_params() -> KbSplatParams {
    KbSplatParams {
        falloff: 0x4100_0000,
        scale: ONE,
        contrast: ONE,
        max_sh_degree: 0,
        overall_scale: ONE,
    }
}

impl Default for KbSplatParams {
    /// Falloff 8.0, scale, contrast and overall scale 1.0, degree 0.0.
    fn default() -> (r: Self)
        ensures
            r == default_params(),
    {
        KbSplatParams {
            falloff: 0x4100_0000,
            scale: ONE,
            contrast: ONE,
            max_sh_degree: 0,
            overall_scale: ONE,
        }
    }
}

/// Place of a number in the total order of floating point: NaNs stand at both ends,
/// and a negative zero before a positive one.
pub open spec fn total_order(bits: FloatBits) -> int {
    if bits < SIGN {
        bits as int
    } else {
        -(bits - SIGN) - 1
    }
}

fn total_key(bits: FloatBits) -> (r: i64)
    ensures
        r == total_order(bits),
{
    if bits < SIGN {
        bits as i64
    } else {
        -((bits - SIGN) as i64) - 1
    }
}

/// The total order extends the order of floating point.
pub proof fn total_order_extends_the_order(a: FloatBits, b: FloatBits)
    requires
        crate::float_bits::lt(a, b),
    ensures
        total_order(a) < total_order(b),
{
}

/// `order` lists the numbers below `n`, each once.
pub open spec fn lists_all(order: Seq<u32>, n: nat) -> bool {
    &&& order.len() == n
    &&& order.no_duplicates()
    &&& forall|k: int| 0 <= k < order.len() ==> (#[trigger] order[k]) < n
}

/// The splats stand in ascending order of their depths.
pub open spec fn ascending(order: Seq<u32>, depths: Seq<FloatBits>) -> bool {
    forall|i: int, j: int|
        0 <= i < j < order.len() ==> total_order(depths[(#[trigger] order[i]) as int])
            <= total_order(depths[(#[trigger] order[j]) as int])
}

/// Orders all splats by depth, the farthest one, whose depth is lowest, first.
/// Splats of the same depth may stand in any order.
pub fn depth_order(depths: &Vec<FloatBits>) -> (r: Vec<u32>)
    requires
        depths@.len() <= u32::MAX,
    ensures
        lists_all(r@, depths@.len()),
        ascending(r@, depths@),
{
    let mut list: Vec<Keyed> = Vec::new();
    let mut i: usize = 0;
    while i < depths.len()
        invariant
            i <= depths.len(),
            list@.len() == i,
            forall|k: int|
                0 <= k < i ==> #[trigger] list@[k] == (total_order(depths@[k]) as i64, k as u64),
        decreases depths.len() - i,
    {
        list.push((total_key(depths[i]), i as u64));
        i += 1;
    }
    let ghost before = list@;
    sort_keyed(&mut list);
    proof {
        lemma_same_pairs(before, list@);
        assert(before.no_duplicates());
        lemma_no_duplicates(before, list@);
        assert forall|k: int| 0 <= k < list@.len() implies (#[trigger] list@[k]).1 < depths@.len()
            && list@[k].0 == total_order(depths@[list@[k].1 as int]) by {
            assert(list@.contains(list@[k]));
            assert(before.contains(list@[k]));
            let j = choose|j: int| 0 <= j < before.len() && before[j] == list@[k];
            assert(before[j] == (total_order(depths@[j]) as i64, j as u64));
        }
    }
    let mut out: Vec<u32> = Vec::new();
    let mut k: usize = 0;
    while k < list.len()
        invariant
            k <= list.len(),
            depths@.len() <= u32::MAX,
            out@.len() == k,
            forall|j: int| 0 <= j < list@.len() ==> (#[trigger] list@[j]).1 < depths@.len(),
            forall|j: int| 0 <= j < k ==> #[trigger] out@[j] == list@[j].1,
        decreases list.len() - k,
    {
        out.push(list[k].1 as u32);
        k += 1;
    }
    proof {
        assert forall|i: int, j: int|
            0 <= i < out@.len() && 0 <= j < out@.len() && i != j implies out@[i] != out@[j] by {
            if out@[i] == out@[j] {
                assert(list@[i].1 == list@[j].1);
                assert(list@[i] == list@[j]);
            }
        }
        assert forall|i: int, j: int| 0 <= i < j < out@.len() implies total_order(
            depths@[(#[trigger] out@[i]) as int],
        ) <= total_order(depths@[(#[trigger] out@[j]) as int]) by {
            assert(keyed_le(list@[i], list@[j]));
        }
    }
    out
}

/// A loaded cloud.
pub struct KbSplatModel {
    pub splats: Vec<KbSplatInstance>,
    pub positions: Vec<Vec3>,
    pub num_splats: u32,
    /// The order in which the splats are drawn.
    pub sort_indices: Vec<u32>,
}

impl KbSplatModel {
    /// Positions and order belong to the splats.
    pub open spec fn wf(&self) -> bool {
        &&& self.splats@.len() <= MAX_SPLATS
        &&& self.num_splats == self.splats@.len()
        &&& self.positions@.len() == self.splats@.len()
        &&& forall|i: int|
            0 <= i < self.splats@.len() ==> #[trigger] self.positions@[i] == (Vec3 {
                x: self.splats@[i].position@[0],
                y: self.splats@[i].position@[1],
                z: self.splats@[i].position@[2],
            })
        &&& lists_all(self.sort_indices@, self.splats@.len())
    }
}

/// The cloud of the group, if one is loaded.
pub struct KbGaussianSplatRenderGroup {
    pub model: Option<KbSplatModel>,
    pub params: KbSplatParams,
}

impl KbGaussianSplatRenderGroup {
    pub open spec fn wf(&self) -> bool {
        self.model matches Some(m) ==> m.wf()
    }

    pub fn new() -> (r: Self)
        ensures
            r.wf(),
            r.model is None,
            r.params == default_params(),
    {
        KbGaussianSplatRenderGroup { model: None, params: KbSplatParams::default() }
    }

    /// The pipeline of the group: sorted splats blended onto the surface, without a
    /// depth test.
    pub fn pipeline() -> (r: PipelinePlan)
        ensures
            groups_view(r.groups@) == seq![
                bindings_of(Stage::VertexFragment, seq![BindingKind::Uniform]),
                bindings_of(
                    Stage::Vertex,
                    seq![
                        BindingKind::Storage { read_only: true },
                        BindingKind::Storage { read_only: true },
                    ],
                ),
            ],
            !r.vertex_buffer,
            r.targets@ == seq![Target { format: TargetFormat::Surface, blend: Some(alpha_blend()) }],
            !r.cull_back,
            r.topology == Topology::TriangleList,
            r.depth is None,
    {
        let kinds: [BindingKind; 2] = [
            BindingKind::Storage { read_only: true },
            BindingKind::Storage { read_only: true },
        ];
        assert(kinds@ == seq![
            BindingKind::Storage { read_only: true },
            BindingKind::Storage { read_only: true },
        ]);
        PipelinePlan {
            groups: two_groups(
                uniform_binding(Stage::VertexFragment),
                bindings(Stage::Vertex, &kinds),
            ),
            vertex_buffer: false,
            targets: one_target(TargetFormat::Surface, Some(blend_alpha())),
            cull_back: false,
            topology: Topology::TriangleList,
            depth: None,
        }
    }

    pub fn set_params(&mut self, params: &KbSplatParams)
        ensures
            *final(self) == (KbGaussianSplatRenderGroup { params: *params, ..*old(self) }),
    {
        self.params = *params;
    }

    /// Takes over a cloud in place of the one before; its splats stand in the
    /// file's order at first.
    pub fn load(&mut self, instances: Vec<KbSplatInstance>)
        requires
            instances@.len() <= MAX_SPLATS,
        ensures
            final(self).wf(),
            final(self).params == old(self).params,
            final(self).model matches Some(m) && m.splats@ == instances@ && forall|i: int|
                0 <= i < instances@.len() ==> #[trigger] m.sort_indices@[i] == i,
    {
        let num_splats: u32 = instances.len() as u32;
        let mut positions: Vec<Vec3> = Vec::new();
        let mut sort_indices: Vec<u32> = Vec::new();
        let mut i: usize = 0;
        while i < instances.len()
            invariant
                i <= instances.len(),
                instances@.len() <= MAX_SPLATS,
                positions@.len() == i,
                sort_indices@.len() == i,
                forall|k: int|
                    0 <= k < i ==> #[trigger] positions@[k] == (Vec3 {
                        x: instances@[k].position@[0],
                        y: instances@[k].position@[1],
                        z: instances@[k].position@[2],
                    }),
                forall|k: int| 0 <= k < i ==> #[trigger] sort_indices@[k] == k,
            decreases instances.len() - i,
        {
            let p = instances[i].position;
            positions.push(Vec3 { x: p[0], y: p[1], z: p[2] });
            sort_indices.push(i as u32);
            i += 1;
        }
        self.model = Some(
            KbSplatModel { splats: instances, positions, num_splats, sort_indices },
        );
    }

    pub fn has_model(&self) -> (r: bool)
        ensures
            r == self.model is Some,
    {
        self.model.is_some()
    }

    /// Orders the cloud by the depths of its splats and says how many vertices to
    /// draw; `None`, with nothing changed, where there is nothing to draw.
    pub fn render(&mut self, depths: &Vec<FloatBits>) -> (r: Option<u32>)
        requires
            old(self).wf(),
            old(self).model matches Some(m) ==> depths@.len() == m.splats@.len(),
        ensures
            final(self).wf(),
            final(self).params == old(self).params,
            match old(self).model {
                Some(m) => if m.num_splats == 0 {
                    r is None && *final(self) == *old(self)
                } else {
                    &&& r == Some((6 * m.num_splats) as u32)
                    &&& final(self).model matches Some(n) && {
                        &&& n.splats == m.splats
                        &&& n.positions == m.positions
                        &&& n.num_splats == m.num_splats
                        &&& ascending(n.sort_indices@, depths@)
                    }
                },
                None => r is None && *final(self) == *old(self),
            },
    {
        match &mut self.model {
            None => None,
            Some(m) => {
                if m.num_splats == 0 {
                    return None;
                }
                m.sort_indices = depth_order(depths);
                Some(m.num_splats * 6)
            },
        }
    }
}

/// The cloud is mirrored in y: the position has y with the opposite sign and the same
/// size, and a rotation that is seen in the mirror turns the other way about x and z.
/// Everything else is taken over as it is.
pub proof fn splats_are_mirrored_in_y(s: KbSplatInstance, values: Seq<FloatBits>, k: int)
    requires
        values.len() == 38,
        s.holds(values),
    ensures
        s.position@[0] == values[0],
        opposite(values[1], s.position@[1]),
        s.position@[2] == values[2],
        opposite(values[4], s.rotation@[0]),
        s.rotation@[1] == values[5],
        opposite(values[6], s.rotation@[2]),
        s.rotation@[3] == values[3],
        0 <= k < 4 ==> s.scale_opacity@[k] == values[7 + k],
        0 <= k < 3 ==> s.sh0@[k] == values[11 + k],
        0 <= k < 24 ==> s.sh_rest@[k] == values[14 + k],
{
}

/// A cloud that was written is read back: as many splats as the header claims, as are
/// there, and at most seven hundred thousand; each where its vertex lies in the file,
/// mirrored in y. Higher coefficient `n` of channel `c` is the one that stands fifteen
/// places behind the same one of the channel before.
#[verifier::rlimit(60)]
pub proof fn written_clouds_are_read_mirrored(
    bytes: Seq<u8>,
    count: nat,
    props: Seq<Property>,
    there: nat,
    i: int,
    p: int,
    c: int,
    n: int,
)
    requires
        is_cloud(bytes, count, props, there),
        0 <= p < props.len(),
        0 <= c < 3,
        0 <= n < 8,
    ensures
        kb_source(bytes) matches Ok(src) && {
            let size = bytes_before(props, props.len() as int);
            let at = written_start(count, props) + i * size + bytes_before(props, p);
            let v = vertex_values(bytes, src.base(i), src.fields);
            let name = props[p].name;
            &&& src.count <= count && src.count <= there && src.count <= 700_000
            &&& src.count == count || src.count == there || src.count == 700_000
            &&& 0 <= i < src.count ==> {
                &&& v.len() == 38
                &&& name == "x"@ ==> reads(bytes, at, v[0])
                &&& name == "y"@ ==> reads(bytes, at, v[1])
                &&& name == "z"@ ==> reads(bytes, at, v[2])
                &&& name == "rot_0"@ ==> reads(bytes, at, v[3])
                &&& name == "rot_1"@ ==> reads(bytes, at, v[4])
                &&& name == "rot_2"@ ==> reads(bytes, at, v[5])
                &&& name == "rot_3"@ ==> reads(bytes, at, v[6])
                &&& name == "scale_0"@ ==> reads(bytes, at, v[7])
                &&& name == "scale_1"@ ==> reads(bytes, at, v[8])
                &&& name == "scale_2"@ ==> reads(bytes, at, v[9])
                &&& name == "opacity"@ ==> reads(bytes, at, v[10])
                &&& name == "f_dc_0"@ ==> reads(bytes, at, v[11])
                &&& name == "f_dc_1"@ ==> reads(bytes, at, v[12])
                &&& name == "f_dc_2"@ ==> reads(bytes, at, v[13])
                &&& name == "f_rest_"@ + decimal((n + 15 * c) as nat) ==> reads(
                    bytes,
                    at,
                    v[14 + 3 * n + c],
                )
            }
        },
{
    let text = header_text(count, props);
    let h = header_of(text);
    let size = bytes_before(props, props.len() as int);
    let start = written_start(count, props);
    lemma_header_end(bytes, count, props);
    lemma_whole_vertices(bytes.len() as int, start, size, there);
    written_headers_are_read_back(count, props, p, props[p].name);
    let present = if there < count {
        there
    } else {
        count
    };
    let kept = if present > MAX_SPLATS {
        MAX_SPLATS as nat
    } else {
        present
    };
    assert(kept > 0);
    lemma_vertex_within(bytes.len() as int, start, size as int, there as int, kept - 1);
    lemma_all_fit(bytes, count, props, start + (kept - 1) * size, REST_PER_CHANNEL as nat);
    assert(kb_source(bytes) is Ok);
    let src = kb_source(bytes)->Ok_0;
    assert(src.fields == splat_fields(h, 15));
    assert(src.count == kept && src.start == start && src.header == h);
    if 0 <= i < kept {
        lemma_fours(props, props.len() as int);
        lemma_fours(props, p);
        lemma_vertex_within(bytes.len() as int, start, size as int, there as int, i);
        let names = splat_field_names(15);
        let k = 3 * n + c;
        assert(k / 3 == n && k % 3 == c);
        assert(n + c * 15 == n + 15 * c);
        assert(names[14 + k] == "f_rest_"@ + decimal((n + 15 * c) as nat));
        assert forall|f: int| 0 <= f < 38 && #[trigger] names[f] == props[p].name implies reads(
            bytes,
            src.base(i) + bytes_before(props, p),
            vertex_values(bytes, src.base(i), src.fields)[f],
        ) by {
            lemma_field(bytes, count, props, src.base(i), 15, f, p);
        }
        assert(names[0] == "x"@ && names[1] == "y"@ && names[2] == "z"@);
        assert(names[3] == "rot_0"@ && names[4] == "rot_1"@ && names[5] == "rot_2"@ && names[6]
            == "rot_3"@ && names[7] == "scale_0"@ && names[8] == "scale_1"@ && names[9]
            == "scale_2"@ && names[10] == "opacity"@ && names[11] == "f_dc_0"@ && names[12]
            == "f_dc_1"@ && names[13] == "f_dc_2"@);
    }
}

/// The total order of numbers: different patterns stand in different places, numbers
/// stand as they are ordered, a negative zero before a positive one, and what is no
/// number at the end that its sign names.
pub proof fn patterns_have_one_place_each(a: FloatBits, b: FloatBits)
    ensures
        total_order(a) == total_order(b) ==> a == b,
        crate::float_bits::lt(a, b) ==> total_order(a) < total_order(b),
        total_order(0x8000_0000) < total_order(0),
        crate::float_bits::is_nan(a) && !crate::float_bits::is_nan(b) ==> (total_order(a)
            > total_order(b) <==> a < 0x8000_0000),
{
}

/// In the order of a draw every splat stands exactly once, and none stands behind one
/// that is farther away: depths never fall from one to the next.
pub proof fn farther_splats_are_drawn_first(
    order: Seq<u32>,
    depths: Seq<FloatBits>,
    s: u32,
    i: int,
    j: int,
)
    requires
        depths.len() <= u32::MAX,
        lists_all(order, depths.len()),
        ascending(order, depths),
        s < depths.len(),
        0 <= i < j < order.len(),
    ensures
        order.contains(s),
        order[i] != order[j],
        !crate::float_bits::lt(depths[order[j] as int], depths[order[i] as int]),
{
    let n = depths.len();
    let set = order.to_set();
    order.unique_seq_to_set();
    let all = Set::new(|k: u32| k < n);
    lemma_below(n);
    assert(set.subset_of(all)) by {
        assert forall|k: u32| set.contains(k) implies all.contains(k) by {
            let m = choose|m: int| 0 <= m < order.len() && order[m] == k;
            assert(order[m] < n);
        }
    }
    vstd::set_lib::lemma_subset_equality(set, all);
    assert(set.contains(s));
}

proof fn lemma_below(n: nat)
    requires
        n <= u32::MAX + 1,
    ensures
        Set::new(|k: u32| k < n).finite(),
        Set::new(|k: u32| k < n).len() == n,
    decreases n,
{
    let all = Set::new(|k: u32| k < n);
    if n == 0 {
        assert(all =~= Set::<u32>::empty());
    } else {
        lemma_below((n - 1) as nat);
        let less = Set::new(|k: u32| k < n - 1);
        assert(Set::new(|k: u32| k < (n - 1) as nat) =~= less);
        assert(all =~= less.insert((n - 1) as u32));
    }
}

/// Where the first end of a header stands in a file.
pub open spec fn ends_at(bytes: Seq<u8>, pos: int) -> bool {
    &&& found_at(bytes, encode_utf8("end_header"@), pos)
    &&& forall|j: int|
        0 <= j < pos ==> !#[trigger] found_at(bytes, encode_utf8("end_header"@), j)
}

proof fn lemma_ends_at(bytes: Seq<u8>, pos: int)
    requires
        ends_at(bytes, pos),
    ensures
        first_found(bytes, encode_utf8("end_header"@)) == Some(pos),
{
    let marker = encode_utf8("end_header"@);
    let found = first_found(bytes, marker)->0;
    assert(exists|i: int| found_at(bytes, marker, i));
    assert(found_at(bytes, marker, found) && forall|j: int|
        0 <= j < found ==> !found_at(bytes, marker, j));
    assert(found == pos);
}

/// No header ends in a file.
#[verifier::opaque]
pub open spec fn never_ends(bytes: Seq<u8>) -> bool {
    forall|j: int| !#[trigger] found_at(bytes, encode_utf8("end_header"@), j)
}

proof fn lemma_never_ends(bytes: Seq<u8>)
    ensures
        first_found(bytes, encode_utf8("end_header"@)) is None <==> never_ends(bytes),
{
    reveal(never_ends);
}

/// A file is refused for having no header end exactly where it has none.
pub proof fn headers_have_to_end(bytes: &[u8], r: Result<Vec<KbSplatInstance>, KbPlyProblem>)
    requires
        call_ensures(load_splat_ply, (bytes,), r),
    ensures
        r == Err::<Vec<KbSplatInstance>, KbPlyProblem>(KbPlyProblem::NoHeaderEnd) <==> never_ends(
            bytes@,
        ),
{
    lemma_never_ends(bytes@);
}

/// A file is refused for the first thing that is wrong with its header: that it is no
/// text, or that it lists no vertices. One that is read gives no more splats than it
/// lists, and never more than 700000.
pub proof fn refusals_name_the_first_problem(
    bytes: &[u8],
    r: Result<Vec<KbSplatInstance>, KbPlyProblem>,
    pos: int,
)
    requires
        call_ensures(load_splat_ply, (bytes,), r),
        ends_at(bytes@, pos),
    ensures
        ({
            let text = bytes@.take(pos);
            let h = header_of(decode_utf8(text));
            let none = h.vertex_count == 0 || h.stride == 0;
            &&& r == Err::<Vec<KbSplatInstance>, KbPlyProblem>(KbPlyProblem::HeaderNotText)
                <==> !valid_utf8(text)
            &&& valid_utf8(text) ==> (r == Err::<Vec<KbSplatInstance>, KbPlyProblem>(
                KbPlyProblem::NoVertices,
            ) <==> none)
            &&& r matches Ok(list) ==> list@.len() <= h.vertex_count && list@.len() <= 700_000
        }),
{
    lemma_ends_at(bytes@, pos);
}

/// A draw shows every splat of the cloud once, two triangles each, and none before one
/// that is farther away; the splats themselves stay as they are. Without splats nothing
/// is drawn.
pub proof fn draws_show_every_splat(
    group: &mut KbGaussianSplatRenderGroup,
    depths: Vec<FloatBits>,
    r: Option<u32>,
    s: u32,
    i: int,
    j: int,
)
    requires
        old(group).wf(),
        old(group).model matches Some(m) ==> depths@.len() == m.splats@.len(),
        call_ensures(KbGaussianSplatRenderGroup::render, (group, &depths), r),
    ensures
        r is Some <==> (old(group).model matches Some(m) && m.splats@.len() > 0),
        r matches Some(vertices) ==> {
            let before = old(group).model->0;
            let after = final(group).model->0;
            let order = after.sort_indices@;
            &&& final(group).model is Some
            &&& vertices == 6 * before.splats@.len()
            &&& after.splats == before.splats
            &&& order.len() == before.splats@.len()
            &&& s < before.splats@.len() && order.len() > 1 ==> order.contains(s)
            &&& 0 <= i < j < order.len() ==> order[i] != order[j] && !crate::float_bits::lt(
                depths@[order[j] as int],
                depths@[order[i] as int],
            )
        },
{
    if let Some(vertices) = r {
        let order = final(group).model->0.sort_indices@;
        if 0 <= i < j < order.len() {
            farther_splats_are_drawn_first(order, depths@, 0, i, j);
        }
        if s < depths@.len() && order.len() > 1 {
            farther_splats_are_drawn_first(order, depths@, s, 0, 1);
        }
    }
}

/// A cloud that is loaded takes the place of the one before: its splats as they are, in
/// their own order, each at its own position.
pub proof fn loaded_clouds_stand_in_their_order(
    group: &mut KbGaussianSplatRenderGroup,
    instances: Vec<KbSplatInstance>,
    i: int,
)
    requires
        instances@.len() <= 700_000,
        call_ensures(KbGaussianSplatRenderGroup::load, (group, instances), ()),
    ensures
        final(group).model is Some,
        ({
            let m = final(group).model->0;
            &&& m.splats@ == instances@
            &&& m.num_splats == instances@.len()
            &&& 0 <= i < instances@.len() ==> {
                &&& m.sort_indices@[i] == i
                &&& m.positions@[i].x == instances@[i].position@[0]
                &&& m.positions@[i].y == instances@[i].position@[1]
                &&& m.positions@[i].z == instances@[i].position@[2]
            }
        }),
        final(group).params == old(group).params,
{
}

} // verus!
