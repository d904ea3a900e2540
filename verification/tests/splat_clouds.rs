use black_splat::ply::{find_subsequence, resolve_fields, scan_header, type_size};
use black_splat::passes::gaussian_splat::{
    device_max_splats, draw_pipeline, parse_splat_ply, pass_stride, pass_uniforms, sort_bindings,
    sort_buffers, sort_layouts, sort_plan, GaussianSplatPass, SortBuffer, SortDirection, SortPhase,
    SplatParams, MAX_SPLATS, RADIX_PASSES,
};
use black_splat::gpu::{BindingKind, DepthCompare, DepthTest, Stage, TargetFormat, Topology};

const NAMES: [&str; 14] = [
    "x", "y", "z", "f_dc_0", "f_dc_1", "f_dc_2", "opacity", "scale_0", "scale_1", "scale_2",
    "rot_0", "rot_1", "rot_2", "rot_3",
];

// A cloud of `n` splats whose values count up, with `rest` more properties.
fn cloud(n: usize, rest: usize) -> Vec<u8> {
    let mut header = format!("ply\nformat binary_little_endian 1.0\nelement vertex {n}\n");
    for p in NAMES {
        header.push_str(&format!("property float {p}\n"));
    }
    for i in 0..rest {
        header.push_str(&format!("property float f_rest_{i}\n"));
    }
    header.push_str("end_header\n");
    let mut bytes = header.into_bytes();
    for i in 0..n * (NAMES.len() + rest) {
        bytes.extend_from_slice(&(i as f32 + 1.0).to_le_bytes());
    }
    bytes
}

fn f(bits: u32) -> f32 {
    f32::from_bits(bits)
}

fn reason(bytes: &[u8]) -> String {
    parse_splat_ply(bytes, "test", MAX_SPLATS).err().unwrap()
}

#[test]
fn a_vertex_is_turned_into_the_engines_frame() {
    let parse = parse_splat_ply(&cloud(2, 0), "test", MAX_SPLATS).ok().unwrap();
    let s = parse.instances[1];
    // The second vertex holds 15 to 28.
    assert_eq!(s.position.map(f), [-15.0, -16.0, 17.0, 0.0]);
    assert_eq!(s.sh0.map(f), [18.0, 19.0, 20.0, 0.0]);
    assert_eq!(s.scale_opacity.map(f), [22.0, 23.0, 24.0, 21.0]);
    assert_eq!(s.rotation.map(f), [-26.0, -27.0, 28.0, 25.0]);
    assert_eq!(s.sh_rest.map(f), [0.0; 24]);
}

#[test]
fn higher_orders_are_stored_channel_by_channel() {
    // Nine properties: three coefficients per channel.
    let parse = parse_splat_ply(&cloud(1, 9), "test", MAX_SPLATS).ok().unwrap();
    let rest = parse.instances[0].sh_rest.map(f);
    assert_eq!(rest[0..9], [15.0, 18.0, 21.0, 16.0, 19.0, 22.0, 17.0, 20.0, 23.0]);
    assert_eq!(rest[9..12], [18.0, 21.0, 0.0]);
    assert_eq!(rest[23], 0.0);
}

#[test]
fn every_rejection_has_its_reason() {
    assert_eq!(reason(b"ply\n"), "not a .ply file (no end_header)");
    assert_eq!(reason(b"ply\xff\nend_header\n"), "header is not valid utf-8");
    assert_eq!(
        reason(b"ply\nformat ascii 1.0\nend_header\n"),
        "'ascii' .ply is unsupported (need binary_little_endian)"
    );
    assert_eq!(
        reason(b"ply\nformat\nend_header\n"),
        "'' .ply is unsupported (need binary_little_endian)"
    );
    assert_eq!(reason(b"ply\nend_header\n"), "no 'format' line -- not a valid .ply");
    assert_eq!(
        reason(b"ply\nformat binary_little_endian 1.0\nproperty float x\nend_header\n"),
        "no 'y' property -- compressed or non-3DGS .ply? (unsupported)"
    );
    assert_eq!(reason(&cloud(0, 0)), "header lists no vertices");
    let mut cut = cloud(1, 0);
    cut.truncate(cut.len() - 1);
    assert_eq!(reason(&cut), "vertex data is missing or truncated");
}

#[test]
fn a_narrow_last_property_cannot_be_read_past_the_end() {
    let mut header = String::from("ply\nformat binary_little_endian 1.0\nelement vertex 1\n");
    for p in NAMES.iter().filter(|p| **p != "x") {
        header.push_str(&format!("property float {p}\n"));
    }
    header.push_str("property uchar x\nend_header\n");
    let mut bytes = header.into_bytes();
    bytes.extend_from_slice(&[0; 53]);
    assert_eq!(reason(&bytes), "vertex data is missing or truncated");
    // With three more bytes behind it the last property can be read.
    bytes.extend_from_slice(&[0; 3]);
    assert!(parse_splat_ply(&bytes, "test", MAX_SPLATS).is_ok());
}

#[test]
fn smaller_budgets_keep_a_prefix() {
    let bytes = cloud(6, 0);
    let all = parse_splat_ply(&bytes, "test", MAX_SPLATS).ok().unwrap();
    let few = parse_splat_ply(&bytes, "test", 2).ok().unwrap();
    assert_eq!(few.instances.len(), 2);
    assert_eq!(few.clamped_from, Some(6));
    for i in 0..2 {
        assert_eq!(few.instances[i].position, all.instances[i].position);
        assert_eq!(few.instances[i].rotation, all.instances[i].rotation);
    }
    assert!(parse_splat_ply(&bytes, "test", 6).ok().unwrap().clamped_from.is_none());
    assert!(parse_splat_ply(&bytes, "test", 0).ok().unwrap().instances.is_empty());
}

#[test]
fn headers_are_scanned_line_by_line() {
    let h = scan_header("element vertex 12\nproperty uchar a\r\n property  double b\nproperty short a\nproperty float f_rest_0\nelement face 3\nproperty list\nelement vertex +7");
    assert_eq!(h.vertex_count, 7);
    assert_eq!(h.stride, 15);
    assert_eq!(h.num_rest, 1);
    assert!(h.formats.is_empty());
    assert_eq!(h.offsets.get("a"), Some(&9));
    assert_eq!(h.offsets.get("b"), Some(&1));
    assert_eq!(h.offsets.get("f_rest_0"), Some(&11));
    assert_eq!(scan_header("element vertex -1").vertex_count, 0);
    assert_eq!(scan_header("element vertex many").vertex_count, 0);
    let fields = resolve_fields(&h, 1);
    assert_eq!(fields.len(), 38);
    assert_eq!(fields[0], None);
    assert_eq!(fields[14], Some(11));
}

#[test]
fn property_types_have_their_sizes() {
    for (ty, size) in [
        ("char", 1), ("uchar", 1), ("int8", 1), ("uint8", 1), ("short", 2), ("ushort", 2),
        ("int16", 2), ("uint16", 2), ("double", 8), ("float64", 8), ("float", 4), ("list", 4),
    ] {
        assert_eq!(type_size(ty), size);
    }
}

#[test]
fn the_first_occurrence_is_found() {
    assert_eq!(find_subsequence(b"abcabc", b"bc"), Some(1));
    assert_eq!(find_subsequence(b"abc", b"abcd"), None);
    assert_eq!(find_subsequence(b"aab", b"ab"), Some(1));
    assert_eq!(find_subsequence(b"", b"a"), None);
}

#[test]
fn devices_limit_the_budget() {
    assert_eq!(device_max_splats(700_000, 128 << 20, u64::MAX), 700_000);
    assert_eq!(device_max_splats(16_000_000, 128 << 20, u64::MAX), 838_860);
    assert_eq!(device_max_splats(16_000_000, u64::MAX, 320), 2);
    assert_eq!(device_max_splats(16_000_000, 159, 320), 0);
}

#[test]
fn sort_buffers_cover_whole_tiles() {
    for (splats, tiles) in [(0, 1), (1, 1), (256, 1), (257, 2), (16_000_000, 62_500)] {
        let b = sort_buffers(splats);
        assert_eq!(b.num_tiles, tiles);
        assert_eq!(b.slot_bytes, tiles as u64 * 1024);
        assert_eq!(b.hist_bytes, tiles as u64 * 1024);
        assert_eq!(b.block_sum_bytes, tiles as u64 * 4);
        assert!(tiles <= 65535);
    }
}

#[test]
fn pass_uniforms_hold_the_shifts() {
    assert_eq!(pass_stride(4), 16);
    assert_eq!(pass_stride(256), 256);
    let bytes = pass_uniforms(20);
    assert_eq!(bytes.len(), 80);
    for (i, b) in bytes.iter().enumerate() {
        let expected = if i % 20 == 0 { 8 * (i / 20) as u8 } else { 0 };
        assert_eq!(*b, expected);
    }
}

#[test]
fn each_digit_pass_reads_what_the_last_one_wrote() {
    let plan = sort_plan(256, 7);
    assert_eq!(plan.len(), 21);
    assert!(plan[0].phase == SortPhase::ComputeKeys && plan[0].direction == SortDirection::BToA);
    let phases = [
        SortPhase::Histogram,
        SortPhase::ScanReduce,
        SortPhase::ScanSpine,
        SortPhase::ScanAdd,
        SortPhase::Scatter,
    ];
    let mut side = SortBuffer::KeysA;
    for p in 0..RADIX_PASSES as usize {
        for k in 0..5 {
            let d = plan[1 + 5 * p + k];
            assert!(d.phase == phases[k]);
            assert_eq!(d.offset, 256 * p as u32);
            assert_eq!(d.groups, if k == 2 { 1 } else { 7 });
            assert!(sort_bindings(d.direction)[2] == side);
        }
        side = sort_bindings(plan[1 + 5 * p].direction)[3];
    }
    assert!(side == SortBuffer::KeysA);
}

#[test]
fn the_sort_binds_eight_buffers_that_stay_apart() {
    for direction in [SortDirection::AToB, SortDirection::BToA] {
        let b = sort_bindings(direction);
        for i in 0..8 {
            for j in 0..i {
                assert!(b[i] != b[j]);
            }
        }
    }
    let layouts = sort_layouts();
    assert_eq!(layouts.len(), 2);
    assert_eq!(layouts[0].len(), 8);
    assert!(layouts[0][3].kind == BindingKind::Storage { read_only: false });
    assert!(layouts[1][0].kind == BindingKind::DynamicUniform(16));
    let draw = draw_pipeline();
    assert!(draw.groups[1][1].stage == Stage::Vertex);
    assert!(draw.targets[0].format == TargetFormat::SceneColor);
    assert!(draw.depth == Some(DepthTest { compare: DepthCompare::LessEqual, write: false }));
    assert!(draw.topology == Topology::TriangleList);
}

fn loaded(n: usize) -> GaussianSplatPass {
    let mut pass = GaussianSplatPass::new();
    for i in 1..=n {
        let info = pass.load_from_bytes(&cloud(i, 0), "test", MAX_SPLATS, 256).ok().unwrap();
        assert_eq!(info.num_splats, i as u32);
        assert_eq!(info.clamped_from, None);
    }
    pass
}

#[test]
fn removal_keeps_naming_the_same_cloud() {
    let mut pass = loaded(4);
    pass.set_active_model(2);
    assert_eq!(pass.active_splat_count(), 3);
    pass.remove_model(0);
    assert_eq!((pass.active_model, pass.active_splat_count()), (1, 3));
    pass.remove_model(2);
    assert_eq!((pass.active_model, pass.active_splat_count()), (1, 3));
    // The active cloud itself goes: the last one takes over.
    pass.remove_model(1);
    assert_eq!((pass.active_model, pass.active_splat_count()), (0, 2));
    pass.remove_model(9);
    assert_eq!(pass.num_models(), 1);
    pass.remove_model(0);
    assert_eq!((pass.active_model, pass.active_splat_count()), (0, 0));
    assert!(!pass.has_model());
}

#[test]
fn the_next_cloud_takes_over_from_a_removed_one() {
    let mut pass = loaded(3);
    pass.set_active_model(1);
    pass.set_active_model(7);
    assert_eq!(pass.active_model, 1);
    pass.remove_model(1);
    assert_eq!((pass.active_model, pass.active_splat_count()), (1, 3));
    pass.clear_models();
    assert_eq!((pass.num_models(), pass.active_model), (0, 0));
}

#[test]
fn a_failed_load_changes_nothing() {
    let mut pass = loaded(1);
    assert!(pass.load_from_bytes(b"", "test", MAX_SPLATS, 256).is_err());
    assert_eq!(pass.num_models(), 1);
    let info = pass.load_from_bytes(&cloud(5, 0), "test", 3, 256).ok().unwrap();
    assert_eq!((info.num_splats, info.clamped_from), (3, Some(5)));
}

#[test]
fn a_cloud_is_sorted_when_the_view_turned() {
    let mut pass = loaded(2);
    pass.set_active_model(1);
    let row = [1.0f32.to_bits(); 4];
    assert!(pass.render(false, row, true).is_none());
    // Never sorted before.
    let frame = pass.render(true, row, false).unwrap();
    assert_eq!((frame.model, frame.vertices, frame.sort.len()), (1, 12, 21));
    assert_eq!(pass.models[1].last_sort_zc, row);
    let frame = pass.render(true, [0; 4], false).unwrap();
    assert!(frame.sort.is_empty());
    assert_eq!(pass.models[1].last_sort_zc, row);
    let frame = pass.render(true, [0; 4], true).unwrap();
    assert_eq!(frame.sort.len(), 21);
    assert_eq!(pass.models[1].last_sort_zc, [0; 4]);
    assert!(f(pass.models[0].last_sort_zc[0]).is_nan());
}

#[test]
fn splat_parameters_have_defaults() {
    let p = SplatParams::default();
    assert_eq!(f(p.falloff), 8.0);
    assert_eq!(
        (f(p.scale), f(p.contrast), f(p.max_sh_degree), f(p.overall_scale)),
        (1.0, 1.0, 0.0, 1.0)
    );
    let mut pass = GaussianSplatPass::new();
    assert_eq!(pass.params.falloff, p.falloff);
    pass.set_params(&SplatParams { falloff: 5, ..p });
    assert_eq!(pass.params.falloff, 5);
    assert!(pass.render(true, [0; 4], true).is_none());
}
