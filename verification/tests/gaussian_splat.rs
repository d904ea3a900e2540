use black_splat::passes::gaussian_splat::{parse_splat_ply, MAX_SPLATS};

// Builds a minimal binary-little-endian 3DGS .ply with `n` splats, each with
// position (1,2,3), identity-ish rotation, log-scale 0, and opacity logit 0.
fn make_ply(n: usize) -> Vec<u8> {
    let mut header = String::from("ply\nformat binary_little_endian 1.0\n");
    header.push_str(&format!("element vertex {n}\n"));
    for p in [
        "x", "y", "z", "f_dc_0", "f_dc_1", "f_dc_2", "opacity", "scale_0", "scale_1", "scale_2",
        "rot_0", "rot_1", "rot_2", "rot_3",
    ] {
        header.push_str(&format!("property float {p}\n"));
    }
    header.push_str("end_header\n");
    let mut bytes = header.into_bytes();
    for _ in 0..n {
        for v in [
            1.0f32, 2.0, 3.0, 0.5, 0.5, 0.5, 0.0, 0.0, 0.0, 0.0, 1.0, 0.0, 0.0, 0.0,
        ] {
            bytes.extend_from_slice(&v.to_le_bytes());
        }
    }
    bytes
}

fn floats(bits: &[u32]) -> Vec<f32> {
    bits.iter().map(|b| f32::from_bits(*b)).collect()
}

// Scale out of log space, opacity through a sigmoid.
fn activated(raw: &[u32; 4]) -> [f32; 4] {
    let v = floats(raw);
    [v[0].exp(), v[1].exp(), v[2].exp(), 1.0 / (1.0 + (-v[3]).exp())]
}

#[test]
fn parses_a_minimal_ply() {
    let parse = parse_splat_ply(&make_ply(3), "test", MAX_SPLATS).ok().unwrap();
    assert_eq!(parse.instances.len(), 3);
    assert!(parse.clamped_from.is_none());
    // Position: X and Y are negated into the engine frame.
    assert_eq!(floats(&parse.instances[0].position[0..3]), [-1.0, -2.0, 3.0]);
    // Log-scale 0 -> 1.0; opacity logit 0 -> sigmoid 0.5.
    assert_eq!(activated(&parse.instances[0].scale_opacity), [1.0, 1.0, 1.0, 0.5]);
}

#[test]
fn clamps_to_max_splats_and_reports_it() {
    let parse = parse_splat_ply(&make_ply(10), "test", 4).ok().unwrap();
    assert_eq!(parse.instances.len(), 4);
    assert_eq!(parse.clamped_from, Some(10));
}

#[test]
fn tolerates_truncated_data() {
    let mut ply = make_ply(5);
    ply.truncate(ply.len() - 2 * 14 * 4 - 1); // cut off the last two splats
    let parse = parse_splat_ply(&ply, "test", MAX_SPLATS).ok().unwrap();
    assert_eq!(parse.instances.len(), 2);
    // Truncation is not the same as hitting the splat budget.
    assert!(parse.clamped_from.is_none());
}

#[test]
fn rejects_garbage_without_panicking() {
    assert!(parse_splat_ply(b"not a ply at all", "test", MAX_SPLATS).is_err());
    assert!(parse_splat_ply(b"", "test", MAX_SPLATS).is_err());
    // Valid header but zero vertices.
    assert!(parse_splat_ply(
        b"ply\nformat binary_little_endian 1.0\nelement vertex 0\nproperty float x\nend_header\n",
        "test",
        MAX_SPLATS
    )
    .is_err());
    // Header claims vertices but the data section is missing entirely.
    let no_data = String::from_utf8(make_ply(0)).unwrap().replace("vertex 0", "vertex 9");
    assert!(parse_splat_ply(no_data.as_bytes(), "test", MAX_SPLATS).is_err());
}

#[test]
fn rejects_unsupported_formats_with_a_reason() {
    // ASCII .ply: would otherwise parse the text section as binary garbage.
    // (The format check fires before the vertex-count check, so an empty
    // data section is fine here.)
    let ascii = String::from_utf8(make_ply(0))
        .unwrap()
        .replace("binary_little_endian", "ascii");
    let err = parse_splat_ply(ascii.as_bytes(), "test", MAX_SPLATS).err().unwrap();
    assert!(err.contains("ascii"), "unexpected error: {err}");

    // Missing 3DGS properties (e.g. a compressed or plain point-cloud .ply).
    let plain = b"ply\nformat binary_little_endian 1.0\nelement vertex 1\n\
        property float x\nproperty float y\nproperty float z\nend_header\n\
        \x00\x00\x00\x00\x00\x00\x00\x00\x00\x00\x00\x00";
    let err = parse_splat_ply(plain, "test", MAX_SPLATS).err().unwrap();
    assert!(err.contains("scale_0"), "unexpected error: {err}");

    // No format line at all.
    assert!(parse_splat_ply(
        b"ply\nelement vertex 1\nproperty float x\nend_header\n\x00\x00\x00\x00",
        "test",
        MAX_SPLATS
    )
    .is_err());
}
