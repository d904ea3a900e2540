use black_splat::float_bits::{
    cgmat4_to_cgmat3, cgvec3_remove_y, double_at_most, float_clamp, float_is_nan, float_le,
    float_lt, float_max, float_min, float_order, negated, read_word, Mat4, Vec2, Vec3, Vec4,
    INFINITY, ONE, SIGN,
};
use black_splat::paths::{base_name, file_stem, name_or_path, stem_of_name};
use black_splat::text::{
    chars_of, decimal_text, has_prefix, has_text, is_white_space, parse_usize, same_text,
    split_words, text_before,
};
use black_splat::utils::{pick_u32, random_u32, random_word, word_of};

const SAMPLES: [f32; 11] = [
    0.0,
    -0.0,
    1.0,
    -1.0,
    1.5e-40,
    -2.0,
    3.0e38,
    f32::INFINITY,
    f32::NEG_INFINITY,
    f32::NAN,
    0.1,
];

#[test]
fn bits_compare_as_numbers_do() {
    for a in SAMPLES {
        for b in SAMPLES {
            let (x, y) = (a.to_bits(), b.to_bits());
            assert_eq!(float_lt(x, y), a < b);
            assert_eq!(float_le(x, y), a <= b);
            if !a.is_nan() && !b.is_nan() {
                assert_eq!(float_order(x) < float_order(y), a < b);
                assert_eq!(f32::from_bits(float_min(x, y)), a.min(b));
                assert_eq!(f32::from_bits(float_max(x, y)), a.max(b));
            }
        }
        assert_eq!(float_is_nan(a.to_bits()), a.is_nan());
        assert_eq!(negated(a.to_bits()), (-a).to_bits());
        assert_eq!(negated(negated(a.to_bits())), a.to_bits());
    }
    assert_eq!(float_min(f32::NAN.to_bits(), ONE), ONE);
    assert_eq!(float_max(ONE, f32::NAN.to_bits()), ONE);
    assert_eq!(INFINITY, f32::INFINITY.to_bits());
    assert_eq!(SIGN, (-0.0f32).to_bits());
}

#[test]
fn clamping_keeps_what_is_no_number() {
    let (low, high) = (0.5f32.to_bits(), 2.0f32.to_bits());
    assert_eq!(float_clamp(0.1f32.to_bits(), low, high), low);
    assert_eq!(float_clamp(3.0f32.to_bits(), low, high), high);
    assert_eq!(float_clamp(ONE, low, high), ONE);
    let nan = f32::NAN.to_bits();
    assert_eq!(float_clamp(nan, low, high), nan);
}

#[test]
fn doubles_compare_as_numbers_do() {
    for a in SAMPLES.map(|v| v as f64) {
        for b in SAMPLES.map(|v| v as f64) {
            assert_eq!(double_at_most(a.to_bits(), b.to_bits()), a <= b);
        }
    }
}

#[test]
fn words_are_little_endian() {
    let bytes = [9, 0x78, 0x56, 0x34, 0x12];
    assert_eq!(read_word(&bytes, 1), 0x1234_5678);
    assert_eq!(word_of(&[1, 0, 0, 0x80]), 0x8000_0001);
}

#[test]
fn matrices_and_vectors_lose_a_dimension() {
    let v = |k: u32| Vec4 { x: k, y: k + 1, z: k + 2, w: k + 3 };
    let m = cgmat4_to_cgmat3(&Mat4 { x: v(0), y: v(4), z: v(8), w: v(12) });
    assert_eq!(m.x, Vec3 { x: 0, y: 1, z: 2 });
    assert_eq!(m.y, Vec3 { x: 4, y: 5, z: 6 });
    assert_eq!(m.z, Vec3 { x: 8, y: 9, z: 10 });
    assert_eq!(cgvec3_remove_y(Vec3 { x: 1, y: 2, z: 3 }), Vec2 { x: 1, y: 3 });
}

#[test]
fn random_numbers_stay_in_their_range() {
    assert_eq!(pick_u32(0, 3, 5), 3);
    assert_eq!(pick_u32(4, 3, 5), 4);
    assert_eq!(pick_u32(u32::MAX, 7, 7), 7);
    for _ in 0..200 {
        let r = random_u32(10, 12);
        assert!((10..=12).contains(&r));
    }
    // Sixty-four zero words in a row do not happen where bytes are random.
    assert!((0..64).any(|_| random_word() != 0));
}

#[test]
fn numbers_are_written_and_read_in_decimal() {
    for n in [0, 7, 10, 99, 100, 12345, u32::MAX as u64] {
        assert_eq!(decimal_text(n), n.to_string());
        assert_eq!(parse_usize(&decimal_text(n)), Some(n as usize));
    }
    for bad in ["", "+", "-1", "1 ", "1x", "99999999999999999999999", "++1"] {
        assert_eq!(parse_usize(bad), None);
        assert!(bad.parse::<usize>().is_err());
    }
    assert_eq!(parse_usize("+007"), Some(7));
    assert_eq!(parse_usize(&usize::MAX.to_string()), Some(usize::MAX));
    assert_eq!(parse_usize("18446744073709551616"), None);
}

#[test]
fn texts_are_split_compared_and_searched() {
    let words = split_words(&chars_of("  one\ttwo\u{3000}three \r"));
    assert_eq!(words, vec!["one", "two", "three"]);
    assert!(split_words(&chars_of(" ")).is_empty());
    for c in ['\u{85}', '\u{a0}', '\u{2028}', 'x', '\u{200b}'] {
        assert_eq!(is_white_space(c), c.is_whitespace());
    }
    assert!(same_text("\u{e4}", "\u{e4}"));
    assert!(!same_text("a", "ab"));
    assert!(has_prefix("f_rest_0", "f_rest_") && !has_prefix("f_res", "f_rest_"));
    assert!(has_text("a/decal.wgsl", "decal") && !has_text("deca", "decal"));
    assert!(has_text("x", ""));
    for (a, b) in [("a", "b"), ("", "a"), ("ab", "b"), ("a", "ab"), ("z", "\u{e4}")] {
        assert!(text_before(a, b) && !text_before(b, a));
        assert!(a < b);
    }
    assert!(!text_before("same", "same"));
}

#[test]
fn paths_end_in_a_name() {
    for (path, name) in [
        ("/engine_assets/textures/a.png", "a.png"),
        ("a.png", "a.png"),
        ("x/.hidden", ".hidden"),
        ("..", ".."),
    ] {
        assert_eq!(base_name(path), name);
    }
    assert_eq!(name_or_path(Some("n".to_string()), "x/y"), "n");
    assert_eq!(name_or_path(None, "x/y"), "x/y");
    for (name, stem) in [("a.png", "a"), ("a.b.c", "a.b"), (".hidden", ".hidden"), ("a.", "a")] {
        assert_eq!(stem_of_name(&Some(name.to_string())), stem);
        assert_eq!(file_stem(&format!("dir.x/{name}")), stem);
    }
    assert_eq!(stem_of_name(&None), "");
}
