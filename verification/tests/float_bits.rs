use pie_runtime::float_bits::{f32_clamp_bits, f32_less};

const SAMPLES: [f32; 12] = [
    0.0,
    -0.0,
    1.0,
    -1.0,
    0.5,
    -2.5,
    1.0e-40,
    -1.0e-40,
    3.4e38,
    f32::INFINITY,
    f32::NEG_INFINITY,
    f32::NAN,
];

#[test]
fn less_matches_f32_comparison() {
    for a in SAMPLES {
        for b in SAMPLES {
            assert_eq!(f32_less(a.to_bits(), b.to_bits()), a < b, "{a} < {b}");
        }
    }
}

#[test]
fn clamp_matches_f32_clamp() {
    for x in SAMPLES {
        let got = f32::from_bits(f32_clamp_bits(x.to_bits(), (-1.0f32).to_bits(), 0.5f32.to_bits()));
        let want = x.clamp(-1.0, 0.5);
        assert!(got == want || (got.is_nan() && want.is_nan()), "{x}");
        assert_eq!(got.to_bits() == want.to_bits(), true, "{x}");
    }
}
