use pie_runtime::sample_scene::fallback_cube_geometry;

#[test]
fn fallback_cube_geometry_has_expected_counts() {
    let (vertices, indices) = fallback_cube_geometry();

    assert_eq!(vertices.len(), 24);
    assert_eq!(indices.len(), 36);
}

fn f3(v: [u32; 3]) -> [f32; 3] {
    [f32::from_bits(v[0]), f32::from_bits(v[1]), f32::from_bits(v[2])]
}

#[test]
fn fallback_cube_faces_wind_counter_clockwise_from_outside() {
    let (vertices, indices) = fallback_cube_geometry();
    for fi in 0..6 {
        let p0 = f3(vertices[fi * 4].position);
        let p1 = f3(vertices[fi * 4 + 1].position);
        let p2 = f3(vertices[fi * 4 + 2].position);
        let n = f3(vertices[fi * 4].normal);
        let e1 = [p1[0] - p0[0], p1[1] - p0[1], p1[2] - p0[2]];
        let e2 = [p2[0] - p0[0], p2[1] - p0[1], p2[2] - p0[2]];
        let c = [e1[1] * e2[2] - e1[2] * e2[1], e1[2] * e2[0] - e1[0] * e2[2], e1[0] * e2[1] - e1[1] * e2[0]];
        let len = (c[0] * c[0] + c[1] * c[1] + c[2] * c[2]).sqrt();
        let dot = (c[0] * n[0] + c[1] * n[1] + c[2] * n[2]) / len;
        assert!(dot > 0.99, "face {fi}");
        for k in 0..4 {
            let p = f3(vertices[fi * 4 + k].position);
            assert!(p.iter().all(|x| x.abs() == 0.5));
        }
        let b = (fi * 4) as u32;
        assert_eq!(&indices[fi * 6..fi * 6 + 6], &[b, b + 1, b + 2, b, b + 2, b + 3]);
    }
    assert_eq!(f32::from_bits(vertices[1].uv[0]), 1.0);
    assert_eq!(f32::from_bits(vertices[23].tangent[3]), 1.0);
}
