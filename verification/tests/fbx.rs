use pie_runtime::fbx::{
    decode_ints32, decode_words32, decode_words64, parse_fbx_geometries, polygon_indices_to_triangles,
    FbxError, FbxNormals,
};

#[test]
fn polygon_indices_to_triangles_handles_triangle() {
    let result = polygon_indices_to_triangles(&[0, 1, -3]);
    assert_eq!(result, vec![0, 1, 2]);
}

#[test]
fn polygon_indices_to_triangles_handles_quad() {
    let result = polygon_indices_to_triangles(&[0, 1, 2, -4]);
    assert_eq!(result, vec![0, 1, 2, 0, 2, 3]);
}

#[test]
fn polygon_indices_to_triangles_handles_pentagon() {
    let result = polygon_indices_to_triangles(&[0, 1, 2, 3, -5]);
    assert_eq!(result, vec![0, 1, 2, 0, 2, 3, 0, 3, 4]);
}

#[test]
fn polygon_indices_to_triangles_handles_multiple_polygons() {
    let result = polygon_indices_to_triangles(&[0, 1, -3, 3, 4, -6]);
    assert_eq!(result, vec![0, 1, 2, 3, 4, 5]);
}

#[test]
fn polygon_indices_to_triangles_edge_cases() {
    assert_eq!(polygon_indices_to_triangles(&[]), Vec::<u32>::new());
    assert_eq!(polygon_indices_to_triangles(&[0, -2]), Vec::<u32>::new());
    // A polygon left open at the end is still triangulated.
    assert_eq!(polygon_indices_to_triangles(&[5, 6, 7]), vec![5, 6, 7]);
    assert_eq!(polygon_indices_to_triangles(&[0, 1, i32::MIN]), vec![0, 1, 2147483647]);
    assert_eq!(polygon_indices_to_triangles(&[i32::MIN, 0, -1]), Vec::<u32>::new());
}

// ----- building FBX binaries -----

fn header(version: u32) -> Vec<u8> {
    let mut d = b"Kaydara FBX Binary  \x00".to_vec();
    d.extend_from_slice(&[0x1a, 0x00]);
    d.extend_from_slice(&version.to_le_bytes());
    d
}

enum Prop {
    Doubles(Vec<f64>),
    Ints(Vec<i32>),
    Floats(Vec<f32>),
    Raw(Vec<u8>),
}

fn prop_bytes(p: &Prop) -> Vec<u8> {
    let mut out = Vec::new();
    match p {
        Prop::Doubles(v) => {
            out.push(b'd');
            out.extend_from_slice(&0u32.to_le_bytes());
            out.extend_from_slice(&(v.len() as u32).to_le_bytes());
            for x in v {
                out.extend_from_slice(&x.to_le_bytes());
            }
        }
        Prop::Floats(v) => {
            out.push(b'f');
            out.extend_from_slice(&0u32.to_le_bytes());
            out.extend_from_slice(&(v.len() as u32).to_le_bytes());
            for x in v {
                out.extend_from_slice(&x.to_le_bytes());
            }
        }
        Prop::Ints(v) => {
            out.push(b'i');
            out.extend_from_slice(&0u32.to_le_bytes());
            out.extend_from_slice(&(v.len() as u32).to_le_bytes());
            for x in v {
                out.extend_from_slice(&x.to_le_bytes());
            }
        }
        Prop::Raw(b) => out.extend_from_slice(b),
    }
    out
}

// A record with 32-bit header fields, placed at absolute offset `at`.
fn record(at: usize, name: &str, props: &[Prop], children: &dyn Fn(usize) -> Vec<u8>) -> Vec<u8> {
    let mut body = Vec::new();
    for p in props {
        body.extend_from_slice(&prop_bytes(p));
    }
    let start_children = at + 13 + name.len() + body.len();
    let kids = children(start_children);
    let end = start_children + kids.len();
    let mut out = Vec::new();
    out.extend_from_slice(&(end as u32).to_le_bytes());
    out.extend_from_slice(&(props.len() as u32).to_le_bytes());
    out.extend_from_slice(&(body.len() as u32).to_le_bytes());
    out.push(name.len() as u8);
    out.extend_from_slice(name.as_bytes());
    out.extend_from_slice(&body);
    out.extend_from_slice(&kids);
    out
}

fn no_children(_: usize) -> Vec<u8> {
    Vec::new()
}

fn triangle_file(normals: Option<Prop>) -> Vec<u8> {
    let mut d = header(7400);
    let start = d.len();
    let positions = vec![0.0, 0.0, 0.0, 1.0, 0.0, 0.0, 0.0, 1.0, 0.0];
    let geom = record(start, "Geometry", &[], &|at| {
        let mut kids = record(at, "Vertices", &[Prop::Doubles(positions.clone())], &no_children);
        let at2 = at + kids.len();
        let pvi = record(at2, "PolygonVertexIndex", &[Prop::Ints(vec![0, 1, -3])], &no_children);
        kids.extend_from_slice(&pvi);
        if let Some(n) = &normals {
            let at3 = at + kids.len();
            let n_bytes = prop_bytes(n);
            let layer = record(at3, "LayerElementNormal", &[], &|at4| {
                record(at4, "Normals", &[Prop::Raw(n_bytes.clone())], &no_children)
            });
            kids.extend_from_slice(&layer);
        }
        kids
    });
    d.extend_from_slice(&geom);
    // Padding so the last record header check passes like real files.
    d.extend_from_slice(&[0u8; 13]);
    d
}

#[test]
fn parse_fbx_rejects_short_and_foreign_files() {
    assert_eq!(
        parse_fbx_geometries(b"short"),
        Err(FbxError::Malformed("FBX file too short".to_string()))
    );
    let mut d = vec![b'x'; 30];
    d[0] = b'K';
    match parse_fbx_geometries(&d) {
        Err(FbxError::Malformed(m)) => {
            assert!(m.starts_with("invalid FBX magic: expected 'Kaydara FBX Binary', got [75, 120, 120"));
            assert!(m.ends_with("120]"));
        }
        other => panic!("unexpected {:?}", other.is_ok()),
    }
}

#[test]
fn parse_fbx_reads_a_triangle_geometry() {
    let d = triangle_file(None);
    let geoms = parse_fbx_geometries(&d).expect("should parse");
    assert_eq!(geoms.len(), 1);
    assert_eq!(geoms[0].triangles, vec![0, 1, 2]);
    let xs: Vec<f64> = geoms[0].positions.iter().map(|b| f64::from_bits(*b)).collect();
    assert_eq!(xs, vec![0.0, 0.0, 0.0, 1.0, 0.0, 0.0, 0.0, 1.0, 0.0]);
    assert!(geoms[0].normals.is_none());
}

#[test]
fn parse_fbx_keeps_per_vertex_normals() {
    let d = triangle_file(Some(Prop::Floats(vec![0.0, 0.0, 1.0, 0.0, 0.0, 1.0, 0.0, 0.0, 1.0])));
    let geoms = parse_fbx_geometries(&d).expect("should parse");
    match &geoms[0].normals {
        Some(FbxNormals::Single(v)) => {
            assert_eq!(v.len(), 9);
            assert_eq!(f32::from_bits(v[2]), 1.0);
        }
        _ => panic!("expected f32 normals"),
    }
    // Normals that are not one per vertex are dropped.
    let d = triangle_file(Some(Prop::Doubles(vec![0.0, 0.0, 1.0])));
    let geoms = parse_fbx_geometries(&d).expect("should parse");
    assert!(geoms[0].normals.is_none());
}

#[test]
fn parse_fbx_reads_zlib_compressed_arrays() {
    // zlib stream (stored block) of the three i32 values 0, 1, -3.
    let raw: Vec<u8> = [0i32, 1, -3].iter().flat_map(|x| x.to_le_bytes()).collect();
    let mut z = vec![0x78, 0x01, 0x01];
    z.extend_from_slice(&(raw.len() as u16).to_le_bytes());
    z.extend_from_slice(&(!(raw.len() as u16)).to_le_bytes());
    z.extend_from_slice(&raw);
    let (mut a, mut b) = (1u32, 0u32);
    for x in &raw {
        a = (a + *x as u32) % 65521;
        b = (b + a) % 65521;
    }
    z.extend_from_slice(&((b << 16) | a).to_be_bytes());
    let mut compressed = vec![b'i'];
    compressed.extend_from_slice(&1u32.to_le_bytes());
    compressed.extend_from_slice(&3u32.to_le_bytes());
    compressed.extend_from_slice(&(z.len() as u32).to_le_bytes());
    compressed.extend_from_slice(&z);

    let mut d = header(7400);
    let start = d.len();
    let positions = vec![0.0, 0.0, 0.0, 1.0, 0.0, 0.0, 0.0, 1.0, 0.0];
    let geom = record(start, "Geometry", &[], &|at| {
        let mut kids = record(at, "Vertices", &[Prop::Doubles(positions.clone())], &no_children);
        let at2 = at + kids.len();
        kids.extend_from_slice(&record(at2, "PolygonVertexIndex", &[Prop::Raw(compressed.clone())], &no_children));
        kids
    });
    d.extend_from_slice(&geom);
    d.extend_from_slice(&[0u8; 13]);
    let geoms = parse_fbx_geometries(&d).expect("should parse");
    assert_eq!(geoms[0].triangles, vec![0, 1, 2]);
}

#[test]
fn parse_fbx_reports_corrupt_zlib_data() {
    let mut bad = vec![b'd'];
    bad.extend_from_slice(&1u32.to_le_bytes());
    bad.extend_from_slice(&1u32.to_le_bytes());
    bad.extend_from_slice(&4u32.to_le_bytes());
    bad.extend_from_slice(&[0xff, 0xff, 0xff, 0xff]);
    let mut d = header(7400);
    let start = d.len();
    d.extend_from_slice(&record(start, "Vertices", &[Prop::Raw(bad)], &no_children));
    d.extend_from_slice(&[0u8; 13]);
    assert!(matches!(parse_fbx_geometries(&d), Err(FbxError::Malformed(_))));
}

#[test]
fn parse_fbx_reports_truncated_arrays() {
    let mut short = vec![b'd'];
    short.extend_from_slice(&0u32.to_le_bytes());
    short.extend_from_slice(&100u32.to_le_bytes());
    let mut d = header(7400);
    let start = d.len();
    d.extend_from_slice(&record(start, "Vertices", &[Prop::Raw(short)], &no_children));
    d.extend_from_slice(&[0u8; 13]);
    assert_eq!(
        parse_fbx_geometries(&d),
        Err(FbxError::Malformed("FBX uncompressed array truncated".to_string()))
    );
}

#[test]
fn parse_fbx_without_geometry_gives_nothing() {
    let mut d = header(7500);
    d.extend_from_slice(&[0u8; 40]);
    assert_eq!(parse_fbx_geometries(&d).map(|g| g.len()), Ok(0));
}

#[test]
fn array_payloads_decode_little_endian_words() {
    let bytes = [0x00, 0x00, 0x80, 0x3f, 0xff, 0xff, 0xff, 0xff, 0x07];
    assert_eq!(decode_words32(&bytes), vec![0x3f80_0000, 0xffff_ffff]);
    assert_eq!(f32::from_bits(decode_words32(&bytes)[0]), 1.0);
    assert_eq!(decode_ints32(&bytes), vec![0x3f80_0000, -1]);
    let wide = 2.5f64.to_bits().to_le_bytes();
    assert_eq!(decode_words64(&wide), vec![2.5f64.to_bits()]);
    assert_eq!(decode_words64(&bytes), vec![0xffff_ffff_3f80_0000]);
    assert!(decode_words64(&bytes[..7]).is_empty());
}
