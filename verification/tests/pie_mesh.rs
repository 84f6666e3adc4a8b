use pie_runtime::assets::{AssetError, MaterialHandle};
use pie_runtime::pie_mesh::{guess_vertex_count, parse_pie_mesh_data, JsonMetadataFields, PieMeshMetadata};

#[test]
fn guess_vertex_count_finds_correct_split() {
    let mut data = Vec::new();
    let vertex_floats: &[f32] = &[0.0, 0.0, 0.0, 0.0, 1.0, 0.0, 0.0, 0.0, 1.0, 0.0, 0.0, 1.0];
    for _ in 0..2 {
        for f in vertex_floats {
            data.extend_from_slice(&f.to_le_bytes());
        }
    }
    data.extend_from_slice(&0u32.to_le_bytes());
    data.extend_from_slice(&1u32.to_le_bytes());
    data.extend_from_slice(&0u32.to_le_bytes());

    let result = guess_vertex_count(&data, 12);
    assert_eq!(result, 2);
}

#[test]
fn guess_vertex_count_falls_back_to_whole_vertices() {
    assert_eq!(guess_vertex_count(&[0u8; 100], 12), 2);
    assert_eq!(guess_vertex_count(&[], 12), 0);
}

fn vertex_bytes(n: usize) -> Vec<u8> {
    let mut d = Vec::new();
    for i in 0..n * 12 {
        d.extend_from_slice(&(i as f32).to_le_bytes());
    }
    d
}

#[test]
fn parse_with_metadata_reads_exact_counts() {
    let mut data = vertex_bytes(3);
    for i in [0u32, 1, 2] {
        data.extend_from_slice(&i.to_le_bytes());
    }
    let meta = PieMeshMetadata { name: "tri".to_string(), vertex_count: 3, index_count: 3, vertex_stride: 12 };
    let mesh = parse_pie_mesh_data(&meta, &data, MaterialHandle::new(0), "tri.bin").unwrap();
    assert_eq!(mesh.name, "tri");
    assert_eq!(mesh.vertices.len(), 3);
    assert_eq!(mesh.indices, vec![0, 1, 2]);
    assert_eq!(f32::from_bits(mesh.vertices[1].position[0]), 12.0);
    assert_eq!(f32::from_bits(mesh.vertices[2].tangent[3]), 35.0);
}

#[test]
fn parse_with_metadata_reports_truncation() {
    let meta = PieMeshMetadata { name: "m".to_string(), vertex_count: 2, index_count: 3, vertex_stride: 12 };
    let err = parse_pie_mesh_data(&meta, &[0u8; 10], MaterialHandle::new(0), "m.bin").unwrap_err();
    assert_eq!(
        err,
        AssetError::Io {
            path: "m.bin".to_string(),
            message: "pie_mesh data truncated: expected 108 bytes (2 vertices + 3 indices), got 10".to_string()
        }
    );
}

#[test]
fn parse_without_metadata_guesses_the_split() {
    let mut data = vertex_bytes(2);
    for i in [0u32, 1, 0] {
        data.extend_from_slice(&i.to_le_bytes());
    }
    let meta = PieMeshMetadata::inferred("g".to_string());
    let mesh = parse_pie_mesh_data(&meta, &data, MaterialHandle::new(1), "g.bin").unwrap();
    assert_eq!(mesh.vertices.len(), 2);
    assert_eq!(mesh.indices, vec![0, 1, 0]);
    let err = parse_pie_mesh_data(&meta, &[0u8; 50], MaterialHandle::new(1), "g.bin").unwrap_err();
    assert_eq!(err.to_string(), "failed to read asset at g.bin: pie_mesh: cannot determine vertex/index boundary from data");
}

#[test]
fn metadata_from_json_reads_fields_and_defaults() {
    let m = PieMeshMetadata::from_json(r#"{"name":"sphere","vertex_count":10,"index_count":30}"#, Some("stem")).unwrap();
    assert_eq!(m, PieMeshMetadata { name: "sphere".to_string(), vertex_count: 10, index_count: 30, vertex_stride: 12 });
    let m = PieMeshMetadata::from_json(r#"{"vertex_count":-1,"vertex_stride":8}"#, Some("stem")).unwrap();
    assert_eq!(m, PieMeshMetadata { name: "stem".to_string(), vertex_count: 0, index_count: 0, vertex_stride: 8 });
    let m = PieMeshMetadata::from_json("{}", None).unwrap();
    assert_eq!(m.name, "mesh");
    assert!(PieMeshMetadata::from_json("{not json", Some("s")).is_err());
}

#[test]
fn metadata_from_fields_applies_fallbacks() {
    let fields = JsonMetadataFields { name: None, vertex_count: Some(4), index_count: None, vertex_stride: None };
    let m = PieMeshMetadata::from_fields(fields, Some("cube"));
    assert_eq!(m, PieMeshMetadata { name: "cube".to_string(), vertex_count: 4, index_count: 0, vertex_stride: 12 });
    let fields = JsonMetadataFields {
        name: Some("named".to_string()),
        vertex_count: None,
        index_count: Some(6),
        vertex_stride: Some(32),
    };
    let m = PieMeshMetadata::from_fields(fields, None);
    assert_eq!(m, PieMeshMetadata { name: "named".to_string(), vertex_count: 0, index_count: 6, vertex_stride: 32 });
    let fields = JsonMetadataFields { name: None, vertex_count: None, index_count: None, vertex_stride: None };
    assert_eq!(PieMeshMetadata::from_fields(fields, None).name, "mesh");
}
