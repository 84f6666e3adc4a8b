use pie_runtime::assets::{
    texture_from_decoded, texture_from_encoded, texture_from_rgba, AssetError, AssetRegistry, MaterialAsset, MaterialHandle, MeshAsset, MeshHandle, MeshVertex,
    TextureAsset, F32_ONE_BITS,
};
use pie_runtime::shader::shader_asset_path;

#[test]
fn texture_from_rgba_rejects_invalid_buffers() {
    let error = texture_from_rgba("bad", 2, 2, vec![255; 3]).expect_err("invalid buffer");

    assert!(error.to_string().contains("texture"));
}

#[test]
fn shader_asset_path_uses_assets_root_and_wgsl_extension() {
    let path = shader_asset_path("assets", "textured_mesh");

    assert_eq!(path, "assets/shaders/textured_mesh.wgsl");
}

#[test]
fn shader_asset_path_joins_like_paths() {
    assert_eq!(shader_asset_path("assets/", "a"), "assets/shaders/a.wgsl");
    assert_eq!(shader_asset_path("", "a"), "shaders/a.wgsl");
    assert_eq!(shader_asset_path("assets", "/abs/a"), "/abs/a.wgsl");
}

#[test]
fn texture_from_rgba_accepts_matching_buffer() {
    let t = texture_from_rgba(String::from("ok"), 2, 1, vec![1, 2, 3, 4, 5, 6, 7, 8]).unwrap();
    assert_eq!(t.name, "ok");
    assert_eq!((t.width, t.height), (2, 1));
    assert_eq!(t.rgba.len(), 8);
    let e = texture_from_rgba("zero", 0, 4, vec![]).unwrap_err();
    assert_eq!(
        e,
        AssetError::Image {
            path: "memory".to_string(),
            message: "texture dimensions must be non-zero".to_string()
        }
    );
}

fn one_vertex() -> MeshVertex {
    MeshVertex { position: [0; 3], normal: [0; 3], uv: [0; 2], tangent: [0; 4] }
}

#[test]
fn registry_hands_out_handles_in_insertion_order() {
    let mut reg = AssetRegistry::new();
    let m0 = reg.insert_material(MaterialAsset::pbr("a".to_string(), [F32_ONE_BITS; 4], 0, F32_ONE_BITS));
    let m1 = reg.insert_material(MaterialAsset::unlit("b".to_string(), [0; 4]));
    assert_eq!(m0.index(), 0);
    assert_eq!(m1.index(), 1);
    let t = reg
        .insert_texture(TextureAsset { name: "t".to_string(), width: 1, height: 1, rgba: vec![0; 4] })
        .unwrap();
    assert_eq!(reg.texture(t).unwrap().name, "t");
    let mesh = MeshAsset { name: "m".to_string(), vertices: vec![one_vertex()], indices: vec![0], material: m1 };
    let h = reg.insert_mesh(mesh).unwrap();
    assert_eq!(reg.mesh(h).unwrap().material, m1);
    assert_eq!(reg.material(m1).unwrap().name, "b");
    assert_eq!(reg.meshes().len(), 1);
    assert_eq!(reg.materials().len(), 2);
    assert_eq!(reg.textures().len(), 1);
}

#[test]
fn registry_rejects_unknown_and_invalid_handles() {
    let reg = AssetRegistry::new();
    let err = reg.mesh(MeshHandle::new(3)).unwrap_err();
    assert_eq!(err.to_string(), "invalid mesh handle with index 3");
    assert!(!MeshHandle::invalid().is_valid());
    assert!(MeshHandle::new(0).is_valid());
}

#[test]
fn registry_rejects_empty_mesh() {
    let mut reg = AssetRegistry::new();
    let m = reg.insert_material(MaterialAsset::unlit("b".to_string(), [0; 4]));
    let mesh = MeshAsset { name: "m".to_string(), vertices: vec![], indices: vec![0], material: m };
    assert!(reg.insert_mesh(mesh).is_err());
    assert_eq!(reg.meshes().len(), 0);
}

#[test]
fn asset_error_messages() {
    assert_eq!(AssetError::io("a.pak", "boom").to_string(), "failed to read asset at a.pak: boom");
    assert_eq!(AssetError::shader("s.wgsl", "x").to_string(), "failed to load shader at s.wgsl: x");
    assert_eq!(AssetError::MissingScene.to_string(), "glTF file did not contain a default scene");
}

#[test]
fn registry_stores_and_resolves_assets_by_handle() {
    let mut registry = AssetRegistry::new();

    let material = registry.insert_material(MaterialAsset::unlit(
        "default".to_string(),
        [1.0f32.to_bits(), 1.0f32.to_bits(), 1.0f32.to_bits(), 1.0f32.to_bits()],
    ));
    let mesh = registry
        .insert_mesh(MeshAsset {
            name: "cube".to_string(),
            vertices: vec![MeshVertex {
                position: [0.0f32.to_bits(), 0.0f32.to_bits(), 0.0f32.to_bits()],
                normal: [0.0f32.to_bits(), 1.0f32.to_bits(), 0.0f32.to_bits()],
                uv: [0.0f32.to_bits(), 0.0f32.to_bits()],
                tangent: [1.0f32.to_bits(), 0.0f32.to_bits(), 0.0f32.to_bits(), 1.0f32.to_bits()],
            }],
            indices: vec![0],
            material,
        })
        .expect("mesh should be valid");
    let texture = registry
        .insert_texture(TextureAsset {
            name: "albedo".to_string(),
            width: 1,
            height: 1,
            rgba: vec![255, 128, 64, 255],
        })
        .expect("texture should be valid");

    assert_eq!(registry.mesh(mesh).expect("mesh").name, "cube");
    assert_eq!(registry.texture(texture).expect("texture").width, 1);
    assert_eq!(registry.material(material).expect("material").name, "default");
}

fn vertex_at(position: [f32; 3]) -> MeshVertex {
    MeshVertex {
        position: [position[0].to_bits(), position[1].to_bits(), position[2].to_bits()],
        normal: [0.0f32.to_bits(), 1.0f32.to_bits(), 0.0f32.to_bits()],
        uv: [0.0f32.to_bits(), 0.0f32.to_bits()],
        tangent: [1.0f32.to_bits(), 0.0f32.to_bits(), 0.0f32.to_bits(), 1.0f32.to_bits()],
    }
}

fn floats(v: [u32; 3]) -> [f32; 3] {
    [f32::from_bits(v[0]), f32::from_bits(v[1]), f32::from_bits(v[2])]
}

#[test]
fn local_aabb_returns_min_max_over_all_vertices() {
    let mesh = MeshAsset {
        name: "test".to_string(),
        vertices: vec![vertex_at([-1.0, -2.0, -3.0]), vertex_at([1.0, 5.0, 2.0]), vertex_at([0.0, 0.0, 0.0])],
        indices: vec![0, 1, 2],
        material: MaterialHandle::new(0),
    };

    let (min, max) = mesh.local_aabb().expect("non-empty mesh has bounds");

    assert_eq!(floats(min), [-1.0, -2.0, -3.0]);
    assert_eq!(floats(max), [1.0, 5.0, 2.0]);
}

#[test]
fn local_aabb_is_none_for_empty_mesh() {
    let mesh = MeshAsset {
        name: "empty".to_string(),
        vertices: Vec::new(),
        indices: vec![0],
        material: MaterialHandle::new(0),
    };

    assert!(mesh.local_aabb().is_none());
}

#[test]
fn local_aabb_collapses_to_point_for_degenerate_mesh() {
    let mesh = MeshAsset {
        name: "point".to_string(),
        vertices: vec![vertex_at([2.0, 2.0, 2.0]); 3],
        indices: vec![0, 1, 2],
        material: MaterialHandle::new(0),
    };

    let (min, max) = mesh.local_aabb().expect("point mesh has bounds");

    assert_eq!(floats(min), [2.0, 2.0, 2.0]);
    assert_eq!(floats(max), [2.0, 2.0, 2.0]);
}

#[test]
fn local_aabb_orders_zeros_and_infinities_like_f32() {
    let mesh = MeshAsset {
        name: "edges".to_string(),
        vertices: vec![
            vertex_at([-0.0, f32::NAN, 3.0]),
            vertex_at([0.0, 1.0, f32::NEG_INFINITY]),
            vertex_at([-7.5, 2.0, 1.0e30]),
        ],
        indices: vec![0],
        material: MaterialHandle::new(0),
    };
    let (min, max) = mesh.local_aabb().unwrap();
    assert_eq!(floats(min)[0], -7.5);
    assert_eq!(floats(min)[1], 1.0);
    assert_eq!(floats(min)[2], f32::NEG_INFINITY);
    assert_eq!(max[0], 0.0f32.to_bits());
    assert_eq!(floats(max)[1], 2.0);
    assert_eq!(floats(max)[2], 1.0e30);

    let infinite = MeshAsset {
        name: "far".to_string(),
        vertices: vec![vertex_at([f32::INFINITY, 0.0, 0.0])],
        indices: vec![0],
        material: MaterialHandle::new(0),
    };
    assert!(infinite.local_aabb().is_none());
}

fn png_bytes() -> Vec<u8> {
    let image = image::RgbaImage::from_raw(2, 1, vec![255, 0, 0, 255, 0, 255, 0, 128]).unwrap();
    let mut out = std::io::Cursor::new(Vec::new());
    image.write_to(&mut out, image::ImageFormat::Png).unwrap();
    out.into_inner()
}

#[test]
fn texture_from_encoded_decodes_png_by_extension() {
    let t = texture_from_encoded(&png_bytes(), Some("png"), Some("albedo"), "albedo.png").unwrap();
    assert_eq!(t.name, "albedo");
    assert_eq!((t.width, t.height), (2, 1));
    assert_eq!(t.rgba, vec![255, 0, 0, 255, 0, 255, 0, 128]);
    let t = texture_from_encoded(&png_bytes(), Some("PNG"), None, "x").unwrap();
    assert_eq!(t.name, "texture");
}

#[test]
fn texture_from_encoded_reports_decoder_errors_at_path() {
    let e = texture_from_encoded(&png_bytes(), Some("xyz"), Some("a"), "a.xyz").unwrap_err();
    assert_eq!(
        e,
        AssetError::Image {
            path: "a.xyz".to_string(),
            message: "The file extension `.\"xyz\"` was not recognized as an image format".to_string()
        }
    );
    let e = texture_from_encoded(&png_bytes(), None, Some("a"), "a").unwrap_err();
    assert_eq!(e.to_string(), "failed to load texture at a: The image format could not be determined");
    let e = texture_from_encoded(&[1, 2, 3], Some("png"), Some("a"), "a.png").unwrap_err();
    assert!(matches!(e, AssetError::Image { ref path, .. } if path == "a.png"));
}

#[test]
fn texture_from_decoded_names_and_wraps() {
    let t = texture_from_decoded(Ok((1, 1, vec![1, 2, 3, 4])), Some("s"), "p").unwrap();
    assert_eq!((t.name.as_str(), t.width, t.height, t.rgba.clone()), ("s", 1, 1, vec![1, 2, 3, 4]));
    let e = texture_from_decoded(Err("bad".to_string()), None, "p").unwrap_err();
    assert_eq!(e, AssetError::Image { path: "p".to_string(), message: "bad".to_string() });
}
