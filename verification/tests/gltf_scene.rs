use pie_runtime::assets::{AssetError, AssetRegistry, F32_ONE_BITS};
use pie_runtime::gltf_scene::{
    import_gltf_document, GltfDocument, GltfImage, GltfMaterial, GltfMesh, GltfNode, GltfPrimitive,
};

fn node(name: Option<&str>, mesh: Option<usize>, camera: bool, children: Vec<GltfNode>) -> GltfNode {
    GltfNode {
        name: name.map(|s| s.to_string()),
        translation: [0; 3],
        rotation: [0, 0, 0, F32_ONE_BITS],
        scale: [F32_ONE_BITS; 3],
        mesh,
        has_camera: camera,
        children,
    }
}

fn triangle(material: Option<usize>, indices: Option<Vec<u32>>) -> GltfPrimitive {
    GltfPrimitive {
        positions: Some(vec![[0; 3], [F32_ONE_BITS, 0, 0], [0, F32_ONE_BITS, 0]]),
        normals: None,
        uvs: None,
        tangents: None,
        indices,
        material,
    }
}

fn sample_document() -> GltfDocument {
    GltfDocument {
        images: vec![GltfImage { width: 1, height: 1, pixels: vec![255, 0, 0, 255] }],
        materials: vec![
            GltfMaterial {
                name: Some("red".to_string()),
                base_color_image: Some(0),
                normal_image: Some(7),
                base_color_factor_bits: [F32_ONE_BITS; 4],
                metallic_bits: 0,
                roughness_bits: F32_ONE_BITS,
            },
            GltfMaterial {
                name: None,
                base_color_image: None,
                normal_image: None,
                base_color_factor_bits: [0; 4],
                metallic_bits: 0,
                roughness_bits: 0,
            },
        ],
        meshes: vec![
            GltfMesh { name: Some("tri".to_string()), primitives: vec![triangle(Some(0), None)] },
            GltfMesh {
                name: None,
                primitives: vec![
                    triangle(Some(5), Some(vec![0, 2, 1])),
                    triangle(None, Some(vec![])),
                    triangle(Some(1), Some(vec![2, 1, 0])),
                ],
            },
        ],
        scene: Some(vec![
            node(Some("root"), Some(1), false, vec![node(None, Some(0), true, vec![]), node(None, Some(9), false, vec![])]),
            node(Some("cam"), None, true, vec![]),
        ]),
    }
}

#[test]
fn import_registers_textures_materials_and_meshes() {
    let mut reg = AssetRegistry::new();
    let scene = import_gltf_document(sample_document(), "scene.gltf", &mut reg).unwrap();
    assert_eq!(reg.textures().len(), 1);
    assert_eq!(reg.textures()[0].name, "gltf_image_0");
    assert_eq!(reg.materials().len(), 3);
    assert_eq!(reg.materials()[0].name, "red");
    assert_eq!(reg.materials()[0].base_color_texture.map(|h| h.index()), Some(0));
    assert_eq!(reg.materials()[0].normal_texture, None);
    assert_eq!(reg.materials()[1].name, "material_1");
    assert_eq!(reg.materials()[2].name, "default");
    let names: Vec<&str> = reg.meshes().iter().map(|m| m.name.as_str()).collect();
    assert_eq!(names, vec!["tri", "mesh_1_prim0", "mesh_1_prim2"]);
    assert_eq!(reg.meshes()[0].indices, vec![0, 1, 2]);
    assert_eq!(reg.meshes()[1].indices, vec![0, 2, 1]);
    assert_eq!(reg.meshes()[1].material.index(), 2);
    assert_eq!(reg.meshes()[2].material.index(), 1);
    assert_eq!(reg.meshes()[0].vertices[0].normal, [0, F32_ONE_BITS, 0]);
    assert_eq!(reg.meshes()[0].vertices[1].tangent, [F32_ONE_BITS, 0, 0, F32_ONE_BITS]);

    assert_eq!(scene.path, "scene.gltf");
    let node_names: Vec<&str> = scene.nodes.iter().map(|n| n.name.as_str()).collect();
    assert_eq!(node_names, vec!["root", "node_1", "node_2", "cam"]);
    let meshes: Vec<Vec<u32>> = scene.nodes.iter().map(|n| n.mesh.iter().map(|h| h.index()).collect()).collect();
    assert_eq!(meshes, vec![vec![1, 2], vec![0], vec![], vec![]]);
    assert_eq!(scene.active_camera_index, Some(3));
}

#[test]
fn import_reports_bad_images_missing_positions_and_missing_scene() {
    let mut doc = sample_document();
    doc.images[0].pixels = vec![1, 2, 3];
    let mut reg = AssetRegistry::new();
    let err = import_gltf_document(doc, "s.gltf", &mut reg).err().unwrap();
    assert_eq!(err.to_string(), "failed to load texture at memory: texture pixel buffer length does not match dimensions");
    assert_eq!(reg.textures().len(), 0);

    let mut doc = sample_document();
    doc.meshes[1].primitives[0].positions = None;
    let mut reg = AssetRegistry::new();
    let err = import_gltf_document(doc, "s.gltf", &mut reg).err().unwrap();
    assert_eq!(err, AssetError::EmptyMesh { path: "s.gltf".to_string(), mesh_name: "mesh_1".to_string() });
    assert_eq!(reg.meshes().len(), 1);

    let mut doc = sample_document();
    doc.meshes[0].primitives[0].indices = Some(vec![]);
    let mut reg = AssetRegistry::new();
    let err = import_gltf_document(doc, "s.gltf", &mut reg).err().unwrap();
    assert_eq!(err.to_string(), "glTF mesh `tri` in s.gltf did not contain drawable geometry");

    let mut doc = sample_document();
    doc.scene = None;
    let mut reg = AssetRegistry::new();
    let err = import_gltf_document(doc, "s.gltf", &mut reg).err().unwrap();
    assert_eq!(err, AssetError::MissingScene);
    assert_eq!(reg.meshes().len(), 3);
}

#[test]
fn imported_node_meshes_resolve_in_registry() {
    let mut reg = AssetRegistry::new();
    let first = import_gltf_document(sample_document(), "a.gltf", &mut reg).unwrap();
    let second = import_gltf_document(sample_document(), "b.gltf", &mut reg).unwrap();
    assert_eq!(reg.meshes().len(), 6);
    for scene in [&first, &second] {
        for node in &scene.nodes {
            for handle in &node.mesh {
                assert!(reg.mesh(*handle).is_ok());
            }
        }
    }
    assert_eq!(second.nodes[0].mesh.iter().map(|h| h.index()).collect::<Vec<u32>>(), vec![4, 5]);
    assert_eq!(reg.mesh(second.nodes[1].mesh[0]).unwrap().name, "tri");
}
