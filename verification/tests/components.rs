use pie_runtime::assets::MeshHandle;
use pie_runtime::components::{ActiveCamera, MeshRenderer, Name};

#[test]
fn name_new_accepts_str_and_string() {
    assert_eq!(Name::new("camera"), Name("camera".to_string()));
    assert_eq!(Name::new(String::from("camera")), Name("camera".to_string()));
}

#[test]
fn active_camera_is_a_zero_sized_marker() {
    let _marker = ActiveCamera;
}

#[test]
fn mesh_renderer_refers_to_its_mesh() {
    let r = MeshRenderer { mesh: MeshHandle::new(4) };
    assert_eq!(r.mesh.index(), 4);
    assert_eq!(ActiveCamera::default(), ActiveCamera);
    assert_eq!(Name::default(), Name(String::new()));
}
