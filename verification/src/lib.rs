pub mod bytes;
pub mod net;
pub mod profiling;
pub mod text;
pub mod pak;
pub mod assets;
pub mod pak_loader;
pub mod cooker;
pub mod pipeline;
pub mod runtime;
pub mod fbx;
pub mod pie_mesh;
pub mod components;
pub mod loop_runner;
pub mod shader;
pub mod editor;
pub mod gltf_scene;
pub mod frame_alloc;
pub mod dock;
pub mod float_bits;
pub mod sample_scene;
