//! Turning an imported glTF document into registry assets and a node list.
//!
//! The document arrives as plain values (float data as IEEE-754 bit
//! patterns): decoded images, materials, meshes with their primitives'
//! attribute arrays, and the root nodes of the scene to show. Images become
//! textures, materials become materials (plus one default material), each
//! non-empty primitive becomes a mesh, and the scene's node tree is
//! flattened in pre-order.
use crate::assets::{
    texture_from_named_rgba, texture_problem, vertex_words, AssetError, AssetFault, AssetRegistry,
    MaterialAsset, MaterialHandle, MaterialView, MeshAsset, MeshHandle, MeshVertex, MeshView,
    TextureAsset, TextureHandle, TextureView, F32_ONE_BITS,
};
use crate::bytes::copy_vec;
use crate::text::{decimal, push_decimal, push_str};
use vstd::prelude::*;

verus! {

// ---------------------------------------------------------------------------
// The document
// ---------------------------------------------------------------------------

/// A decoded image of the document.
#[derive(Debug, Clone)]
pub struct GltfImage {
    pub width: u32,
    pub height: u32,
    pub pixels: Vec<u8>,
}

/// A material of the document; texture references are image indices.
#[derive(Debug, Clone)]
pub struct GltfMaterial {
    pub name: Option<String>,
    pub base_color_image: Option<usize>,
    pub normal_image: Option<usize>,
    pub base_color_factor_bits: [u32; 4],
    pub metallic_bits: u32,
    pub roughness_bits: u32,
}

/// One primitive of a mesh: its attribute arrays as read (absent ones
/// `None`), its index list if it has one, and its material index.
#[derive(Debug, Clone)]
pub struct GltfPrimitive {
    pub positions: Option<Vec<[u32; 3]>>,
    pub normals: Option<Vec<[u32; 3]>>,
    pub uvs: Option<Vec<[u32; 2]>>,
    pub tangents: Option<Vec<[u32; 4]>>,
    pub indices: Option<Vec<u32>>,
    pub material: Option<usize>,
}

/// A mesh of the document.
#[derive(Debug, Clone)]
pub struct GltfMesh {
    pub name: Option<String>,
    pub primitives: Vec<GltfPrimitive>,
}

/// A node of the scene tree: local transform (bit patterns), mesh index,
/// whether a camera is attached, and its children.
#[derive(Debug)]
pub struct GltfNode {
    pub name: Option<String>,
    pub translation: [u32; 3],
    pub rotation: [u32; 4],
    pub scale: [u32; 3],
    pub mesh: Option<usize>,
    pub has_camera: bool,
    pub children: Vec<GltfNode>,
}

/// An imported document: images, materials, meshes, and the root nodes of
/// its default scene (or of its first scene; `None` if it has none).
#[derive(Debug)]
pub struct GltfDocument {
    pub images: Vec<GltfImage>,
    pub materials: Vec<GltfMaterial>,
    pub meshes: Vec<GltfMesh>,
    pub scene: Option<Vec<GltfNode>>,
}

/// Every attribute a primitive has is at least as long as its positions.
pub open spec fn primitive_wf(p: GltfPrimitive) -> bool {
    match p.positions {
        None => true,
        Some(pos) => {
            &&& (p.normals matches Some(n) ==> n@.len() >= pos@.len())
            &&& (p.uvs matches Some(u) ==> u@.len() >= pos@.len())
            &&& (p.tangents matches Some(t) ==> t@.len() >= pos@.len())
        },
    }
}

pub open spec fn document_wf(doc: &GltfDocument) -> bool {
    forall|j: int, k: int|
        0 <= j < doc.meshes@.len() && 0 <= k < doc.meshes@[j].primitives@.len()
            ==> primitive_wf(#[trigger] doc.meshes@[j].primitives@[k])
}

// ---------------------------------------------------------------------------
// What the import gives
// ---------------------------------------------------------------------------

/// A node of the imported scene: name, transform bit patterns, and the
/// meshes (one per primitive) it draws.
#[derive(Debug, Clone, PartialEq, Eq)]
pub struct ImportedNode {
    pub name: String,
    pub translation: [u32; 3],
    pub rotation: [u32; 4],
    pub scale: [u32; 3],
    pub mesh: Vec<MeshHandle>,
}

/// The imported scene: the file it came from, its nodes in pre-order, and
/// the index of the last node carrying a camera.
#[derive(Debug, Clone, PartialEq, Eq)]
pub struct ImportedScene {
    pub path: String,
    pub nodes: Vec<ImportedNode>,
    pub active_camera_index: Option<usize>,
}

pub type NodeView = (Seq<char>, [u32; 3], [u32; 4], [u32; 3], Seq<MeshHandle>);

pub type SceneView = (Seq<char>, Seq<NodeView>, Option<usize>);

pub open spec fn node_view(n: ImportedNode) -> NodeView {
    (n.name@, n.translation, n.rotation, n.scale, n.mesh@)
}

pub open spec fn scene_view(s: ImportedScene) -> SceneView {
    (s.path@, s.nodes@.map_values(|n: ImportedNode| node_view(n)), s.active_camera_index)
}

pub type RegistryView = (Seq<MeshView>, Seq<TextureView>, Seq<MaterialView>);

/// The given name, or the fallback when there is none.
pub open spec fn name_or(name: Option<String>, fallback: Seq<char>) -> Seq<char> {
    match name {
        Some(n) => n@,
        None => fallback,
    }
}

/// The handle a registry list of `len` entries gives its next entry.
pub open spec fn next_index(len: int) -> u32 {
    (len % 0x1_0000_0000) as u32
}

// ---------------------------------------------------------------------------
// Textures
// ---------------------------------------------------------------------------

/// The textures of images `i..` appended to `acc`, named `gltf_image_<i>`;
/// the first image whose pixels do not match its size stops the import.
pub open spec fn load_images(images: Seq<GltfImage>, i: nat, acc: Seq<TextureView>) -> (
    Seq<TextureView>,
    Option<AssetFault>,
)
    decreases images.len() - i,
{
    if i >= images.len() {
        (acc, None)
    } else {
        let im = images[i as int];
        match texture_problem(im.width, im.height, im.pixels@.len()) {
            Some(m) => (acc, Some(AssetFault::Image("memory"@, m))),
            None => load_images(
                images,
                i + 1,
                acc.push(("gltf_image_"@ + decimal(i), im.width, im.height, im.pixels@)),
            ),
        }
    }
}

fn indexed_name(prefix: &str, i: usize) -> (r: String)
    ensures
        r@ == prefix@ + decimal(i as nat),
{
    let mut s = String::new();
    push_str(&mut s, prefix);
    push_decimal(&mut s, i as u64);
    s
}

/// Loads the images as textures; gives their handles, in image order.
fn load_textures(images: Vec<GltfImage>, registry: &mut AssetRegistry) -> (r: Result<
    Vec<TextureHandle>,
    AssetError,
>)
    requires
        old(registry).wf(),
    ensures
        final(registry).wf(),
        final(registry).spec_view().0 == old(registry).spec_view().0,
        final(registry).spec_view().2 == old(registry).spec_view().2,
        final(registry).spec_view().1 == load_images(images@, 0, old(registry).spec_view().1).0,
        match load_images(images@, 0, old(registry).spec_view().1).1 {
            Some(e) => r matches Err(x) && x@ == e,
            None => r matches Ok(hs) && hs@.len() == images@.len() && forall|k: int|
                0 <= k < hs@.len() ==> (#[trigger] hs@[k]).spec_index() == next_index(
                    old(registry).spec_view().1.len() + k,
                ),
        },
{
    let ghost imgs = images@;
    let ghost base = old(registry).spec_view().1.len();
    let mut handles: Vec<TextureHandle> = Vec::new();
    let n = images.len();
    let mut pending = images;
    let mut i: usize = 0;
    assert(imgs.skip(0) =~= imgs);
    while pending.len() > 0
        invariant
            imgs == images@,
            n == imgs.len(),
            registry.wf(),
            i + pending@.len() == imgs.len(),
            pending@ == imgs.skip(i as int),
            registry.spec_view().0 == old(registry).spec_view().0,
            registry.spec_view().2 == old(registry).spec_view().2,
            load_images(imgs, 0, old(registry).spec_view().1) == load_images(
                imgs,
                i as nat,
                registry.spec_view().1,
            ),
            registry.spec_view().1.len() == base + i,
            handles@.len() == i,
            forall|k: int|
                0 <= k < i ==> (#[trigger] handles@[k]).spec_index() == next_index(base + k),
        decreases pending@.len(),
    {
        let im = pending.remove(0);
        assert(im == imgs[i as int]);
        assert(pending@ =~= imgs.skip(i + 1));
        let name = indexed_name("gltf_image_", i);
        proof {
            reveal_strlit("gltf_image_");
        }
        let GltfImage { width, height, pixels } = im;
        let ghost problem = texture_problem(width, height, pixels@.len());
        let t = match texture_from_named_rgba(name, width, height, pixels) {
            Ok(t) => t,
            Err(e) => {
                assert(problem is Some);
                assert(load_images(imgs, i as nat, registry.spec_view().1) == (
                    registry.spec_view().1,
                    Some(AssetFault::Image("memory"@, problem->0)),
                ));
                assert(load_images(imgs, 0, old(registry).spec_view().1).0 == registry.spec_view().1);
                assert(e@ == AssetFault::Image("memory"@, problem->0));
                return Err(e);
            },
        };
        let ghost before = registry.spec_view().1;
        let ghost tv = t@;
        assert(texture_problem(t.width, t.height, t.rgba@.len()) is None);
        let h = match registry.insert_texture(t) {
            Ok(h) => h,
            Err(e) => {
                return Err(e);
            },
        };
        assert(registry.spec_view().1 =~= before.push(tv));
        handles.push(h);
        i = i + 1;
    }
    Ok(handles)
}

// ---------------------------------------------------------------------------
// Materials
// ---------------------------------------------------------------------------

/// The texture an image reference resolves to, given that the document's
/// `count` images became textures from registry index `base` on.
pub open spec fn texture_for(image: Option<usize>, base: nat, count: nat) -> Option<TextureHandle> {
    match image {
        Some(k) => if k < count {
            Some(TextureHandle::spec_new(next_index(base + k as int)))
        } else {
            None
        },
        None => None,
    }
}

/// The material the `i`-th document material becomes, named
/// `material_<i>` when it has no name.
pub open spec fn material_view(m: GltfMaterial, i: nat, base: nat, count: nat) -> MaterialView {
    (
        name_or(m.name, "material_"@ + decimal(i)),
        texture_for(m.base_color_image, base, count),
        texture_for(m.normal_image, base, count),
        m.base_color_factor_bits@,
        m.metallic_bits,
        m.roughness_bits,
    )
}

pub open spec fn materials_views(ms: Seq<GltfMaterial>, base: nat, count: nat) -> Seq<MaterialView> {
    Seq::new(ms.len(), |i: int| material_view(ms[i], i as nat, base, count))
}

/// The material primitives without a (loaded) material get: white,
/// metallic 0, roughness 1.
pub open spec fn default_material_view() -> MaterialView {
    ("default"@, None, None, seq![F32_ONE_BITS, F32_ONE_BITS, F32_ONE_BITS, F32_ONE_BITS], 0, F32_ONE_BITS)
}

fn resolve_texture(image: Option<usize>, textures: &Vec<TextureHandle>) -> (r: Option<TextureHandle>)
    ensures
        r == match image {
            Some(k) => if k < textures@.len() {
                Some(textures@[k as int])
            } else {
                None
            },
            None => None,
        },
{
    match image {
        Some(k) => {
            if k < textures.len() {
                Some(textures[k])
            } else {
                None
            }
        },
        None => None,
    }
}

/// Registers the document's materials; gives their handles in order.
fn load_materials(
    materials: Vec<GltfMaterial>,
    textures: &Vec<TextureHandle>,
    Ghost(tbase): Ghost<nat>,
    registry: &mut AssetRegistry,
) -> (r: Vec<MaterialHandle>)
    requires
        old(registry).wf(),
        forall|k: int|
            0 <= k < textures@.len() ==> (#[trigger] textures@[k]).spec_index() == next_index(
                tbase + k,
            ),
    ensures
        final(registry).wf(),
        final(registry).spec_view().0 == old(registry).spec_view().0,
        final(registry).spec_view().1 == old(registry).spec_view().1,
        final(registry).spec_view().2 == old(registry).spec_view().2 + materials_views(
            materials@,
            tbase,
            textures@.len(),
        ),
        r@.len() == materials@.len(),
        forall|k: int|
            0 <= k < r@.len() ==> (#[trigger] r@[k]).spec_index() == next_index(
                old(registry).spec_view().2.len() + k,
            ),
{
    let ghost ms = materials@;
    let ghost base = old(registry).spec_view().2.len();
    let ghost target = materials_views(ms, tbase, textures@.len());
    let n = materials.len();
    let mut pending = materials;
    let mut handles: Vec<MaterialHandle> = Vec::new();
    let mut i: usize = 0;
    assert(ms.skip(0) =~= ms);
    assert(old(registry).spec_view().2 + target.take(0) =~= old(registry).spec_view().2);
    while pending.len() > 0
        invariant
            ms == materials@,
            n == ms.len(),
            target == materials_views(ms, tbase, textures@.len()),
            forall|k: int|
                0 <= k < textures@.len() ==> (#[trigger] textures@[k]).spec_index() == next_index(
                    tbase + k,
                ),
            registry.wf(),
            i + pending@.len() == n,
            pending@ == ms.skip(i as int),
            registry.spec_view().0 == old(registry).spec_view().0,
            registry.spec_view().1 == old(registry).spec_view().1,
            registry.spec_view().2 == old(registry).spec_view().2 + target.take(i as int),
            base == old(registry).spec_view().2.len(),
            handles@.len() == i,
            forall|k: int|
                0 <= k < i ==> (#[trigger] handles@[k]).spec_index() == next_index(base + k),
        decreases pending@.len(),
    {
        let m = pending.remove(0);
        assert(m == ms[i as int]);
        assert(pending@ =~= ms.skip(i + 1));
        let GltfMaterial {
            name,
            base_color_image,
            normal_image,
            base_color_factor_bits,
            metallic_bits,
            roughness_bits,
        } = m;
        let name = match name {
            Some(n) => n,
            None => {
                proof {
                    reveal_strlit("material_");
                }
                indexed_name("material_", i)
            },
        };
        let base_color_texture = resolve_texture(base_color_image, textures);
        let normal_texture = resolve_texture(normal_image, textures);
        proof {
            if let Some(k) = base_color_image {
                if k < textures@.len() {
                    textures@[k as int].lemma_spec_new_of_index();
                }
            }
            if let Some(k) = normal_image {
                if k < textures@.len() {
                    textures@[k as int].lemma_spec_new_of_index();
                }
            }
        }
        let material = MaterialAsset {
            name,
            base_color_texture,
            normal_texture,
            base_color_factor_bits,
            metallic_factor_bits: metallic_bits,
            roughness_factor_bits: roughness_bits,
        };
        assert(material@ == target[i as int]);
        let ghost before = registry.spec_view().2;
        let h = registry.insert_material(material);
        assert(registry.spec_view().2 =~= before.push(target[i as int]));
        assert(target.take(i + 1) =~= target.take(i as int).push(target[i as int]));
        handles.push(h);
        i = i + 1;
    }
    assert(target.take(n as int) =~= target);
    handles
}

// ---------------------------------------------------------------------------
// Meshes
// ---------------------------------------------------------------------------

/// Attribute values used where a primitive lacks the attribute: normal
/// +Y, uv (0, 0), tangent +X with handedness 1.
pub open spec fn default_normal() -> [u32; 3] {
    [0u32, F32_ONE_BITS, 0u32]
}

pub open spec fn default_uv() -> [u32; 2] {
    [0u32, 0u32]
}

pub open spec fn default_tangent() -> [u32; 4] {
    [F32_ONE_BITS, 0u32, 0u32, F32_ONE_BITS]
}

/// The words of vertex `i` of a primitive with positions `pos`.
pub open spec fn prim_vertex(p: GltfPrimitive, pos: Seq<[u32; 3]>, i: int) -> Seq<u32> {
    vertex_words(
        MeshVertex {
            position: pos[i],
            normal: match p.normals {
                Some(n) => n@[i],
                None => default_normal(),
            },
            uv: match p.uvs {
                Some(u) => u@[i],
                None => default_uv(),
            },
            tangent: match p.tangents {
                Some(t) => t@[i],
                None => default_tangent(),
            },
        },
    )
}

pub open spec fn prim_vertices(p: GltfPrimitive, pos: Seq<[u32; 3]>) -> Seq<Seq<u32>> {
    Seq::new(pos.len(), |i: int| prim_vertex(p, pos, i))
}

/// The primitive's indices, or `0, 1, ...` over its vertices (the count
/// taken as a `u32`) when it has none.
pub open spec fn prim_indices(p: GltfPrimitive, vertex_count: nat) -> Seq<u32> {
    match p.indices {
        Some(ix) => ix@,
        None => Seq::new(next_index(vertex_count as int) as nat, |i: int| i as u32),
    }
}

/// The material of a primitive: its own when that was loaded, else the
/// default material registered right after the document's materials.
pub open spec fn prim_material(m: Option<usize>, base: nat, count: nat) -> MaterialHandle {
    match m {
        Some(k) => if k < count {
            MaterialHandle::spec_new(next_index(base + k as int))
        } else {
            MaterialHandle::spec_new(next_index((base + count) as int))
        },
        None => MaterialHandle::spec_new(next_index((base + count) as int)),
    }
}

/// The mesh name of primitive `k` out of `count`.
pub open spec fn prim_name(mesh_name: Seq<char>, k: nat, count: nat) -> Seq<char> {
    if count > 1 {
        mesh_name + "_prim"@ + decimal(k)
    } else {
        mesh_name
    }
}

/// Registers primitives `k..` of a mesh onto the registry's meshes `acc`,
/// collecting their handles in `hs`. A primitive without positions fails
/// the import; one without vertices or indices is skipped.
pub open spec fn load_prims(
    prims: Seq<GltfPrimitive>,
    mesh_name: Seq<char>,
    k: nat,
    acc: Seq<MeshView>,
    hs: Seq<MeshHandle>,
    path: Seq<char>,
    mbase: nat,
    mcount: nat,
) -> (Seq<MeshView>, Result<Seq<MeshHandle>, AssetFault>)
    decreases prims.len() - k,
{
    if k >= prims.len() {
        (acc, Ok(hs))
    } else {
        let p = prims[k as int];
        match p.positions {
            None => (acc, Err(AssetFault::EmptyMesh(path, mesh_name))),
            Some(pos) => {
                let vs = prim_vertices(p, pos@);
                let ix = prim_indices(p, pos@.len());
                if vs.len() == 0 || ix.len() == 0 {
                    load_prims(prims, mesh_name, k + 1, acc, hs, path, mbase, mcount)
                } else {
                    let mv = (
                        prim_name(mesh_name, k, prims.len()),
                        vs,
                        ix,
                        prim_material(p.material, mbase, mcount),
                    );
                    load_prims(
                        prims,
                        mesh_name,
                        k + 1,
                        acc.push(mv),
                        hs.push(MeshHandle::spec_new(next_index(acc.len() as int))),
                        path,
                        mbase,
                        mcount,
                    )
                }
            },
        }
    }
}

/// Registers meshes `j..` onto `acc`; each mesh must yield at least one
/// primitive mesh. Gives the handles of every mesh's primitives.
pub open spec fn load_meshes(
    meshes: Seq<GltfMesh>,
    j: nat,
    acc: Seq<MeshView>,
    handles: Seq<Seq<MeshHandle>>,
    path: Seq<char>,
    mbase: nat,
    mcount: nat,
) -> (Seq<MeshView>, Result<Seq<Seq<MeshHandle>>, AssetFault>)
    decreases meshes.len() - j,
{
    if j >= meshes.len() {
        (acc, Ok(handles))
    } else {
        let m = meshes[j as int];
        let name = name_or(m.name, "mesh_"@ + decimal(j));
        let (acc2, r) = load_prims(m.primitives@, name, 0, acc, Seq::empty(), path, mbase, mcount);
        match r {
            Err(e) => (acc2, Err(e)),
            Ok(hs) => if hs.len() == 0 {
                (acc2, Err(AssetFault::EmptyMesh(path, name)))
            } else {
                load_meshes(meshes, j + 1, acc2, handles.push(hs), path, mbase, mcount)
            },
        }
    }
}

fn build_vertices(p: &GltfPrimitive, pos: &Vec<[u32; 3]>) -> (r: Vec<MeshVertex>)
    requires
        p.positions == Some(*pos),
        primitive_wf(*p),
    ensures
        r@.map_values(|v: MeshVertex| vertex_words(v)) == prim_vertices(*p, pos@),
{
    let n = pos.len();
    let mut out: Vec<MeshVertex> = Vec::new();
    let mut i: usize = 0;
    while i < n
        invariant
            n == pos@.len(),
            p.positions == Some(*pos),
            primitive_wf(*p),
            i <= n,
            out@.map_values(|v: MeshVertex| vertex_words(v)) =~= prim_vertices(*p, pos@).take(
                i as int,
            ),
        decreases n - i,
    {
        let normal = match &p.normals {
            Some(v) => v[i],
            None => [0u32, F32_ONE_BITS, 0u32],
        };
        let uv = match &p.uvs {
            Some(v) => v[i],
            None => [0u32, 0u32],
        };
        let tangent = match &p.tangents {
            Some(v) => v[i],
            None => [F32_ONE_BITS, 0u32, 0u32, F32_ONE_BITS],
        };
        let v = MeshVertex { position: pos[i], normal, uv, tangent };
        assert(vertex_words(v) == prim_vertex(*p, pos@, i as int));
        let ghost before = out@;
        out.push(v);
        assert(out@.map_values(|v: MeshVertex| vertex_words(v)) =~= before.map_values(
            |v: MeshVertex| vertex_words(v),
        ).push(vertex_words(v)));
        i = i + 1;
    }
    out
}

fn sequential_indices(n: usize) -> (r: Vec<u32>)
    ensures
        r@ == Seq::new(next_index(n as int) as nat, |i: int| i as u32),
{
    let count: u32 = ((n as u64) % 0x1_0000_0000u64) as u32;
    let mut out: Vec<u32> = Vec::new();
    let mut i: u32 = 0;
    while i < count
        invariant
            count == next_index(n as int),
            i <= count,
            out@ =~= Seq::new(i as nat, |k: int| k as u32),
        decreases count - i,
    {
        out.push(i);
        i = i + 1;
    }
    out
}

pub open spec fn handles_result(r: Result<Vec<MeshHandle>, AssetError>) -> Result<
    Seq<MeshHandle>,
    AssetFault,
> {
    match r {
        Ok(v) => Ok(v@),
        Err(e) => Err(e@),
    }
}

/// Whether `materials` are the handles of the document's materials,
/// registered from index `mbase` on, with the default material after them.
pub open spec fn material_handles_are(
    materials: Seq<MaterialHandle>,
    default_material: MaterialHandle,
    mbase: nat,
) -> bool {
    &&& forall|k: int|
        0 <= k < materials.len() ==> (#[trigger] materials[k]).spec_index() == next_index(
            mbase + k,
        )
    &&& default_material == MaterialHandle::spec_new(next_index((mbase + materials.len()) as int))
}

fn material_of(
    m: Option<usize>,
    materials: &Vec<MaterialHandle>,
    default_material: MaterialHandle,
    Ghost(mbase): Ghost<nat>,
) -> (r: MaterialHandle)
    requires
        material_handles_are(materials@, default_material, mbase),
    ensures
        r == prim_material(m, mbase, materials@.len()),
{
    match m {
        Some(k) => {
            if k < materials.len() {
                proof {
                    materials@[k as int].lemma_spec_new_of_index();
                }
                materials[k]
            } else {
                default_material
            }
        },
        None => default_material,
    }
}

fn register_primitives(
    prims: Vec<GltfPrimitive>,
    mesh_name: &String,
    path: &str,
    materials: &Vec<MaterialHandle>,
    default_material: MaterialHandle,
    Ghost(mbase): Ghost<nat>,
    registry: &mut AssetRegistry,
) -> (r: Result<Vec<MeshHandle>, AssetError>)
    requires
        old(registry).wf(),
        forall|k: int| 0 <= k < prims@.len() ==> primitive_wf(#[trigger] prims@[k]),
        material_handles_are(materials@, default_material, mbase),
    ensures
        final(registry).wf(),
        final(registry).spec_view().1 == old(registry).spec_view().1,
        final(registry).spec_view().2 == old(registry).spec_view().2,
        (final(registry).spec_view().0, handles_result(r)) == load_prims(
            prims@,
            mesh_name@,
            0,
            old(registry).spec_view().0,
            Seq::empty(),
            path@,
            mbase,
            materials@.len(),
        ),
{
    let ghost ps = prims@;
    let ghost mcount = materials@.len();
    let count = prims.len();
    let mut pending = prims;
    let mut handles: Vec<MeshHandle> = Vec::new();
    let mut k: usize = 0;
    assert(ps.skip(0) =~= ps);
    while pending.len() > 0
        invariant
            ps == prims@,
            count == ps.len(),
            mcount == materials@.len(),
            forall|j: int| 0 <= j < ps.len() ==> primitive_wf(#[trigger] ps[j]),
            material_handles_are(materials@, default_material, mbase),
            registry.wf(),
            k + pending@.len() == count,
            pending@ == ps.skip(k as int),
            registry.spec_view().1 == old(registry).spec_view().1,
            registry.spec_view().2 == old(registry).spec_view().2,
            load_prims(ps, mesh_name@, 0, old(registry).spec_view().0, Seq::empty(), path@, mbase, mcount)
                == load_prims(
                ps,
                mesh_name@,
                k as nat,
                registry.spec_view().0,
                handles@,
                path@,
                mbase,
                mcount,
            ),
        decreases pending@.len(),
    {
        let p = pending.remove(0);
        assert(p == ps[k as int]);
        assert(pending@ =~= ps.skip(k + 1));
        let pos = match &p.positions {
            None => {
                return Err(AssetError::EmptyMesh { path: path.to_owned(), mesh_name: mesh_name.clone() });
            },
            Some(pos) => pos,
        };
        let vertices = build_vertices(&p, pos);
        let n = pos.len();
        let material = material_of(p.material, materials, default_material, Ghost(mbase));
        let GltfPrimitive { positions: _, normals: _, uvs: _, tangents: _, indices, material: _ } = p;
        let indices = match indices {
            Some(ix) => ix,
            None => sequential_indices(n),
        };
        if vertices.len() == 0 || indices.len() == 0 {
            k = k + 1;
        } else {
            let name = if count > 1 {
                let mut s = mesh_name.clone();
                push_str(&mut s, "_prim");
                push_decimal(&mut s, k as u64);
                proof {
                    reveal_strlit("_prim");
                }
                s
            } else {
                mesh_name.clone()
            };
            let mesh = MeshAsset { name, vertices, indices, material };
            let ghost mv = mesh@;
            let ghost before = registry.spec_view().0;
            assert(mesh.vertices@.len() > 0 && mesh.indices@.len() > 0);
            let h = match registry.insert_mesh(mesh) {
                Ok(h) => h,
                Err(e) => {
                    return Err(e);
                },
            };
            assert(registry.spec_view().0 =~= before.push(mv));
            proof {
                MeshHandle::lemma_spec_new(next_index(before.len() as int));
                h.lemma_spec_new_of_index();
            }
            handles.push(h);
            k = k + 1;
        }
    }
    Ok(handles)
}

pub open spec fn nested_view(v: Seq<Vec<MeshHandle>>) -> Seq<Seq<MeshHandle>> {
    v.map_values(|h: Vec<MeshHandle>| h@)
}

pub open spec fn meshes_result(r: Result<Vec<Vec<MeshHandle>>, AssetError>) -> Result<
    Seq<Seq<MeshHandle>>,
    AssetFault,
> {
    match r {
        Ok(v) => Ok(nested_view(v@)),
        Err(e) => Err(e@),
    }
}

fn register_meshes(
    meshes: Vec<GltfMesh>,
    path: &str,
    materials: &Vec<MaterialHandle>,
    default_material: MaterialHandle,
    Ghost(mbase): Ghost<nat>,
    registry: &mut AssetRegistry,
) -> (r: Result<Vec<Vec<MeshHandle>>, AssetError>)
    requires
        old(registry).wf(),
        forall|j: int, k: int|
            0 <= j < meshes@.len() && 0 <= k < meshes@[j].primitives@.len() ==> primitive_wf(
                #[trigger] meshes@[j].primitives@[k],
            ),
        material_handles_are(materials@, default_material, mbase),
    ensures
        final(registry).wf(),
        final(registry).spec_view().1 == old(registry).spec_view().1,
        final(registry).spec_view().2 == old(registry).spec_view().2,
        (final(registry).spec_view().0, meshes_result(r)) == load_meshes(
            meshes@,
            0,
            old(registry).spec_view().0,
            Seq::empty(),
            path@,
            mbase,
            materials@.len(),
        ),
{
    let ghost ms = meshes@;
    let ghost mcount = materials@.len();
    let count = meshes.len();
    let mut pending = meshes;
    let mut all: Vec<Vec<MeshHandle>> = Vec::new();
    let mut j: usize = 0;
    assert(ms.skip(0) =~= ms);
    assert(nested_view(all@) =~= Seq::<Seq<MeshHandle>>::empty());
    while pending.len() > 0
        invariant
            ms == meshes@,
            count == ms.len(),
            mcount == materials@.len(),
            forall|a: int, k: int|
                0 <= a < ms.len() && 0 <= k < ms[a].primitives@.len() ==> primitive_wf(
                    #[trigger] ms[a].primitives@[k],
                ),
            material_handles_are(materials@, default_material, mbase),
            registry.wf(),
            j + pending@.len() == count,
            pending@ == ms.skip(j as int),
            registry.spec_view().1 == old(registry).spec_view().1,
            registry.spec_view().2 == old(registry).spec_view().2,
            load_meshes(ms, 0, old(registry).spec_view().0, Seq::empty(), path@, mbase, mcount)
                == load_meshes(ms, j as nat, registry.spec_view().0, nested_view(all@), path@, mbase, mcount),
        decreases pending@.len(),
    {
        let m = pending.remove(0);
        assert(m == ms[j as int]);
        assert(pending@ =~= ms.skip(j + 1));
        let GltfMesh { name, primitives } = m;
        let name = match name {
            Some(n) => n,
            None => {
                proof {
                    reveal_strlit("mesh_");
                }
                indexed_name("mesh_", j)
            },
        };
        assert(forall|k: int| 0 <= k < primitives@.len() ==> primitive_wf(#[trigger] primitives@[k])) by {
            assert forall|k: int| 0 <= k < primitives@.len() implies primitive_wf(#[trigger] primitives@[k]) by {
                assert(primitives@[k] == ms[j as int].primitives@[k]);
            }
        }
        let hs = match register_primitives(primitives, &name, path, materials, default_material, Ghost(mbase), registry) {
            Ok(hs) => hs,
            Err(e) => {
                return Err(e);
            },
        };
        if hs.len() == 0 {
            return Err(AssetError::EmptyMesh { path: path.to_owned(), mesh_name: name });
        }
        let ghost before = nested_view(all@);
        let ghost hv = hs@;
        all.push(hs);
        assert(nested_view(all@) =~= before.push(hv));
        j = j + 1;
    }
    Ok(all)
}

// ---------------------------------------------------------------------------
// Nodes
// ---------------------------------------------------------------------------

/// The mesh handles of a node's mesh; none when it has no mesh or the index
/// is out of range.
pub open spec fn node_meshes(mesh: Option<usize>, handles: Seq<Seq<MeshHandle>>) -> Seq<MeshHandle> {
    match mesh {
        Some(k) => if k < handles.len() {
            handles[k as int]
        } else {
            Seq::empty()
        },
        None => Seq::empty(),
    }
}

/// Flattens the node trees `ns` in pre-order onto `out`, naming unnamed
/// nodes `node_<position>`; the last node with a camera becomes the active
/// camera.
pub open spec fn collect_nodes(
    ns: Seq<GltfNode>,
    handles: Seq<Seq<MeshHandle>>,
    out: Seq<NodeView>,
    cam: Option<usize>,
) -> (Seq<NodeView>, Option<usize>)
    decreases ns,
{
    if ns.len() == 0 {
        (out, cam)
    } else {
        let n = ns[0];
        let v = (
            name_or(n.name, "node_"@ + decimal(out.len())),
            n.translation,
            n.rotation,
            n.scale,
            node_meshes(n.mesh, handles),
        );
        let cam2 = if n.has_camera {
            Some(out.len() as usize)
        } else {
            cam
        };
        let (out2, cam3) = collect_nodes(n.children@, handles, out.push(v), cam2);
        collect_nodes(ns.drop_first(), handles, out2, cam3)
    }
}

pub open spec fn nodes_view(v: Seq<ImportedNode>) -> Seq<NodeView> {
    v.map_values(|n: ImportedNode| node_view(n))
}

fn collect_node_list(
    nodes: Vec<GltfNode>,
    handles: &Vec<Vec<MeshHandle>>,
    out: &mut Vec<ImportedNode>,
    cam: &mut Option<usize>,
)
    ensures
        (nodes_view(final(out)@), *final(cam)) == collect_nodes(
            nodes@,
            nested_view(handles@),
            nodes_view(old(out)@),
            *old(cam),
        ),
    decreases nodes@,
{
    let ghost ns = nodes@;
    let ghost hv = nested_view(handles@);
    let count = nodes.len();
    let mut pending = nodes;
    let mut i: usize = 0;
    assert(ns.skip(0) =~= ns);
    while pending.len() > 0
        invariant
            ns == nodes@,
            hv == nested_view(handles@),
            count == ns.len(),
            i + pending@.len() == count,
            pending@ == ns.skip(i as int),
            collect_nodes(ns, hv, nodes_view(old(out)@), *old(cam)) == collect_nodes(
                ns.skip(i as int),
                hv,
                nodes_view(out@),
                *cam,
            ),
        decreases pending@.len(),
    {
        let n = pending.remove(0);
        assert(n == ns[i as int]);
        assert(pending@ =~= ns.skip(i + 1));
        assert(ns.skip(i as int)[0] == n);
        assert(ns.skip(i as int).drop_first() =~= ns.skip(i + 1));
        let GltfNode { name, translation, rotation, scale, mesh, has_camera, children } = n;
        let position = out.len();
        let name = match name {
            Some(x) => x,
            None => {
                proof {
                    reveal_strlit("node_");
                }
                indexed_name("node_", position)
            },
        };
        let meshes = match mesh {
            Some(k) => {
                if k < handles.len() {
                    copy_vec(handles[k].as_slice())
                } else {
                    Vec::new()
                }
            },
            None => Vec::new(),
        };
        assert(meshes@ == node_meshes(mesh, hv));
        if has_camera {
            *cam = Some(position);
        }
        let imported = ImportedNode { name, translation, rotation, scale, mesh: meshes };
        let ghost before = nodes_view(out@);
        out.push(imported);
        assert(nodes_view(out@) =~= before.push(node_view(imported)));
        proof {
            assert(decreases_to!(ns => ns[i as int]));
            assert(decreases_to!(ns[i as int] => ns[i as int].children));
            assert(decreases_to!(ns[i as int].children => ns[i as int].children@));
        }
        collect_node_list(children, handles, out, cam);
        i = i + 1;
    }
    assert(ns.skip(count as int) =~= Seq::<GltfNode>::empty());
}

// ---------------------------------------------------------------------------
// The whole import
// ---------------------------------------------------------------------------

/// What importing `doc` (read from `path`) does to a registry whose
/// contents are `reg`, and what it gives: images become textures, then the
/// materials and a default material are registered, then each mesh's
/// non-empty primitives become meshes, and finally the scene's nodes are
/// flattened. A failure leaves in the registry what was added before it.
pub open spec fn gltf_import(doc: GltfDocument, path: Seq<char>, reg: RegistryView) -> (
    RegistryView,
    Result<SceneView, AssetFault>,
) {
    let (ts, bad_image) = load_images(doc.images@, 0, reg.1);
    match bad_image {
        Some(e) => ((reg.0, ts, reg.2), Err(e)),
        None => {
            let mats = reg.2 + materials_views(doc.materials@, reg.1.len(), doc.images@.len())
                + seq![default_material_view()];
            let (ms, r) = load_meshes(
                doc.meshes@,
                0,
                reg.0,
                Seq::empty(),
                path,
                reg.2.len(),
                doc.materials@.len(),
            );
            let after = (ms, ts, mats);
            match r {
                Err(e) => (after, Err(e)),
                Ok(handles) => match doc.scene {
                    None => (after, Err(AssetFault::MissingScene)),
                    Some(roots) => {
                        let (nodes, cam) = collect_nodes(roots@, handles, Seq::empty(), None);
                        (after, Ok((path, nodes, cam)))
                    },
                },
            }
        },
    }
}

pub open spec fn scene_result(r: Result<ImportedScene, AssetError>) -> Result<SceneView, AssetFault> {
    match r {
        Ok(s) => Ok(scene_view(s)),
        Err(e) => Err(e@),
    }
}

// ---------------------------------------------------------------------------
// Imported handles resolve
// ---------------------------------------------------------------------------

/// Whether every handle in `hs` indexes into a list of `len` meshes.
pub open spec fn handles_below(hs: Seq<MeshHandle>, len: nat) -> bool {
    forall|i: int| 0 <= i < hs.len() ==> (#[trigger] hs[i]).spec_index() < len
}

proof fn lemma_prim_handles_resolve(
    prims: Seq<GltfPrimitive>,
    mesh_name: Seq<char>,
    k: nat,
    acc: Seq<MeshView>,
    hs: Seq<MeshHandle>,
    path: Seq<char>,
    mbase: nat,
    mcount: nat,
)
    ensures
        acc.len() <= load_prims(prims, mesh_name, k, acc, hs, path, mbase, mcount).0.len(),
        match load_prims(prims, mesh_name, k, acc, hs, path, mbase, mcount).1 {
            Ok(out) => {
                let total = load_prims(prims, mesh_name, k, acc, hs, path, mbase, mcount).0.len();
                (total <= 0x1_0000_0000 && handles_below(hs, acc.len())) ==> handles_below(
                    out,
                    total,
                )
            },
            Err(_) => true,
        },
    decreases prims.len() - k,
{
    if k < prims.len() {
        let p = prims[k as int];
        if let Some(pos) = p.positions {
            let vs = prim_vertices(p, pos@);
            let ix = prim_indices(p, pos@.len());
            if vs.len() == 0 || ix.len() == 0 {
                lemma_prim_handles_resolve(prims, mesh_name, k + 1, acc, hs, path, mbase, mcount);
            } else {
                let mv = (
                    prim_name(mesh_name, k, prims.len()),
                    vs,
                    ix,
                    prim_material(p.material, mbase, mcount),
                );
                let h = MeshHandle::spec_new(next_index(acc.len() as int));
                let acc2 = acc.push(mv);
                let hs2 = hs.push(h);
                lemma_prim_handles_resolve(prims, mesh_name, k + 1, acc2, hs2, path, mbase, mcount);
                let total = load_prims(prims, mesh_name, k + 1, acc2, hs2, path, mbase, mcount).0.len();
                if total <= 0x1_0000_0000 && handles_below(hs, acc.len()) {
                    MeshHandle::lemma_spec_new(next_index(acc.len() as int));
                    assert(next_index(acc.len() as int) == acc.len());
                    assert forall|i: int| 0 <= i < hs2.len() implies (#[trigger] hs2[i]).spec_index()
                        < acc2.len() by {
                        if i < hs.len() {
                            assert(hs2[i] == hs[i]);
                        }
                    }
                }
            }
        }
    }
}

proof fn lemma_mesh_handles_resolve(
    meshes: Seq<GltfMesh>,
    j: nat,
    acc: Seq<MeshView>,
    handles: Seq<Seq<MeshHandle>>,
    path: Seq<char>,
    mbase: nat,
    mcount: nat,
)
    ensures
        acc.len() <= load_meshes(meshes, j, acc, handles, path, mbase, mcount).0.len(),
        match load_meshes(meshes, j, acc, handles, path, mbase, mcount).1 {
            Ok(out) => {
                let total = load_meshes(meshes, j, acc, handles, path, mbase, mcount).0.len();
                (total <= 0x1_0000_0000 && forall|i: int|
                    0 <= i < handles.len() ==> handles_below(#[trigger] handles[i], acc.len()))
                    ==> forall|i: int| 0 <= i < out.len() ==> handles_below(#[trigger] out[i], total)
            },
            Err(_) => true,
        },
    decreases meshes.len() - j,
{
    if j < meshes.len() {
        let m = meshes[j as int];
        let name = name_or(m.name, "mesh_"@ + decimal(j));
        lemma_prim_handles_resolve(m.primitives@, name, 0, acc, Seq::empty(), path, mbase, mcount);
        let (acc2, r) = load_prims(m.primitives@, name, 0, acc, Seq::empty(), path, mbase, mcount);
        if let Ok(hs) = r {
            if hs.len() != 0 {
                let handles2 = handles.push(hs);
                lemma_mesh_handles_resolve(meshes, j + 1, acc2, handles2, path, mbase, mcount);
                let total = load_meshes(meshes, j + 1, acc2, handles2, path, mbase, mcount).0.len();
                if total <= 0x1_0000_0000 && forall|i: int|
                    0 <= i < handles.len() ==> handles_below(#[trigger] handles[i], acc.len()) {
                    assert(handles_below(Seq::<MeshHandle>::empty(), acc.len()));
                    assert(handles_below(hs, acc2.len()));
                    assert forall|i: int| 0 <= i < handles2.len() implies handles_below(
                        #[trigger] handles2[i],
                        acc2.len(),
                    ) by {
                        if i < handles.len() {
                            assert(handles2[i] == handles[i]);
                            assert forall|q: int| 0 <= q < handles[i].len() implies (
                            #[trigger] handles[i][q]).spec_index() < acc2.len() by {
                                assert(handles_below(handles[i], acc.len()));
                            }
                        }
                    }
                }
            }
        }
    }
}

proof fn lemma_node_handles_resolve(
    ns: Seq<GltfNode>,
    handles: Seq<Seq<MeshHandle>>,
    out: Seq<NodeView>,
    cam: Option<usize>,
    len: nat,
)
    requires
        forall|i: int| 0 <= i < handles.len() ==> handles_below(#[trigger] handles[i], len),
        forall|i: int| 0 <= i < out.len() ==> handles_below((#[trigger] out[i]).4, len),
    ensures
        forall|i: int|
            0 <= i < collect_nodes(ns, handles, out, cam).0.len() ==> handles_below(
                (#[trigger] collect_nodes(ns, handles, out, cam).0[i]).4,
                len,
            ),
    decreases ns,
{
    if ns.len() != 0 {
        let n = ns[0];
        let v = (
            name_or(n.name, "node_"@ + decimal(out.len())),
            n.translation,
            n.rotation,
            n.scale,
            node_meshes(n.mesh, handles),
        );
        let cam2 = if n.has_camera {
            Some(out.len() as usize)
        } else {
            cam
        };
        assert(handles_below(Seq::<MeshHandle>::empty(), len));
        assert(handles_below(v.4, len));
        let out1 = out.push(v);
        assert forall|i: int| 0 <= i < out1.len() implies handles_below((#[trigger] out1[i]).4, len) by {
            if i < out.len() {
                assert(out1[i] == out[i]);
            }
        }
        assert(decreases_to!(ns => ns[0]));
        lemma_node_handles_resolve(n.children@, handles, out1, cam2, len);
        let (out2, cam3) = collect_nodes(n.children@, handles, out1, cam2);
        lemma_node_handles_resolve(ns.drop_first(), handles, out2, cam3, len);
        assert(collect_nodes(ns, handles, out, cam) == collect_nodes(
            ns.drop_first(),
            handles,
            out2,
            cam3,
        ));
    }
}

/// After a successful glTF import, every mesh handle of every imported node
/// resolves in the registry: its index is below the registry's mesh count.
/// This holds as long as the registry then holds at most 2^32 meshes, so
/// that handle indices do not wrap.
pub proof fn law_imported_node_meshes_resolve(doc: GltfDocument, path: Seq<char>, reg: RegistryView)
    requires
        gltf_import(doc, path, reg).0.0.len() <= 0x1_0000_0000,
    ensures
        match gltf_import(doc, path, reg).1 {
            Ok(scene) => forall|i: int|
                0 <= i < scene.1.len() ==> handles_below(
                    (#[trigger] scene.1[i]).4,
                    gltf_import(doc, path, reg).0.0.len(),
                ),
            Err(_) => true,
        },
{
    let (ts, bad_image) = load_images(doc.images@, 0, reg.1);
    if bad_image is None {
        lemma_mesh_handles_resolve(
            doc.meshes@,
            0,
            reg.0,
            Seq::empty(),
            path,
            reg.2.len(),
            doc.materials@.len(),
        );
        let (ms, r) = load_meshes(
            doc.meshes@,
            0,
            reg.0,
            Seq::empty(),
            path,
            reg.2.len(),
            doc.materials@.len(),
        );
        if let Ok(handles) = r {
            if let Some(roots) = doc.scene {
                lemma_node_handles_resolve(roots@, handles, Seq::empty(), None, ms.len());
            }
        }
    }
}

// ---------------------------------------------------------------------------
// Imported vertices carry the document's attributes
// ---------------------------------------------------------------------------

/// Whether `vs` is a vertex list made from primitive `p`: one 12-word
/// vertex per position, whose words 0..3 are that position and whose
/// normal (3..6), uv (6..8) and tangent (8..12) words are the primitive's
/// values at the same index wherever the primitive has that attribute.
pub open spec fn vertices_from_primitive(vs: Seq<Seq<u32>>, p: GltfPrimitive) -> bool {
    &&& p.positions is Some
    &&& vs.len() == p.positions->0@.len()
    &&& forall|i: int|
        0 <= i < vs.len() ==> {
            &&& (#[trigger] vs[i]).len() == 12
            &&& vs[i].subrange(0, 3) == p.positions->0@[i]@
            &&& (p.normals matches Some(n) ==> vs[i].subrange(3, 6) == n@[i]@)
            &&& (p.uvs matches Some(u) ==> vs[i].subrange(6, 8) == u@[i]@)
            &&& (p.tangents matches Some(t) ==> vs[i].subrange(8, 12) == t@[i]@)
        }
}

proof fn lemma_prim_vertices_from_primitive(p: GltfPrimitive, pos: Seq<[u32; 3]>)
    requires
        p.positions matches Some(x) && x@ == pos,
    ensures
        vertices_from_primitive(prim_vertices(p, pos), p),
{
    let vs = prim_vertices(p, pos);
    assert forall|i: int| 0 <= i < vs.len() implies {
        &&& (#[trigger] vs[i]).len() == 12
        &&& vs[i].subrange(0, 3) == p.positions->0@[i]@
        &&& (p.normals matches Some(n) ==> vs[i].subrange(3, 6) == n@[i]@)
        &&& (p.uvs matches Some(u) ==> vs[i].subrange(6, 8) == u@[i]@)
        &&& (p.tangents matches Some(t) ==> vs[i].subrange(8, 12) == t@[i]@)
    } by {
        let w = vs[i];
        assert(w == prim_vertex(p, pos, i));
        assert(w.len() == 12);
        assert(w.subrange(0, 3) =~= pos[i]@);
        if let Some(n) = p.normals {
            assert(w.subrange(3, 6) =~= n@[i]@);
        }
        if let Some(u) = p.uvs {
            assert(w.subrange(6, 8) =~= u@[i]@);
        }
        if let Some(t) = p.tangents {
            assert(w.subrange(8, 12) =~= t@[i]@);
        }
    }
}

/// Whether `vs` is made from one of the primitives `prims[lo..]`.
pub open spec fn from_some_primitive(vs: Seq<Seq<u32>>, prims: Seq<GltfPrimitive>, lo: int) -> bool {
    exists|q: int| lo <= q < prims.len() && #[trigger] vertices_from_primitive(vs, prims[q])
}

/// Whether `vs` is made from one of the primitives of `meshes[lo..]`.
pub open spec fn from_some_mesh(vs: Seq<Seq<u32>>, meshes: Seq<GltfMesh>, lo: int) -> bool {
    exists|m: int| lo <= m < meshes.len() && #[trigger] from_some_primitive(vs, meshes[m].primitives@, 0)
}

proof fn lemma_prims_from_document(
    prims: Seq<GltfPrimitive>,
    mesh_name: Seq<char>,
    k: nat,
    acc: Seq<MeshView>,
    hs: Seq<MeshHandle>,
    path: Seq<char>,
    mbase: nat,
    mcount: nat,
)
    ensures
        ({
            let out = load_prims(prims, mesh_name, k, acc, hs, path, mbase, mcount).0;
            &&& acc.len() <= out.len()
            &&& forall|i: int| 0 <= i < acc.len() ==> out[i] == acc[i]
            &&& forall|i: int|
                acc.len() <= i < out.len() ==> from_some_primitive(#[trigger] out[i].1, prims, k as int)
        }),
    decreases prims.len() - k,
{
    let out = load_prims(prims, mesh_name, k, acc, hs, path, mbase, mcount).0;
    if k < prims.len() {
        let p = prims[k as int];
        if let Some(pos) = p.positions {
            let vs = prim_vertices(p, pos@);
            let ix = prim_indices(p, pos@.len());
            if vs.len() == 0 || ix.len() == 0 {
                lemma_prims_from_document(prims, mesh_name, k + 1, acc, hs, path, mbase, mcount);
                assert(out == load_prims(prims, mesh_name, k + 1, acc, hs, path, mbase, mcount).0);
                assert forall|i: int| acc.len() <= i < out.len() implies from_some_primitive(
                    #[trigger] out[i].1,
                    prims,
                    k as int,
                ) by {
                    assert(from_some_primitive(out[i].1, prims, (k + 1) as int));
                    let q = choose|q: int| k + 1 <= q < prims.len() && #[trigger] vertices_from_primitive(out[i].1, prims[q]);
                    assert(vertices_from_primitive(out[i].1, prims[q]));
                }
            } else {
                let mv = (
                    prim_name(mesh_name, k, prims.len()),
                    vs,
                    ix,
                    prim_material(p.material, mbase, mcount),
                );
                let acc2 = acc.push(mv);
                let hs2 = hs.push(MeshHandle::spec_new(next_index(acc.len() as int)));
                lemma_prims_from_document(prims, mesh_name, k + 1, acc2, hs2, path, mbase, mcount);
                lemma_prim_vertices_from_primitive(p, pos@);
                assert(out == load_prims(prims, mesh_name, k + 1, acc2, hs2, path, mbase, mcount).0);
                assert forall|i: int| 0 <= i < acc.len() implies #[trigger] out[i] == acc[i] by {
                    assert(out[i] == acc2[i]);
                }
                assert forall|i: int| acc.len() <= i < out.len() implies from_some_primitive(
                    #[trigger] out[i].1,
                    prims,
                    k as int,
                ) by {
                    if i == acc.len() {
                        assert(out[i] == acc2[i]);
                        assert(vertices_from_primitive(out[i].1, prims[k as int]));
                    } else {
                        assert(from_some_primitive(out[i].1, prims, (k + 1) as int));
                        let q = choose|q: int| k + 1 <= q < prims.len() && #[trigger] vertices_from_primitive(out[i].1, prims[q]);
                        assert(vertices_from_primitive(out[i].1, prims[q]));
                    }
                }
            }
        } else {
            assert(out == acc);
        }
    } else {
        assert(out == acc);
    }
}

proof fn lemma_meshes_from_document(
    meshes: Seq<GltfMesh>,
    j: nat,
    acc: Seq<MeshView>,
    handles: Seq<Seq<MeshHandle>>,
    path: Seq<char>,
    mbase: nat,
    mcount: nat,
)
    ensures
        ({
            let out = load_meshes(meshes, j, acc, handles, path, mbase, mcount).0;
            &&& acc.len() <= out.len()
            &&& forall|i: int| 0 <= i < acc.len() ==> out[i] == acc[i]
            &&& forall|i: int|
                acc.len() <= i < out.len() ==> from_some_mesh(#[trigger] out[i].1, meshes, j as int)
        }),
    decreases meshes.len() - j,
{
    let out = load_meshes(meshes, j, acc, handles, path, mbase, mcount).0;
    if j < meshes.len() {
        let me = meshes[j as int];
        let name = name_or(me.name, "mesh_"@ + decimal(j));
        lemma_prims_from_document(me.primitives@, name, 0, acc, Seq::empty(), path, mbase, mcount);
        let (acc2, r) = load_prims(me.primitives@, name, 0, acc, Seq::empty(), path, mbase, mcount);
        assert forall|i: int| acc.len() <= i < acc2.len() implies from_some_mesh(
            #[trigger] acc2[i].1,
            meshes,
            j as int,
        ) by {
            assert(from_some_primitive(acc2[i].1, meshes[j as int].primitives@, 0));
        }
        if let Ok(hs) = r {
            if hs.len() != 0 {
                let handles2 = handles.push(hs);
                lemma_meshes_from_document(meshes, j + 1, acc2, handles2, path, mbase, mcount);
                assert(out == load_meshes(meshes, j + 1, acc2, handles2, path, mbase, mcount).0);
                assert forall|i: int| 0 <= i < acc.len() implies #[trigger] out[i] == acc[i] by {
                    assert(out[i] == acc2[i]);
                }
                assert forall|i: int| acc.len() <= i < out.len() implies from_some_mesh(
                    #[trigger] out[i].1,
                    meshes,
                    j as int,
                ) by {
                    if i < acc2.len() {
                        assert(out[i] == acc2[i]);
                        assert(from_some_mesh(acc2[i].1, meshes, j as int));
                    } else {
                        assert(from_some_mesh(out[i].1, meshes, (j + 1) as int));
                        let m = choose|m: int| j + 1 <= m < meshes.len() && #[trigger] from_some_primitive(out[i].1, meshes[m].primitives@, 0);
                        assert(from_some_primitive(out[i].1, meshes[m].primitives@, 0));
                    }
                }
            } else {
                assert(out == acc2);
            }
        } else {
            assert(out == acc2);
        }
    } else {
        assert(out == acc);
    }
}

/// A successful import leaves the meshes registered before it as they were,
/// and every mesh it registers is made from one primitive of the document:
/// one vertex per position, carrying that position and the primitive's own
/// normal, texture coordinate and tangent at the same index wherever the
/// primitive has them.
pub proof fn law_imported_vertices_follow_document(doc: GltfDocument, path: Seq<char>, reg: RegistryView)
    ensures
        gltf_import(doc, path, reg).1 is Ok ==> {
            let after = gltf_import(doc, path, reg).0.0;
            &&& reg.0.len() <= after.len()
            &&& forall|i: int| 0 <= i < reg.0.len() ==> after[i] == reg.0[i]
            &&& forall|i: int|
                reg.0.len() <= i < after.len() ==> from_some_mesh(#[trigger] after[i].1, doc.meshes@, 0)
        },
{
    lemma_meshes_from_document(
        doc.meshes@,
        0,
        reg.0,
        Seq::empty(),
        path,
        reg.2.len(),
        doc.materials@.len(),
    );
}

/// Registers the assets of an imported glTF document and gives its scene.
pub fn import_gltf_document(doc: GltfDocument, path: &str, registry: &mut AssetRegistry) -> (r:
    Result<ImportedScene, AssetError>)
    requires
        old(registry).wf(),
        document_wf(&doc),
    ensures
        final(registry).wf(),
        (final(registry).spec_view(), scene_result(r)) == gltf_import(
            doc,
            path@,
            old(registry).spec_view(),
        ),
{
    let ghost reg0 = registry.spec_view();
    let GltfDocument { images, materials, meshes, scene } = doc;
    let ghost tbase = reg0.1.len();
    let ghost n_images = images@.len();
    let textures = match load_textures(images, registry) {
        Ok(t) => t,
        Err(e) => {
            return Err(e);
        },
    };
    let ghost mbase = reg0.2.len();
    let ghost n_materials = materials@.len();
    let ghost mviews = materials_views(materials@, tbase, n_images);
    let material_handles = load_materials(materials, &textures, Ghost(tbase), registry);
    let ghost before_default = registry.spec_view().2;
    let default_material = registry.insert_material(
        MaterialAsset::pbr(
            "default".to_owned(),
            [F32_ONE_BITS, F32_ONE_BITS, F32_ONE_BITS, F32_ONE_BITS],
            0,
            F32_ONE_BITS,
        ),
    );
    proof {
        reveal_strlit("default");
        default_material.lemma_spec_new_of_index();
        assert(registry.spec_view().2 =~= reg0.2 + mviews + seq![default_material_view()]);
    }
    let handles = match register_meshes(meshes, path, &material_handles, default_material, Ghost(mbase), registry) {
        Ok(h) => h,
        Err(e) => {
            return Err(e);
        },
    };
    let roots = match scene {
        None => {
            return Err(AssetError::MissingScene);
        },
        Some(roots) => roots,
    };
    let mut nodes: Vec<ImportedNode> = Vec::new();
    let mut cam: Option<usize> = None;
    assert(nodes_view(nodes@) =~= Seq::<NodeView>::empty());
    collect_node_list(roots, &handles, &mut nodes, &mut cam);
    Ok(ImportedScene { path: path.to_owned(), nodes, active_camera_index: cam })
}

} // verus!
