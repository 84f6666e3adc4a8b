//! Cooking: turning loaded runtime assets into `.pak` entries whose payloads
//! are already in the runtime layout that [`crate::pak_loader`] reads.
use crate::assets::{
    AssetError, AssetRegistry, MaterialAsset, MaterialView, MeshAsset, MeshVertex, MeshView,
    TextureAsset, TextureHandle, TextureView, vertex_words,
};
use crate::bytes::{le_u32, push_bytes, push_u32_le};
use crate::pak::{AssetView, CookedAssetKind, PakAsset};
use crate::text::push_str;
use vstd::prelude::*;
use vstd::utf8::encode_utf8;

verus! {

/// Why cooking failed.
#[derive(Debug, Clone, PartialEq, Eq)]
pub enum CookError {
    /// A file or directory could not be read; carries the I/O error's text.
    Io(String),
    Asset(AssetError),
    /// The input directory does not exist; carries its path.
    MissingInput(String),
}

pub open spec fn cook_error_message(e: CookError) -> Seq<char> {
    match e {
        CookError::Io(m) => "io error: "@ + m@,
        CookError::Asset(a) => "asset error: "@ + crate::assets::asset_error_message(a),
        CookError::MissingInput(p) => "input path does not exist: "@ + p@,
    }
}

impl CookError {
    /// Human-readable description of the error.
    pub fn to_string(&self) -> (r: String)
        ensures
            r@ == cook_error_message(*self),
    {
        let mut s = String::new();
        match self {
            CookError::Io(m) => {
                push_str(&mut s, "io error: ");
                push_str(&mut s, m.as_str());
            },
            CookError::Asset(a) => {
                push_str(&mut s, "asset error: ");
                let t = a.to_string();
                push_str(&mut s, t.as_str());
            },
            CookError::MissingInput(p) => {
                push_str(&mut s, "input path does not exist: ");
                push_str(&mut s, p.as_str());
            },
        }
        s
    }

    pub fn from_asset_error(error: AssetError) -> (r: CookError)
        ensures
            r == CookError::Asset(error),
    {
        CookError::Asset(error)
    }
}

/// The little-endian bytes of consecutive words.
pub open spec fn words_le(ws: Seq<u32>) -> Seq<u8>
    decreases ws.len(),
{
    if ws.len() == 0 {
        Seq::empty()
    } else {
        le_u32(ws[0]) + words_le(ws.drop_first())
    }
}

/// The bytes of consecutive vertices, each as its twelve words.
pub open spec fn vertices_le(vs: Seq<Seq<u32>>) -> Seq<u8>
    decreases vs.len(),
{
    if vs.len() == 0 {
        Seq::empty()
    } else {
        words_le(vs[0]) + vertices_le(vs.drop_first())
    }
}

/// Texture payload: width, height, pixels.
pub open spec fn cook_texture_data(t: TextureView) -> Seq<u8> {
    le_u32(t.1) + le_u32(t.2) + t.3
}

/// A texture reference as stored: its index, or `u32::MAX` for none.
pub open spec fn texture_word(h: Option<TextureHandle>) -> u32 {
    match h {
        Some(h) => h.spec_index(),
        None => u32::MAX,
    }
}

/// Material payload: four base-color words, metallic, roughness, base-color
/// texture, normal texture.
pub open spec fn cook_material_data(m: MaterialView) -> Seq<u8> {
    words_le(m.3) + le_u32(m.4) + le_u32(m.5) + le_u32(texture_word(m.1)) + le_u32(
        texture_word(m.2),
    )
}

/// Mesh payload: material index, vertex count, vertices, index count,
/// indices. Counts are stored modulo 2^32.
pub open spec fn cook_mesh_data(m: MeshView) -> Seq<u8> {
    le_u32(m.3.spec_index()) + le_u32((m.1.len() % 0x1_0000_0000) as u32) + vertices_le(m.1)
        + le_u32((m.2.len() % 0x1_0000_0000) as u32) + words_le(m.2)
}

/// The entries cooked from a registry's contents: textures, then materials,
/// then meshes, each in registry order.
pub open spec fn cooked_registry(
    meshes: Seq<MeshView>,
    textures: Seq<TextureView>,
    materials: Seq<MaterialView>,
) -> Seq<AssetView> {
    textures.map_values(|t: TextureView| (CookedAssetKind::Texture, t.0, cook_texture_data(t)))
        + materials.map_values(
        |m: MaterialView| (CookedAssetKind::Material, m.0, cook_material_data(m)),
    ) + meshes.map_values(|m: MeshView| (CookedAssetKind::Mesh, m.0, cook_mesh_data(m)))
}

proof fn lemma_words_le_push(ws: Seq<u32>, w: u32)
    ensures
        words_le(ws.push(w)) == words_le(ws) + le_u32(w),
    decreases ws.len(),
{
    if ws.len() == 0 {
        assert(ws.push(w).drop_first() =~= Seq::<u32>::empty());
        assert(words_le(Seq::<u32>::empty()) == Seq::<u8>::empty());
        assert(ws.push(w)[0] == w);
        assert(words_le(ws.push(w)) =~= le_u32(w));
        assert(words_le(ws) == Seq::<u8>::empty());
    } else {
        lemma_words_le_push(ws.drop_first(), w);
        assert(ws.push(w).drop_first() =~= ws.drop_first().push(w));
        assert(words_le(ws.push(w)) =~= words_le(ws) + le_u32(w));
    }
}

proof fn lemma_vertices_le_push(vs: Seq<Seq<u32>>, v: Seq<u32>)
    ensures
        vertices_le(vs.push(v)) == vertices_le(vs) + words_le(v),
    decreases vs.len(),
{
    if vs.len() == 0 {
        assert(vs.push(v).drop_first() =~= Seq::<Seq<u32>>::empty());
        assert(vertices_le(Seq::<Seq<u32>>::empty()) == Seq::<u8>::empty());
        assert(vs.push(v)[0] == v);
        assert(vertices_le(vs.push(v)) =~= words_le(v));
        assert(vertices_le(vs) == Seq::<u8>::empty());
    } else {
        lemma_vertices_le_push(vs.drop_first(), v);
        assert(vs.push(v).drop_first() =~= vs.drop_first().push(v));
        assert(vertices_le(vs.push(v)) =~= vertices_le(vs) + words_le(v));
    }
}

fn push_words(out: &mut Vec<u8>, ws: &[u32])
    ensures
        final(out)@ == old(out)@ + words_le(ws@),
{
    let ghost start = out@;
    let mut i: usize = 0;
    while i < ws.len()
        invariant
            i <= ws@.len(),
            out@ == start + words_le(ws@.take(i as int)),
        decreases ws@.len() - i,
    {
        proof {
            lemma_words_le_push(ws@.take(i as int), ws@[i as int]);
            assert(ws@.take(i + 1) =~= ws@.take(i as int).push(ws@[i as int]));
        }
        push_u32_le(out, ws[i]);
        i = i + 1;
    }
    assert(ws@.take(ws@.len() as int) =~= ws@);
}

fn push_vertex(out: &mut Vec<u8>, v: &MeshVertex)
    ensures
        final(out)@ == old(out)@ + words_le(vertex_words(*v)),
{
    let words = [
        v.position[0],
        v.position[1],
        v.position[2],
        v.normal[0],
        v.normal[1],
        v.normal[2],
        v.uv[0],
        v.uv[1],
        v.tangent[0],
        v.tangent[1],
        v.tangent[2],
        v.tangent[3],
    ];
    assert(words@ =~= vertex_words(*v));
    push_words(out, &words);
}

fn texture_word_exec(h: Option<TextureHandle>) -> (r: u32)
    ensures
        r == texture_word(h),
{
    match h {
        Some(h) => h.index(),
        None => u32::MAX,
    }
}

/// The cooked payload of a texture.
pub fn cook_texture(texture: &TextureAsset) -> (r: Vec<u8>)
    ensures
        r@ == cook_texture_data(texture@),
{
    let mut data: Vec<u8> = Vec::new();
    push_u32_le(&mut data, texture.width);
    push_u32_le(&mut data, texture.height);
    push_bytes(&mut data, texture.rgba.as_slice());
    data
}

/// The cooked payload of a material.
pub fn cook_material(material: &MaterialAsset) -> (r: Vec<u8>)
    ensures
        r@ == cook_material_data(material@),
{
    let mut data: Vec<u8> = Vec::new();
    push_words(&mut data, &material.base_color_factor_bits);
    push_u32_le(&mut data, material.metallic_factor_bits);
    push_u32_le(&mut data, material.roughness_factor_bits);
    push_u32_le(&mut data, texture_word_exec(material.base_color_texture));
    push_u32_le(&mut data, texture_word_exec(material.normal_texture));
    data
}

/// The cooked payload of a mesh.
pub fn cook_mesh(mesh: &MeshAsset) -> (r: Vec<u8>)
    ensures
        r@ == cook_mesh_data(mesh@),
{
    let mut data: Vec<u8> = Vec::new();
    push_u32_le(&mut data, mesh.material.index());
    let vertex_count = mesh.vertices.len();
    push_u32_le(&mut data, ((vertex_count as u64) % 0x1_0000_0000) as u32);
    let ghost header = data@;
    let ghost vs = mesh.vertices@.map_values(|v: MeshVertex| vertex_words(v));
    let mut i: usize = 0;
    while i < vertex_count
        invariant
            vertex_count == mesh.vertices@.len(),
            vs == mesh.vertices@.map_values(|v: MeshVertex| vertex_words(v)),
            i <= vertex_count,
            data@ == header + vertices_le(vs.take(i as int)),
        decreases vertex_count - i,
    {
        proof {
            lemma_vertices_le_push(vs.take(i as int), vs[i as int]);
            assert(vs.take(i + 1) =~= vs.take(i as int).push(vs[i as int]));
        }
        push_vertex(&mut data, &mesh.vertices[i]);
        i = i + 1;
    }
    assert(vs.take(vertex_count as int) =~= vs);
    push_u32_le(&mut data, ((mesh.indices.len() as u64) % 0x1_0000_0000) as u32);
    push_words(&mut data, mesh.indices.as_slice());
    data
}

/// A shader entry whose payload is the source text's UTF-8 bytes.
pub fn cook_shader(name: String, source: &str) -> (r: PakAsset)
    ensures
        r@ == (CookedAssetKind::Shader, name@, encode_utf8(source@)),
{
    let mut data: Vec<u8> = Vec::new();
    push_bytes(&mut data, source.as_bytes());
    PakAsset { kind: CookedAssetKind::Shader, name, data }
}

/// Appends the entries cooked from a registry: its textures, then its
/// materials, then its meshes, each in registry order.
pub fn cook_registry(registry: &AssetRegistry, assets: &mut Vec<PakAsset>)
    ensures
        final(assets)@.map_values(|a: PakAsset| a@) == old(assets)@.map_values(|a: PakAsset| a@)
            + cooked_registry(
            registry.spec_view().0,
            registry.spec_view().1,
            registry.spec_view().2,
        ),
{
    let ghost start = assets@.map_values(|a: PakAsset| a@);
    let ghost v = registry.spec_view();
    let textures = registry.textures();
    let ghost tpart = v.1.map_values(
        |t: TextureView| (CookedAssetKind::Texture, t.0, cook_texture_data(t)),
    );
    let mut i: usize = 0;
    while i < textures.len()
        invariant
            textures@ == registry.spec_textures(),
            v == registry.spec_view(),
            tpart == v.1.map_values(
                |t: TextureView| (CookedAssetKind::Texture, t.0, cook_texture_data(t)),
            ),
            i <= textures@.len(),
            assets@.map_values(|a: PakAsset| a@) == start + tpart.take(i as int),
        decreases textures@.len() - i,
    {
        let t = &textures[i];
        let a = PakAsset { kind: CookedAssetKind::Texture, name: t.name.clone(), data: cook_texture(t) };
        let ghost before = assets@;
        assets.push(a);
        proof {
            assert(assets@.map_values(|a: PakAsset| a@) =~= before.map_values(|a: PakAsset| a@).push(
                a@,
            ));
            assert(tpart.take(i + 1) =~= tpart.take(i as int).push(tpart[i as int]));
        }
        i = i + 1;
    }
    assert(tpart.take(textures@.len() as int) =~= tpart);
    let materials = registry.materials();
    let ghost mpart = v.2.map_values(
        |m: MaterialView| (CookedAssetKind::Material, m.0, cook_material_data(m)),
    );
    let ghost mid = assets@.map_values(|a: PakAsset| a@);
    let mut i: usize = 0;
    while i < materials.len()
        invariant
            materials@ == registry.spec_materials(),
            v == registry.spec_view(),
            mpart == v.2.map_values(
                |m: MaterialView| (CookedAssetKind::Material, m.0, cook_material_data(m)),
            ),
            i <= materials@.len(),
            assets@.map_values(|a: PakAsset| a@) == mid + mpart.take(i as int),
        decreases materials@.len() - i,
    {
        let m = &materials[i];
        let a = PakAsset {
            kind: CookedAssetKind::Material,
            name: m.name.clone(),
            data: cook_material(m),
        };
        let ghost before = assets@;
        assets.push(a);
        proof {
            assert(assets@.map_values(|a: PakAsset| a@) =~= before.map_values(|a: PakAsset| a@).push(
                a@,
            ));
            assert(mpart.take(i + 1) =~= mpart.take(i as int).push(mpart[i as int]));
        }
        i = i + 1;
    }
    assert(mpart.take(materials@.len() as int) =~= mpart);
    let meshes = registry.meshes();
    let ghost hpart = v.0.map_values(
        |m: MeshView| (CookedAssetKind::Mesh, m.0, cook_mesh_data(m)),
    );
    let ghost mid2 = assets@.map_values(|a: PakAsset| a@);
    let mut i: usize = 0;
    while i < meshes.len()
        invariant
            meshes@ == registry.spec_meshes(),
            v == registry.spec_view(),
            hpart == v.0.map_values(|m: MeshView| (CookedAssetKind::Mesh, m.0, cook_mesh_data(m))),
            i <= meshes@.len(),
            assets@.map_values(|a: PakAsset| a@) == mid2 + hpart.take(i as int),
        decreases meshes@.len() - i,
    {
        let m = &meshes[i];
        let a = PakAsset { kind: CookedAssetKind::Mesh, name: m.name.clone(), data: cook_mesh(m) };
        let ghost before = assets@;
        assets.push(a);
        proof {
            assert(assets@.map_values(|a: PakAsset| a@) =~= before.map_values(|a: PakAsset| a@).push(
                a@,
            ));
            assert(hpart.take(i + 1) =~= hpart.take(i as int).push(hpart[i as int]));
        }
        i = i + 1;
    }
    assert(hpart.take(meshes@.len() as int) =~= hpart);
    assert(assets@.map_values(|a: PakAsset| a@) =~= start + cooked_registry(v.0, v.1, v.2));
}

} // verus!
