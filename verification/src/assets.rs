//! Runtime asset types and the registry that owns them.
//!
//! Floating-point fields (vertex attributes, material factors) are carried as
//! their IEEE-754 bit patterns: the library only stores, copies and
//! (de)serializes them, and never computes with them.
use crate::float_bits::{
    f32_is_infinite, f32_less, f32_max, f32_min, F32_INFINITY_BITS, F32_NEG_INFINITY_BITS,
};
use crate::text::{decimal, push_decimal, push_str};
use std::marker::PhantomData;
use vstd::prelude::*;

verus! {

/// A kind of asset a handle can refer to.
pub trait AssetKind {
    /// Lower-case name of the kind, used in messages.
    spec fn spec_kind_name() -> Seq<char>;

    fn kind_name() -> (r: &'static str)
        ensures
            r@ == Self::spec_kind_name(),
    ;
}

#[derive(Debug, Clone, Copy, PartialEq, Eq, Hash)]
pub struct MeshAssetKind;

#[derive(Debug, Clone, Copy, PartialEq, Eq, Hash)]
pub struct TextureAssetKind;

#[derive(Debug, Clone, Copy, PartialEq, Eq, Hash)]
pub struct MaterialAssetKind;

impl AssetKind for MeshAssetKind {
    open spec fn spec_kind_name() -> Seq<char> {
        "mesh"@
    }

    fn kind_name() -> (r: &'static str) {
        "mesh"
    }
}

impl AssetKind for TextureAssetKind {
    open spec fn spec_kind_name() -> Seq<char> {
        "texture"@
    }

    fn kind_name() -> (r: &'static str) {
        "texture"
    }
}

impl AssetKind for MaterialAssetKind {
    open spec fn spec_kind_name() -> Seq<char> {
        "material"@
    }

    fn kind_name() -> (r: &'static str) {
        "material"
    }
}

/// A typed index into one of the registry's asset lists. The index
/// `u32::MAX` marks an invalid handle.
#[derive(Debug, PartialEq, Eq, Hash)]
pub struct Handle<K> {
    id: u32,
    _kind: PhantomData<K>,
}

impl<K> Clone for Handle<K> {
    fn clone(&self) -> (r: Handle<K>)
        ensures
            r == *self,
    {
        Handle { id: self.id, _kind: PhantomData }
    }
}

impl<K> Copy for Handle<K> {

}

impl<K> Handle<K> {
    pub closed spec fn spec_index(self) -> u32 {
        self.id
    }

    pub closed spec fn spec_new(id: u32) -> Handle<K> {
        Handle { id, _kind: PhantomData }
    }

    pub proof fn lemma_spec_new(id: u32)
        ensures
            Self::spec_new(id).spec_index() == id,
    {
    }

    /// The handle with index `id`.
    pub fn new(id: u32) -> (r: Handle<K>)
        ensures
            r.spec_index() == id,
            r == Self::spec_new(id),
    {
        Handle { id, _kind: PhantomData }
    }

    /// The invalid handle.
    pub fn invalid() -> (r: Handle<K>)
        ensures
            r.spec_index() == u32::MAX,
    {
        Handle { id: u32::MAX, _kind: PhantomData }
    }

    pub fn index(&self) -> (r: u32)
        ensures
            r == self.spec_index(),
    {
        self.id
    }

    pub fn is_valid(&self) -> (r: bool)
        ensures
            r == (self.spec_index() != u32::MAX),
    {
        self.id != u32::MAX
    }

    /// Handles with the same index are the same handle.
    pub proof fn lemma_index_determines(self, other: Handle<K>)
        requires
            self.spec_index() == other.spec_index(),
        ensures
            self == other,
    {
    }

    pub proof fn lemma_spec_new_of_index(self)
        ensures
            Self::spec_new(self.spec_index()) == self,
    {
    }
}

impl<K: AssetKind> Handle<K> {
    /// `kind(index)`, for example `mesh(3)`.
    pub fn to_string(&self) -> (r: String)
        ensures
            r@ == K::spec_kind_name() + "("@ + decimal(self.spec_index() as nat) + ")"@,
    {
        let mut s = String::new();
        push_str(&mut s, K::kind_name());
        push_str(&mut s, "(");
        push_decimal(&mut s, self.id as u64);
        push_str(&mut s, ")");
        s
    }
}

pub type MeshHandle = Handle<MeshAssetKind>;

pub type TextureHandle = Handle<TextureAssetKind>;

pub type MaterialHandle = Handle<MaterialAssetKind>;

/// Why loading or registering an asset failed. Paths are kept as text.
#[derive(Debug, Clone, PartialEq, Eq)]
pub enum AssetError {
    Io { path: String, message: String },
    Gltf { path: String, message: String },
    Image { path: String, message: String },
    Shader { path: String, message: String },
    MissingScene,
    InvalidHandle { kind: &'static str, index: u32 },
    EmptyMesh { path: String, mesh_name: String },
}

/// The content of an [`AssetError`], with its texts as character sequences.
pub enum AssetFault {
    Io(Seq<char>, Seq<char>),
    Gltf(Seq<char>, Seq<char>),
    Image(Seq<char>, Seq<char>),
    Shader(Seq<char>, Seq<char>),
    MissingScene,
    InvalidHandle(Seq<char>, u32),
    EmptyMesh(Seq<char>, Seq<char>),
}

impl View for AssetError {
    type V = AssetFault;

    open spec fn view(&self) -> AssetFault {
        match self {
            AssetError::Io { path, message } => AssetFault::Io(path@, message@),
            AssetError::Gltf { path, message } => AssetFault::Gltf(path@, message@),
            AssetError::Image { path, message } => AssetFault::Image(path@, message@),
            AssetError::Shader { path, message } => AssetFault::Shader(path@, message@),
            AssetError::MissingScene => AssetFault::MissingScene,
            AssetError::InvalidHandle { kind, index } => AssetFault::InvalidHandle(kind@, *index),
            AssetError::EmptyMesh { path, mesh_name } => AssetFault::EmptyMesh(path@, mesh_name@),
        }
    }
}

/// The text an `AssetError` reads as.
pub open spec fn asset_error_message(e: AssetError) -> Seq<char> {
    match e {
        AssetError::Io { path, message } => "failed to read asset at "@ + path@ + ": "@
            + message@,
        AssetError::Gltf { path, message } => "failed to load glTF at "@ + path@ + ": "@
            + message@,
        AssetError::Image { path, message } => "failed to load texture at "@ + path@ + ": "@
            + message@,
        AssetError::Shader { path, message } => "failed to load shader at "@ + path@ + ": "@
            + message@,
        AssetError::MissingScene => "glTF file did not contain a default scene"@,
        AssetError::InvalidHandle { kind, index } => "invalid "@ + kind@ + " handle with index "@
            + crate::text::decimal(index as nat),
        AssetError::EmptyMesh { path, mesh_name } => "glTF mesh `"@ + mesh_name@ + "` in "@
            + path@ + " did not contain drawable geometry"@,
    }
}

impl AssetError {
    pub fn io(path: &str, message: &str) -> (r: AssetError)
        ensures
            r matches AssetError::Io { path: p, message: m } && p@ == path@ && m@ == message@,
    {
        AssetError::Io { path: path.to_owned(), message: message.to_owned() }
    }

    pub fn gltf(path: &str, message: &str) -> (r: AssetError)
        ensures
            r matches AssetError::Gltf { path: p, message: m } && p@ == path@ && m@ == message@,
    {
        AssetError::Gltf { path: path.to_owned(), message: message.to_owned() }
    }

    pub fn image(path: &str, message: &str) -> (r: AssetError)
        ensures
            r matches AssetError::Image { path: p, message: m } && p@ == path@ && m@ == message@,
    {
        AssetError::Image { path: path.to_owned(), message: message.to_owned() }
    }

    pub fn shader(path: &str, message: &str) -> (r: AssetError)
        ensures
            r matches AssetError::Shader { path: p, message: m } && p@ == path@ && m@ == message@,
    {
        AssetError::Shader { path: path.to_owned(), message: message.to_owned() }
    }

    /// Human-readable description of the error.
    pub fn to_string(&self) -> (r: String)
        ensures
            r@ == asset_error_message(*self),
    {
        let mut s = String::new();
        match self {
            AssetError::Io { path, message } => {
                push_str(&mut s, "failed to read asset at ");
                push_str(&mut s, path.as_str());
                push_str(&mut s, ": ");
                push_str(&mut s, message.as_str());
            },
            AssetError::Gltf { path, message } => {
                push_str(&mut s, "failed to load glTF at ");
                push_str(&mut s, path.as_str());
                push_str(&mut s, ": ");
                push_str(&mut s, message.as_str());
            },
            AssetError::Image { path, message } => {
                push_str(&mut s, "failed to load texture at ");
                push_str(&mut s, path.as_str());
                push_str(&mut s, ": ");
                push_str(&mut s, message.as_str());
            },
            AssetError::Shader { path, message } => {
                push_str(&mut s, "failed to load shader at ");
                push_str(&mut s, path.as_str());
                push_str(&mut s, ": ");
                push_str(&mut s, message.as_str());
            },
            AssetError::MissingScene => {
                push_str(&mut s, "glTF file did not contain a default scene");
            },
            AssetError::InvalidHandle { kind, index } => {
                push_str(&mut s, "invalid ");
                push_str(&mut s, kind);
                push_str(&mut s, " handle with index ");
                push_decimal(&mut s, *index as u64);
            },
            AssetError::EmptyMesh { path, mesh_name } => {
                push_str(&mut s, "glTF mesh `");
                push_str(&mut s, mesh_name.as_str());
                push_str(&mut s, "` in ");
                push_str(&mut s, path.as_str());
                push_str(&mut s, " did not contain drawable geometry");
            },
        }
        assert(s@ =~= asset_error_message(*self));
        s
    }
}

// ---------------------------------------------------------------------------
// Textures
// ---------------------------------------------------------------------------

/// Decoded RGBA8 pixels.
#[derive(Debug, Clone, PartialEq, Eq)]
pub struct TextureAsset {
    pub name: String,
    pub width: u32,
    pub height: u32,
    pub rgba: Vec<u8>,
}

/// A texture as a value: name, width, height, pixel bytes.
pub type TextureView = (Seq<char>, u32, u32, Seq<u8>);

impl View for TextureAsset {
    type V = TextureView;

    open spec fn view(&self) -> TextureView {
        (self.name@, self.width, self.height, self.rgba@)
    }
}

/// Why a texture is not usable, if it is not.
pub open spec fn texture_problem(width: u32, height: u32, len: nat) -> Option<Seq<char>> {
    if width == 0 || height == 0 {
        Some("texture dimensions must be non-zero"@)
    } else if width * height * 4 > usize::MAX {
        Some("texture dimensions overflow"@)
    } else if len != width * height * 4 {
        Some("texture pixel buffer length does not match dimensions"@)
    } else {
        None
    }
}

impl TextureAsset {
    pub open spec fn spec_valid(&self) -> bool {
        texture_problem(self.width, self.height, self.rgba@.len()) is None
    }

    /// Checks that the dimensions are non-zero and that the buffer holds
    /// exactly four bytes per pixel.
    pub fn validate(&self) -> (r: Result<(), &'static str>)
        ensures
            match texture_problem(self.width, self.height, self.rgba@.len()) {
                None => r is Ok,
                Some(m) => r matches Err(e) && e@ == m,
            },
    {
        if self.width == 0 || self.height == 0 {
            return Err("texture dimensions must be non-zero");
        }
        let pixels = (self.width as usize).checked_mul(self.height as usize);
        let expected = match pixels {
            None => {
                proof {
                    assert(self.width * self.height * 4 > usize::MAX) by (nonlinear_arith)
                        requires
                            self.width * self.height > usize::MAX,
                            self.width > 0,
                            self.height > 0,
                    ;
                }
                return Err("texture dimensions overflow");
            },
            Some(p) => match p.checked_mul(4) {
                None => {
                    return Err("texture dimensions overflow");
                },
                Some(e) => e,
            },
        };
        if self.rgba.len() != expected {
            return Err("texture pixel buffer length does not match dimensions");
        }
        Ok(())
    }
}

/// A texture from raw RGBA8 pixels, rejected with an image error at path
/// `memory` when the buffer does not match the dimensions.
pub fn texture_from_rgba<S: Into<String>>(name: S, width: u32, height: u32, rgba: Vec<u8>) -> (r:
    Result<TextureAsset, AssetError>)
    ensures
        match texture_problem(width, height, rgba@.len()) {
            None => r matches Ok(t) && call_ensures(S::into, (name,), t.name) && t.width == width
                && t.height == height && t.rgba@ == rgba@,
            Some(m) => r matches Err(AssetError::Image { path, message }) && path@ == "memory"@
                && message@ == m,
        },
{
    texture_from_named_rgba(name.into(), width, height, rgba)
}

/// [`texture_from_rgba`] with the name already a `String`.
pub fn texture_from_named_rgba(name: String, width: u32, height: u32, rgba: Vec<u8>) -> (r: Result<
    TextureAsset,
    AssetError,
>)
    ensures
        match texture_problem(width, height, rgba@.len()) {
            None => r matches Ok(t) && t.name == name && t.width == width && t.height == height
                && t.rgba@ == rgba@,
            Some(m) => r matches Err(AssetError::Image { path, message }) && path@ == "memory"@
                && message@ == m,
        },
{
    let texture = TextureAsset { name, width, height, rgba };
    match texture.validate() {
        Ok(()) => Ok(texture),
        Err(message) => Err(AssetError::image("memory", message)),
    }
}

/// What the `image` crate gives for an encoded image whose file extension
/// is `extension`: its width, height and RGBA8 pixels, or the display text
/// of its error.
pub uninterp spec fn image_rgba8(bytes: Seq<u8>, extension: Option<Seq<char>>) -> Result<
    (u32, u32, Seq<u8>),
    Seq<char>,
>;

pub open spec fn opt_text(o: Option<&str>) -> Option<Seq<char>> {
    match o {
        Some(s) => Some(s@),
        None => None,
    }
}

pub open spec fn decoded_view(r: Result<(u32, u32, Vec<u8>), String>) -> Result<
    (u32, u32, Seq<u8>),
    Seq<char>,
> {
    match r {
        Ok((w, h, px)) => Ok((w, h, px@)),
        Err(e) => Err(e@),
    }
}

/// Decodes `bytes` with `image::ImageReader` the way `ImageReader::open`
/// reads a file: the format comes from the extension
/// (`ImageFormat::from_extension`), an unrecognized extension is an
/// unsupported-format error naming it, and no extension leaves the format
/// undetermined. The image is converted with `into_rgba8`. The result
/// depends on the bytes and the extension alone and is only named.
#[verifier::external_body]
fn decode_image_rgba8(bytes: &[u8], extension: Option<&str>) -> (r: Result<(u32, u32, Vec<u8>), String>)
    ensures
        decoded_view(r) == image_rgba8(bytes@, opt_text(extension)),
{
    let mut reader = image::ImageReader::new(std::io::Cursor::new(bytes));
    if let Some(ext) = extension {
        match image::ImageFormat::from_extension(ext) {
            Some(format) => reader.set_format(format),
            None => return Err(image::ImageError::Unsupported(
                image::error::ImageFormatHint::PathExtension(ext.into()).into(),
            ).to_string()),
        }
    }
    let image = match reader.decode() {
        Ok(image) => image,
        Err(error) => return Err(error.to_string()),
    };
    let rgba = image.into_rgba8();
    Ok((rgba.width(), rgba.height(), rgba.into_raw()))
}

/// The texture a decode result gives: named after the file stem (or
/// `texture` when there is none) with the decoded size and pixels; a
/// decode error becomes an image error at `path`.
pub fn texture_from_decoded(
    decoded: Result<(u32, u32, Vec<u8>), String>,
    stem: Option<&str>,
    path: &str,
) -> (r: Result<TextureAsset, AssetError>)
    ensures
        match decoded_view(decoded) {
            Ok((w, h, px)) => r matches Ok(t) && t.name@ == (match stem {
                Some(s) => s@,
                None => "texture"@,
            }) && t.width == w && t.height == h && t.rgba@ == px,
            Err(m) => r matches Err(AssetError::Image { path: p, message }) && p@ == path@
                && message@ == m,
        },
{
    match decoded {
        Ok((width, height, rgba)) => {
            let name = match stem {
                Some(s) => s.to_owned(),
                None => {
                    proof {
                        reveal_strlit("texture");
                    }
                    "texture".to_owned()
                },
            };
            Ok(TextureAsset { name, width, height, rgba })
        },
        Err(message) => Err(AssetError::Image { path: path.to_owned(), message }),
    }
}

/// A texture from an encoded image file's bytes: decoded by the `image`
/// crate according to the file's extension, converted to RGBA8, and named
/// after the file stem (`texture` when there is none). A decode failure is
/// an image error at `path` carrying the decoder's message.
pub fn texture_from_encoded(bytes: &[u8], extension: Option<&str>, stem: Option<&str>, path: &str) -> (r:
    Result<TextureAsset, AssetError>)
    ensures
        match image_rgba8(bytes@, opt_text(extension)) {
            Ok((w, h, px)) => r matches Ok(t) && t.name@ == (match stem {
                Some(s) => s@,
                None => "texture"@,
            }) && t.width == w && t.height == h && t.rgba@ == px,
            Err(m) => r matches Err(AssetError::Image { path: p, message }) && p@ == path@
                && message@ == m,
        },
{
    texture_from_decoded(decode_image_rgba8(bytes, extension), stem, path)
}

// ---------------------------------------------------------------------------
// Materials and meshes
// ---------------------------------------------------------------------------

/// Bit pattern of the `f32` value 1.0.
pub const F32_ONE_BITS: u32 = 0x3f80_0000;

/// A PBR material. Factors are `f32` bit patterns.
#[derive(Debug, Clone, PartialEq, Eq)]
pub struct MaterialAsset {
    pub name: String,
    pub base_color_texture: Option<TextureHandle>,
    pub normal_texture: Option<TextureHandle>,
    pub base_color_factor_bits: [u32; 4],
    pub metallic_factor_bits: u32,
    pub roughness_factor_bits: u32,
}

/// A material as a value: name, base-color and normal textures, the four
/// base-color factor bit patterns, metallic and roughness bit patterns.
pub type MaterialView = (Seq<char>, Option<TextureHandle>, Option<TextureHandle>, Seq<u32>, u32, u32);

impl View for MaterialAsset {
    type V = MaterialView;

    open spec fn view(&self) -> MaterialView {
        (
            self.name@,
            self.base_color_texture,
            self.normal_texture,
            self.base_color_factor_bits@,
            self.metallic_factor_bits,
            self.roughness_factor_bits,
        )
    }
}

impl MaterialAsset {
    /// A metallic-roughness material without textures.
    pub fn pbr(name: String, color_bits: [u32; 4], metallic_bits: u32, roughness_bits: u32) -> (r:
        MaterialAsset)
        ensures
            r.name == name,
            r.base_color_texture is None,
            r.normal_texture is None,
            r.base_color_factor_bits == color_bits,
            r.metallic_factor_bits == metallic_bits,
            r.roughness_factor_bits == roughness_bits,
    {
        MaterialAsset {
            name,
            base_color_texture: None,
            normal_texture: None,
            base_color_factor_bits: color_bits,
            metallic_factor_bits: metallic_bits,
            roughness_factor_bits: roughness_bits,
        }
    }

    /// A flat-colored material: metallic 0.0, roughness 1.0, no textures.
    pub fn unlit(name: String, color_bits: [u32; 4]) -> (r: MaterialAsset)
        ensures
            r.name == name,
            r.base_color_texture is None,
            r.normal_texture is None,
            r.base_color_factor_bits == color_bits,
            r.metallic_factor_bits == 0,
            r.roughness_factor_bits == F32_ONE_BITS,
    {
        MaterialAsset {
            name,
            base_color_texture: None,
            normal_texture: None,
            base_color_factor_bits: color_bits,
            metallic_factor_bits: 0,
            roughness_factor_bits: F32_ONE_BITS,
        }
    }
}

/// One mesh vertex; every attribute component is an `f32` bit pattern.
#[derive(Debug, Clone, Copy, PartialEq, Eq)]
pub struct MeshVertex {
    pub position: [u32; 3],
    pub normal: [u32; 3],
    pub uv: [u32; 2],
    pub tangent: [u32; 4],
}

/// The twelve attribute words of a vertex: position, normal, uv, tangent.
pub open spec fn vertex_words(v: MeshVertex) -> Seq<u32> {
    v.position@ + v.normal@ + v.uv@ + v.tangent@
}

/// Indexed triangle geometry with its material.
#[derive(Debug, Clone, PartialEq)]
pub struct MeshAsset {
    pub name: String,
    pub vertices: Vec<MeshVertex>,
    pub indices: Vec<u32>,
    pub material: MaterialHandle,
}

/// A mesh as a value: name, the words of each vertex, indices, material.
pub type MeshView = (Seq<char>, Seq<Seq<u32>>, Seq<u32>, MaterialHandle);

impl View for MeshAsset {
    type V = MeshView;

    open spec fn view(&self) -> MeshView {
        (self.name@, self.vertices@.map_values(|v: MeshVertex| vertex_words(v)), self.indices@, self.material)
    }
}

/// Why a mesh is not usable, if it is not.
pub open spec fn mesh_problem(vertex_count: nat, index_count: nat) -> Option<Seq<char>> {
    if vertex_count == 0 {
        Some("mesh must contain at least one vertex"@)
    } else if index_count == 0 {
        Some("mesh must contain at least one index"@)
    } else {
        None
    }
}

/// Coordinate `c` of the running minimum of the vertex positions, starting
/// from `+inf` and folding in each position with `Vec3::min`
/// (`if acc < p { acc } else { p }` per coordinate).
pub open spec fn coord_min(vs: Seq<MeshVertex>, c: int) -> u32
    decreases vs.len(),
{
    if vs.len() == 0 {
        F32_INFINITY_BITS
    } else {
        f32_min(coord_min(vs.drop_last(), c), vs.last().position@[c])
    }
}

/// Coordinate `c` of the running maximum of the vertex positions, starting
/// from `-inf` and folding in each position with `Vec3::max`
/// (`if acc > p { acc } else { p }` per coordinate).
pub open spec fn coord_max(vs: Seq<MeshVertex>, c: int) -> u32
    decreases vs.len(),
{
    if vs.len() == 0 {
        F32_NEG_INFINITY_BITS
    } else {
        f32_max(coord_max(vs.drop_last(), c), vs.last().position@[c])
    }
}

pub open spec fn aabb_min(vs: Seq<MeshVertex>) -> Seq<u32> {
    seq![coord_min(vs, 0), coord_min(vs, 1), coord_min(vs, 2)]
}

pub open spec fn aabb_max(vs: Seq<MeshVertex>) -> Seq<u32> {
    seq![coord_max(vs, 0), coord_max(vs, 1), coord_max(vs, 2)]
}

fn bits_min(a: u32, b: u32) -> (r: u32)
    ensures
        r == f32_min(a, b),
{
    if f32_less(a, b) {
        a
    } else {
        b
    }
}

fn bits_max(a: u32, b: u32) -> (r: u32)
    ensures
        r == f32_max(a, b),
{
    if f32_less(b, a) {
        a
    } else {
        b
    }
}

impl MeshAsset {
    /// The local-space bounding box `(min, max)` of the vertex positions,
    /// as `f32` bits. It is `None` when the minimum's x is infinite, which
    /// is the case for a mesh without vertices.
    pub fn local_aabb(&self) -> (r: Option<([u32; 3], [u32; 3])>)
        ensures
            match r {
                None => f32_is_infinite(coord_min(self.vertices@, 0)),
                Some((mn, mx)) => !f32_is_infinite(coord_min(self.vertices@, 0)) && mn@ == aabb_min(
                    self.vertices@,
                ) && mx@ == aabb_max(self.vertices@),
            },
    {
        let mut mn: [u32; 3] = [F32_INFINITY_BITS, F32_INFINITY_BITS, F32_INFINITY_BITS];
        let mut mx: [u32; 3] = [F32_NEG_INFINITY_BITS, F32_NEG_INFINITY_BITS, F32_NEG_INFINITY_BITS];
        let n = self.vertices.len();
        let mut i: usize = 0;
        assert(self.vertices@.take(0) =~= Seq::<MeshVertex>::empty());
        while i < n
            invariant
                i <= n,
                n == self.vertices@.len(),
                mn@ == aabb_min(self.vertices@.take(i as int)),
                mx@ == aabb_max(self.vertices@.take(i as int)),
            decreases n - i,
        {
            let p = self.vertices[i].position;
            let ghost before = self.vertices@.take(i as int);
            let ghost after = self.vertices@.take(i + 1);
            mn = [bits_min(mn[0], p[0]), bits_min(mn[1], p[1]), bits_min(mn[2], p[2])];
            mx = [bits_max(mx[0], p[0]), bits_max(mx[1], p[1]), bits_max(mx[2], p[2])];
            assert(after.drop_last() =~= before);
            assert(after.last() == self.vertices@[i as int]);
            assert(mn@ =~= aabb_min(after));
            assert(mx@ =~= aabb_max(after));
            i = i + 1;
        }
        assert(self.vertices@.take(n as int) =~= self.vertices@);
        if mn[0] % 0x8000_0000 == 0x7f80_0000 {
            None
        } else {
            Some((mn, mx))
        }
    }

    pub open spec fn spec_valid(&self) -> bool {
        mesh_problem(self.vertices@.len(), self.indices@.len()) is None
    }

    /// Checks that the mesh has at least one vertex and one index.
    pub fn validate(&self) -> (r: Result<(), &'static str>)
        ensures
            match mesh_problem(self.vertices@.len(), self.indices@.len()) {
                None => r is Ok,
                Some(m) => r matches Err(e) && e@ == m,
            },
    {
        if self.vertices.len() == 0 {
            return Err("mesh must contain at least one vertex");
        }
        if self.indices.len() == 0 {
            return Err("mesh must contain at least one index");
        }
        Ok(())
    }
}

// ---------------------------------------------------------------------------
// The registry
// ---------------------------------------------------------------------------

/// Owns every loaded mesh, texture and material; handles index into it in
/// insertion order.
#[derive(Debug)]
pub struct AssetRegistry {
    meshes: Vec<MeshAsset>,
    textures: Vec<TextureAsset>,
    materials: Vec<MaterialAsset>,
}

impl Default for AssetRegistry {
    /// An empty registry.
    fn default() -> (r: AssetRegistry)
        ensures
            r.wf(),
            r.spec_meshes() == Seq::<MeshAsset>::empty(),
            r.spec_textures() == Seq::<TextureAsset>::empty(),
            r.spec_materials() == Seq::<MaterialAsset>::empty(),
    {
        AssetRegistry::new()
    }
}

impl AssetRegistry {
    pub closed spec fn spec_meshes(&self) -> Seq<MeshAsset> {
        self.meshes@
    }

    pub closed spec fn spec_textures(&self) -> Seq<TextureAsset> {
        self.textures@
    }

    pub closed spec fn spec_materials(&self) -> Seq<MaterialAsset> {
        self.materials@
    }

    /// The registry's contents as values: meshes, textures, materials.
    pub open spec fn spec_view(&self) -> (Seq<MeshView>, Seq<TextureView>, Seq<MaterialView>) {
        (
            self.spec_meshes().map_values(|m: MeshAsset| m@),
            self.spec_textures().map_values(|t: TextureAsset| t@),
            self.spec_materials().map_values(|m: MaterialAsset| m@),
        )
    }

    /// Every stored mesh and texture passed validation.
    pub open spec fn wf(&self) -> bool {
        &&& forall|i: int|
            0 <= i < self.spec_meshes().len() ==> (#[trigger] self.spec_meshes()[i]).spec_valid()
        &&& forall|i: int|
            0 <= i < self.spec_textures().len() ==> (#[trigger] self.spec_textures()[i]).spec_valid()
    }

    pub fn new() -> (r: AssetRegistry)
        ensures
            r.wf(),
            r.spec_meshes() == Seq::<MeshAsset>::empty(),
            r.spec_textures() == Seq::<TextureAsset>::empty(),
            r.spec_materials() == Seq::<MaterialAsset>::empty(),
    {
        AssetRegistry { meshes: Vec::new(), textures: Vec::new(), materials: Vec::new() }
    }

    /// Validates and stores a mesh; its handle is the previous mesh count
    /// (as a `u32`). An invalid mesh is reported as a glTF error at path
    /// `mesh` and nothing is stored.
    pub fn insert_mesh(&mut self, mesh: MeshAsset) -> (r: Result<MeshHandle, AssetError>)
        requires
            old(self).wf(),
        ensures
            final(self).wf(),
            final(self).spec_textures() == old(self).spec_textures(),
            final(self).spec_materials() == old(self).spec_materials(),
            match mesh_problem(mesh.vertices@.len(), mesh.indices@.len()) {
                None => r matches Ok(h) && h.spec_index() == old(self).spec_meshes().len()
                    % 0x1_0000_0000 && final(self).spec_meshes() == old(self).spec_meshes().push(
                    mesh,
                ),
                Some(m) => r matches Err(AssetError::Gltf { path, message }) && path@ == "mesh"@
                    && message@ == m && final(self).spec_meshes() == old(self).spec_meshes(),
            },
    {
        match mesh.validate() {
            Err(message) => Err(AssetError::gltf("mesh", message)),
            Ok(()) => {
                let index = self.meshes.len();
                self.meshes.push(mesh);
                proof {
                    assert(self.spec_textures() == old(self).spec_textures());
                    assert forall|i: int| 0 <= i < self.spec_meshes().len() implies (
                    #[trigger] self.spec_meshes()[i]).spec_valid() by {
                        if i < old(self).spec_meshes().len() {
                            assert(self.spec_meshes()[i] == old(self).spec_meshes()[i]);
                        }
                    }
                }
                Ok(Handle::new(((index as u64) % 0x1_0000_0000) as u32))
            },
        }
    }

    /// Validates and stores a texture; its handle is the previous texture
    /// count (as a `u32`). An invalid texture is reported as an image error
    /// at path `texture` and nothing is stored.
    pub fn insert_texture(&mut self, texture: TextureAsset) -> (r: Result<
        TextureHandle,
        AssetError,
    >)
        requires
            old(self).wf(),
        ensures
            final(self).wf(),
            final(self).spec_meshes() == old(self).spec_meshes(),
            final(self).spec_materials() == old(self).spec_materials(),
            match texture_problem(texture.width, texture.height, texture.rgba@.len()) {
                None => r matches Ok(h) && h.spec_index() == old(self).spec_textures().len()
                    % 0x1_0000_0000 && final(self).spec_textures() == old(
                    self,
                ).spec_textures().push(texture),
                Some(m) => r matches Err(AssetError::Image { path, message }) && path@
                    == "texture"@ && message@ == m && final(self).spec_textures() == old(
                    self,
                ).spec_textures(),
            },
    {
        match texture.validate() {
            Err(message) => Err(AssetError::image("texture", message)),
            Ok(()) => {
                let index = self.textures.len();
                self.textures.push(texture);
                proof {
                    assert(self.spec_meshes() == old(self).spec_meshes());
                    assert forall|i: int| 0 <= i < self.spec_textures().len() implies (
                    #[trigger] self.spec_textures()[i]).spec_valid() by {
                        if i < old(self).spec_textures().len() {
                            assert(self.spec_textures()[i] == old(self).spec_textures()[i]);
                        }
                    }
                }
                Ok(Handle::new(((index as u64) % 0x1_0000_0000) as u32))
            },
        }
    }

    /// Stores a material; its handle is the previous material count (as a
    /// `u32`).
    pub fn insert_material(&mut self, material: MaterialAsset) -> (r: MaterialHandle)
        requires
            old(self).wf(),
        ensures
            final(self).wf(),
            final(self).spec_meshes() == old(self).spec_meshes(),
            final(self).spec_textures() == old(self).spec_textures(),
            final(self).spec_materials() == old(self).spec_materials().push(material),
            r.spec_index() == old(self).spec_materials().len() % 0x1_0000_0000,
    {
        let index = self.materials.len();
        self.materials.push(material);
        assert(self.spec_meshes() == old(self).spec_meshes());
        assert(self.spec_textures() == old(self).spec_textures());
        Handle::new(((index as u64) % 0x1_0000_0000) as u32)
    }

    /// The mesh a handle refers to, or an invalid-handle error.
    pub fn mesh(&self, handle: MeshHandle) -> (r: Result<&MeshAsset, AssetError>)
        ensures
            handle.spec_index() < self.spec_meshes().len() ==> (r matches Ok(m) && *m
                == self.spec_meshes()[handle.spec_index() as int]),
            handle.spec_index() >= self.spec_meshes().len() ==> (r matches Err(
                AssetError::InvalidHandle { kind, index },
            ) && kind@ == "mesh"@ && index == handle.spec_index()),
    {
        let i = handle.index();
        if (i as usize) < self.meshes.len() {
            Ok(&self.meshes[i as usize])
        } else {
            Err(AssetError::InvalidHandle { kind: "mesh", index: i })
        }
    }

    /// The texture a handle refers to, or an invalid-handle error.
    pub fn texture(&self, handle: TextureHandle) -> (r: Result<&TextureAsset, AssetError>)
        ensures
            handle.spec_index() < self.spec_textures().len() ==> (r matches Ok(t) && *t
                == self.spec_textures()[handle.spec_index() as int]),
            handle.spec_index() >= self.spec_textures().len() ==> (r matches Err(
                AssetError::InvalidHandle { kind, index },
            ) && kind@ == "texture"@ && index == handle.spec_index()),
    {
        let i = handle.index();
        if (i as usize) < self.textures.len() {
            Ok(&self.textures[i as usize])
        } else {
            Err(AssetError::InvalidHandle { kind: "texture", index: i })
        }
    }

    /// The material a handle refers to, or an invalid-handle error.
    pub fn material(&self, handle: MaterialHandle) -> (r: Result<&MaterialAsset, AssetError>)
        ensures
            handle.spec_index() < self.spec_materials().len() ==> (r matches Ok(m) && *m
                == self.spec_materials()[handle.spec_index() as int]),
            handle.spec_index() >= self.spec_materials().len() ==> (r matches Err(
                AssetError::InvalidHandle { kind, index },
            ) && kind@ == "material"@ && index == handle.spec_index()),
    {
        let i = handle.index();
        if (i as usize) < self.materials.len() {
            Ok(&self.materials[i as usize])
        } else {
            Err(AssetError::InvalidHandle { kind: "material", index: i })
        }
    }

    pub fn meshes(&self) -> (r: &[MeshAsset])
        ensures
            r@ == self.spec_meshes(),
    {
        self.meshes.as_slice()
    }

    pub fn textures(&self) -> (r: &[TextureAsset])
        ensures
            r@ == self.spec_textures(),
    {
        self.textures.as_slice()
    }

    pub fn materials(&self) -> (r: &[MaterialAsset])
        ensures
            r@ == self.spec_materials(),
    {
        self.materials.as_slice()
    }
}

/// A texture handed out by `insert_texture` resolves to that texture, as
/// long as fewer than `u32::MAX` textures were stored before it; the
/// same holds for meshes and materials.
pub proof fn law_inserted_handle_resolves(before: Seq<TextureAsset>, t: TextureAsset, h: TextureHandle)
    requires
        before.len() < u32::MAX,
        h.spec_index() == before.len() % 0x1_0000_0000,
    ensures
        h.spec_index() < before.push(t).len(),
        before.push(t)[h.spec_index() as int] == t,
{
}

} // verus!
