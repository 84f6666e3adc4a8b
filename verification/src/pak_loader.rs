//! Loading a cooked `.pak` image into an [`AssetRegistry`].
//!
//! Cooked data is already in the runtime's layout, so loading is a matter of
//! splitting the container into entries and decoding each entry's payload:
//!
//! - texture (`CookedAssetKind::Texture`): `[width: u32][height: u32][rgba bytes]`
//! - material (`CookedAssetKind::Material`): `[base color: 4 x f32][metallic: f32][roughness: f32]`
//!   `[base color texture index: u32][normal texture index: u32]`, where
//!   `u32::MAX` means "no texture"
//! - mesh (`CookedAssetKind::Mesh`): `[material index: u32][vertex count: u32][vertices: 12 x f32 each]`
//!   `[index count: u32][indices: u32 each]`
//!
//! Textures are registered first, then materials, then meshes; shader
//! entries and unknown kinds are skipped.
use crate::assets::{
    mesh_problem, texture_problem, vertex_words, AssetError, AssetRegistry, MaterialAsset,
    MaterialHandle, MaterialView, MeshAsset, MeshVertex, MeshView, TextureAsset, TextureHandle,
    TextureView,
};
use crate::bytes::{copy_range, read_u32_le, read_u64_le, u32_of_le, u64_of_le};
use crate::pak::{string_from_utf8, utf8_error_text};
use crate::text::{decimal, push_decimal, push_str};
use vstd::prelude::*;
use vstd::utf8::{decode_utf8, valid_utf8};

verus! {

/// One container entry before decoding: kind byte, name, payload.
pub type RawEntryView = (u8, Seq<char>, Seq<u8>);

#[verifier::opaque]
pub open spec fn truncated_msg(offset: nat, need: nat, have: nat) -> Seq<char> {
    "truncated pak data at offset "@ + decimal(offset) + " (need "@ + decimal(need) + ", have "@
        + decimal(have) + ")"@
}

/// The end of the `n`-byte span at `pos` in an input of length `len`, or
/// the truncation message.
pub open spec fn take_span(len: int, pos: int, n: int) -> Result<int, Seq<char>> {
    if pos + n > len {
        Err(truncated_msg(pos as nat, n as nat, (len - pos) as nat))
    } else {
        Ok(pos + n)
    }
}

/// Reads one entry at `pos`: kind byte, name length, name, data length, data.
pub open spec fn parse_raw_entry(b: Seq<u8>, pos: int) -> Result<(RawEntryView, int), Seq<char>> {
    match take_span(b.len() as int, pos, 1) {
        Err(m) => Err(m),
        Ok(p1) => match take_span(b.len() as int, p1, 4) {
            Err(m) => Err(m),
            Ok(p2) => {
                let name_len = u32_of_le(b.subrange(p1, p2));
                match take_span(b.len() as int, p2, name_len as int) {
                    Err(m) => Err(m),
                    Ok(p3) => {
                        let name = b.subrange(p2, p3);
                        if !valid_utf8(name) {
                            Err("invalid asset name UTF-8: "@ + utf8_error_text(name))
                        } else {
                            match take_span(b.len() as int, p3, 8) {
                                Err(m) => Err(m),
                                Ok(p4) => {
                                    let data_len = u64_of_le(b.subrange(p3, p4));
                                    match take_span(b.len() as int, p4, data_len as int) {
                                        Err(m) => Err(m),
                                        Ok(p5) => Ok(
                                            ((b[pos], decode_utf8(name), b.subrange(p4, p5)), p5),
                                        ),
                                    }
                                },
                            }
                        }
                    },
                }
            },
        },
    }
}

pub open spec fn parse_raw_entries(b: Seq<u8>, pos: int, n: nat) -> Result<
    (Seq<RawEntryView>, int),
    Seq<char>,
>
    decreases n,
{
    if n == 0 {
        Ok((Seq::empty(), pos))
    } else {
        match parse_raw_entry(b, pos) {
            Err(m) => Err(m),
            Ok((e, next)) => match parse_raw_entries(b, next, (n - 1) as nat) {
                Err(m) => Err(m),
                Ok((rest, end)) => Ok((seq![e] + rest, end)),
            },
        }
    }
}

/// The header checks, then all entries.
pub open spec fn parse_raw_pak(b: Seq<u8>) -> Result<Seq<RawEntryView>, Seq<char>> {
    if b.len() < 12 {
        Err("pak file too short"@)
    } else if b.subrange(0, 4) != crate::pak::pak_magic() {
        Err(crate::pak::pak_error_message(crate::pak::PakFault::InvalidMagic(b[0], b[1], b[2], b[3])))
    } else if u32_of_le(b.subrange(4, 8)) != 1 {
        Err("unsupported pak version: "@ + decimal(u32_of_le(b.subrange(4, 8)) as nat))
    } else {
        match parse_raw_entries(b, 12, u32_of_le(b.subrange(8, 12)) as nat) {
            Err(m) => Err(m),
            Ok((es, _)) => Ok(es),
        }
    }
}

/// `prefix'name'suffix`.
pub open spec fn quoted_spec(prefix: Seq<char>, name: Seq<char>, suffix: Seq<char>) -> Seq<char> {
    prefix + "'"@ + name + "'"@ + suffix
}

/// The `n` little-endian words of `b` starting at `start`.
pub open spec fn words_at(b: Seq<u8>, start: int, n: nat) -> Seq<u32> {
    Seq::new(n, |k: int| u32_of_le(b.subrange(start + 4 * k, start + 4 * k + 4)))
}

#[verifier::opaque]
pub open spec fn decode_texture_spec(name: Seq<char>, d: Seq<u8>) -> Result<TextureView, Seq<char>> {
    if d.len() < 8 {
        Err(quoted_spec("texture "@, name, " data too short"@))
    } else {
        let w = u32_of_le(d.subrange(0, 4));
        let h = u32_of_le(d.subrange(4, 8));
        let rgba = d.subrange(8, d.len() as int);
        match texture_problem(w, h, rgba.len()) {
            Some(m) => Err(quoted_spec("texture "@, name, ": "@) + m),
            None => Ok((name, w, h, rgba)),
        }
    }
}

/// The texture a stored index refers to, given `count` loaded textures.
pub open spec fn texture_ref(index: u32, count: nat) -> Option<TextureHandle> {
    if index != u32::MAX && index < count {
        Some(TextureHandle::spec_new(index))
    } else {
        None
    }
}

#[verifier::opaque]
pub open spec fn decode_material_spec(name: Seq<char>, d: Seq<u8>, texture_count: nat) -> Result<
    MaterialView,
    Seq<char>,
> {
    if d.len() < 32 {
        Err(quoted_spec("material "@, name, " data too short: "@) + decimal(d.len()))
    } else {
        let w = words_at(d, 0, 8);
        Ok((name, texture_ref(w[6], texture_count), texture_ref(w[7], texture_count), w.take(4), w[4], w[5]))
    }
}

/// Byte length of `n` cooked vertices.
pub open spec fn vertex_bytes(n: nat) -> nat {
    n * 48
}

#[verifier::opaque]
pub open spec fn decode_mesh_spec(name: Seq<char>, d: Seq<u8>) -> Result<MeshView, Seq<char>> {
    if d.len() < 8 {
        Err(quoted_spec("mesh "@, name, " data too short"@))
    } else {
        let material = u32_of_le(d.subrange(0, 4));
        let vertex_count = u32_of_le(d.subrange(4, 8));
        let vlen = vertex_bytes(vertex_count as nat);
        if d.len() < 8 + vlen {
            Err(quoted_spec("mesh "@, name, ": "@) + "vertex data truncated (need "@ + decimal(vlen)
                + " bytes, have "@ + decimal((d.len() - 8) as nat) + ")"@)
        } else {
            let vertices = Seq::new(vertex_count as nat, |i: int| words_at(d, 8 + 48 * i, 12));
            let off = 8 + vlen as int;
            if d.len() < off + 4 {
                Err(quoted_spec("mesh "@, name, ": missing index count"@))
            } else {
                let index_count = u32_of_le(d.subrange(off as int, off + 4));
                let ilen = index_count * 4;
                let off2 = off + 4;
                if d.len() < off2 + ilen {
                    Err(quoted_spec("mesh "@, name, ": "@) + "index data truncated (need "@ + decimal(
                        ilen as nat,
                    ) + " bytes, have "@ + decimal((d.len() - off2) as nat) + ")"@)
                } else {
                    let indices = words_at(d, off2 as int, index_count as nat);
                    match mesh_problem(vertex_count as nat, index_count as nat) {
                        Some(m) => Err("failed to load glTF at mesh: "@ + m),
                        None => Ok((name, vertices, indices, MaterialHandle::spec_new(material))),
                    }
                }
            }
        }
    }
}

/// Decodes every texture entry, in order.
pub open spec fn decode_textures(es: Seq<RawEntryView>) -> Result<Seq<TextureView>, Seq<char>>
    decreases es.len(),
{
    if es.len() == 0 {
        Ok(Seq::empty())
    } else if es[0].0 != 2 {
        decode_textures(es.drop_first())
    } else {
        match decode_texture_spec(es[0].1, es[0].2) {
            Err(m) => Err(m),
            Ok(t) => match decode_textures(es.drop_first()) {
                Err(m) => Err(m),
                Ok(ts) => Ok(seq![t] + ts),
            },
        }
    }
}

/// Decodes every material entry, in order.
pub open spec fn decode_materials(es: Seq<RawEntryView>, texture_count: nat) -> Result<
    Seq<MaterialView>,
    Seq<char>,
>
    decreases es.len(),
{
    if es.len() == 0 {
        Ok(Seq::empty())
    } else if es[0].0 != 4 {
        decode_materials(es.drop_first(), texture_count)
    } else {
        match decode_material_spec(es[0].1, es[0].2, texture_count) {
            Err(m) => Err(m),
            Ok(t) => match decode_materials(es.drop_first(), texture_count) {
                Err(m) => Err(m),
                Ok(ts) => Ok(seq![t] + ts),
            },
        }
    }
}

/// Decodes every mesh entry, in order.
pub open spec fn decode_meshes(es: Seq<RawEntryView>) -> Result<Seq<MeshView>, Seq<char>>
    decreases es.len(),
{
    if es.len() == 0 {
        Ok(Seq::empty())
    } else if es[0].0 != 1 {
        decode_meshes(es.drop_first())
    } else {
        match decode_mesh_spec(es[0].1, es[0].2) {
            Err(m) => Err(m),
            Ok(t) => match decode_meshes(es.drop_first()) {
                Err(m) => Err(m),
                Ok(ts) => Ok(seq![t] + ts),
            },
        }
    }
}

/// What loading a cooked image yields: the registry contents (meshes,
/// textures, materials) or the message of the first failure.
pub open spec fn spec_load_pak(b: Seq<u8>) -> Result<
    (Seq<MeshView>, Seq<TextureView>, Seq<MaterialView>),
    Seq<char>,
> {
    match parse_raw_pak(b) {
        Err(m) => Err(m),
        Ok(es) => match decode_textures(es) {
            Err(m) => Err(m),
            Ok(ts) => match decode_materials(es, ts.len()) {
                Err(m) => Err(m),
                Ok(ms) => match decode_meshes(es) {
                    Err(m) => Err(m),
                    Ok(meshes) => Ok((meshes, ts, ms)),
                },
            },
        },
    }
}

// ---------------------------------------------------------------------------
// Executable decoding
// ---------------------------------------------------------------------------

struct RawEntry {
    kind: u8,
    name: String,
    data: Vec<u8>,
}

impl View for RawEntry {
    type V = RawEntryView;

    closed spec fn view(&self) -> RawEntryView {
        (self.kind, self.name@, self.data@)
    }
}

fn truncated_message(offset: u64, need: u64, have: u64) -> (r: String)
    ensures
        r@ == truncated_msg(offset as nat, need as nat, have as nat),
{
    reveal(truncated_msg);
    let mut s = String::new();
    push_str(&mut s, "truncated pak data at offset ");
    push_decimal(&mut s, offset);
    push_str(&mut s, " (need ");
    push_decimal(&mut s, need);
    push_str(&mut s, ", have ");
    push_decimal(&mut s, have);
    push_str(&mut s, ")");
    s
}

fn take(len: usize, pos: usize, n: u64) -> (r: Result<usize, String>)
    requires
        pos <= len,
    ensures
        match take_span(len as int, pos as int, n as int) {
            Ok(e) => r matches Ok(x) && x == e,
            Err(m) => r matches Err(s) && s@ == m,
        },
{
    let have = len - pos;
    if n > have as u64 {
        Err(truncated_message(pos as u64, n, have as u64))
    } else {
        Ok(pos + n as usize)
    }
}

fn parse_entry(data: &[u8], pos: usize) -> (r: Result<(RawEntry, usize), String>)
    requires
        pos <= data@.len(),
    ensures
        match parse_raw_entry(data@, pos as int) {
            Ok((e, next)) => r matches Ok((x, n)) && x@ == e && n == next && n <= data@.len(),
            Err(m) => r matches Err(s) && s@ == m,
        },
{
    let len = data.len();
    let p1 = take(len, pos, 1)?;
    let kind = data[pos];
    let p2 = take(len, p1, 4)?;
    let name_len = read_u32_le(data, p1);
    let p3 = take(len, p2, name_len as u64)?;
    let name = match string_from_utf8(copy_range(data, p2, p3)) {
        Err(text) => {
            let mut m = crate::text::owned("invalid asset name UTF-8: ");
            push_str(&mut m, text.as_str());
            return Err(m);
        },
        Ok(s) => s,
    };
    let p4 = take(len, p3, 8)?;
    let data_len = read_u64_le(data, p3);
    let p5 = take(len, p4, data_len)?;
    Ok((RawEntry { kind, name, data: copy_range(data, p4, p5) }, p5))
}

fn parse_entries(data: &[u8]) -> (r: Result<Vec<RawEntry>, String>)
    ensures
        match parse_raw_pak(data@) {
            Ok(es) => r matches Ok(v) && v@.map_values(|x: RawEntry| x@) == es,
            Err(m) => r matches Err(s) && s@ == m,
        },
{
    let len = data.len();
    if len < 12 {
        return Err(crate::text::owned("pak file too short"));
    }
    if !(data[0] == 0x50 && data[1] == 0x49 && data[2] == 0x45 && data[3] == 0x00) {
        proof {
            if data@.subrange(0, 4) == crate::pak::pak_magic() {
                assert(data@.subrange(0, 4)[0] == data@[0]);
                assert(data@.subrange(0, 4)[1] == data@[1]);
                assert(data@.subrange(0, 4)[2] == data@[2]);
                assert(data@.subrange(0, 4)[3] == data@[3]);
            }
        }
        return Err(crate::pak::PakError::InvalidMagic(data[0], data[1], data[2], data[3]).to_string());
    }
    assert(data@.subrange(0, 4) =~= crate::pak::pak_magic());
    let version = read_u32_le(data, 4);
    if version != 1 {
        let mut s = String::new();
        push_str(&mut s, "unsupported pak version: ");
        push_decimal(&mut s, version as u64);
        return Err(s);
    }
    let count = read_u32_le(data, 8);
    let mut entries: Vec<RawEntry> = Vec::new();
    let mut pos: usize = 12;
    let mut i: u32 = 0;
    while i < count
        invariant
            len == data@.len(),
            12 <= pos <= len,
            i <= count,
            parse_raw_pak(data@) == match parse_raw_entries(data@, 12, count as nat) {
                Err(m) => Err(m),
                Ok((s, _)) => Ok::<Seq<RawEntryView>, Seq<char>>(s),
            },
            parse_raw_entries(data@, 12, count as nat) == match parse_raw_entries(
                data@,
                pos as int,
                (count - i) as nat,
            ) {
                Err(m) => Err(m),
                Ok((rest, end)) => Ok((entries@.map_values(|x: RawEntry| x@) + rest, end)),
            },
        decreases count - i,
    {
        let (entry, next) = parse_entry(data, pos)?;
        let ghost old_entries = entries@;
        let ghost e = entry@;
        entries.push(entry);
        proof {
            assert(entries@.map_values(|x: RawEntry| x@) =~= old_entries.map_values(
                |x: RawEntry| x@,
            ) + seq![e]);
            match parse_raw_entries(data@, next as int, (count - i - 1) as nat) {
                Err(m) => {},
                Ok((rest, end)) => {
                    assert(old_entries.map_values(|x: RawEntry| x@) + (seq![e] + rest)
                        =~= entries@.map_values(|x: RawEntry| x@) + rest);
                },
            }
        }
        pos = next;
        i = i + 1;
    }
    proof {
        assert(entries@.map_values(|x: RawEntry| x@) + Seq::<RawEntryView>::empty()
            =~= entries@.map_values(|x: RawEntry| x@));
    }
    Ok(entries)
}

fn quoted(prefix: &str, name: &String, suffix: &str) -> (r: String)
    ensures
        r@ == quoted_spec(prefix@, name@, suffix@),
{
    let mut s = String::new();
    push_str(&mut s, prefix);
    push_str(&mut s, "'");
    push_str(&mut s, name.as_str());
    push_str(&mut s, "'");
    push_str(&mut s, suffix);
    s
}

fn decode_texture(name: &String, d: &Vec<u8>) -> (r: Result<TextureAsset, String>)
    ensures
        r matches Ok(x) ==> x.spec_valid(),
        match decode_texture_spec(name@, d@) {
            Ok(t) => r matches Ok(x) && x@ == t,
            Err(m) => r matches Err(s) && s@ == m,
        },
{
    reveal(decode_texture_spec);
    if d.len() < 8 {
        let s = quoted("texture ", name, " data too short");
        return Err(s);
    }
    let width = read_u32_le(d.as_slice(), 0);
    let height = read_u32_le(d.as_slice(), 4);
    let rgba = copy_range(d.as_slice(), 8, d.len());
    let texture = TextureAsset { name: name.clone(), width, height, rgba };
    match texture.validate() {
        Err(message) => {
            let mut s = quoted("texture ", name, ": ");
            push_str(&mut s, message);
            Err(s)
        },
        Ok(()) => Ok(texture),
    }
}

fn texture_ref_exec(index: u32, count: usize) -> (r: Option<TextureHandle>)
    ensures
        r == texture_ref(index, count as nat),
{
    if index != u32::MAX && (index as usize) < count {
        Some(TextureHandle::new(index))
    } else {
        None
    }
}

fn decode_material(name: &String, d: &Vec<u8>, texture_count: usize) -> (r: Result<
    MaterialAsset,
    String,
>)
    ensures
        match decode_material_spec(name@, d@, texture_count as nat) {
            Ok(t) => r matches Ok(x) && x@ == t,
            Err(m) => r matches Err(s) && s@ == m,
        },
{
    reveal(decode_material_spec);
    if d.len() < 32 {
        let mut s = quoted("material ", name, " data too short: ");
        push_decimal(&mut s, d.len() as u64);
        return Err(s);
    }
    let b = d.as_slice();
    let ghost w = words_at(d@, 0, 8);
    let c0 = read_u32_le(b, 0);
    let c1 = read_u32_le(b, 4);
    let c2 = read_u32_le(b, 8);
    let c3 = read_u32_le(b, 12);
    let metallic = read_u32_le(b, 16);
    let roughness = read_u32_le(b, 20);
    let base = read_u32_le(b, 24);
    let normal = read_u32_le(b, 28);
    let m = MaterialAsset {
        name: name.clone(),
        base_color_texture: texture_ref_exec(base, texture_count),
        normal_texture: texture_ref_exec(normal, texture_count),
        base_color_factor_bits: [c0, c1, c2, c3],
        metallic_factor_bits: metallic,
        roughness_factor_bits: roughness,
    };
    proof {
        assert(w[0] == c0);
        assert(w[1] == c1);
        assert(w[2] == c2);
        assert(w[3] == c3);
        assert(w[4] == metallic);
        assert(w[5] == roughness);
        assert(w[6] == base);
        assert(w[7] == normal);
        assert(m.base_color_factor_bits@ =~= w.take(4));
    }
    Ok(m)
}

pub(crate) fn decode_vertex(d: &[u8], off: usize) -> (r: MeshVertex)
    requires
        off + 48 <= d@.len(),
    ensures
        vertex_words(r) == words_at(d@, off as int, 12),
{
    let _n = d.len();
    let v = MeshVertex {
        position: [read_u32_le(d, off), read_u32_le(d, off + 4), read_u32_le(d, off + 8)],
        normal: [read_u32_le(d, off + 12), read_u32_le(d, off + 16), read_u32_le(d, off + 20)],
        uv: [read_u32_le(d, off + 24), read_u32_le(d, off + 28)],
        tangent: [
            read_u32_le(d, off + 32),
            read_u32_le(d, off + 36),
            read_u32_le(d, off + 40),
            read_u32_le(d, off + 44),
        ],
    };
    assert(vertex_words(v) =~= words_at(d@, off as int, 12));
    v
}

fn mesh_error(name: &String, middle: &str, need: u64, have: u64) -> (r: String)
    ensures
        r@ == quoted_spec("mesh "@, name@, ": "@) + middle@ + decimal(need as nat) + " bytes, have "@
            + decimal(have as nat) + ")"@,
{
    let mut s = quoted("mesh ", name, ": ");
    push_str(&mut s, middle);
    push_decimal(&mut s, need);
    push_str(&mut s, " bytes, have ");
    push_decimal(&mut s, have);
    push_str(&mut s, ")");
    assert(s@ =~= quoted_spec("mesh "@, name@, ": "@) + middle@ + decimal(need as nat)
        + " bytes, have "@ + decimal(have as nat) + ")"@);
    s
}

fn decode_mesh(name: &String, d: &Vec<u8>) -> (r: Result<MeshAsset, String>)
    ensures
        r matches Ok(x) ==> x.spec_valid(),
        match decode_mesh_spec(name@, d@) {
            Ok(t) => r matches Ok(x) && x@ == t,
            Err(m) => r matches Err(s) && s@ == m,
        },
{
    reveal(decode_mesh_spec);
    let b = d.as_slice();
    let len = b.len();
    if len < 8 {
        let s = quoted("mesh ", name, " data too short");
        return Err(s);
    }
    let material = read_u32_le(b, 0);
    let vertex_count = read_u32_le(b, 4);
    let vlen = vertex_count as u64 * 48;
    if ((len - 8) as u64) < vlen {
        let s = mesh_error(name, "vertex data truncated (need ", vlen, (len - 8) as u64);
        return Err(s);
    }
    let mut vertices: Vec<MeshVertex> = Vec::new();
    let mut off: usize = 8;
    let mut i: u32 = 0;
    while i < vertex_count
        invariant
            len == b@.len(),
            b@ == d@,
            8 + vertex_count * 48 <= len,
            i <= vertex_count,
            off == 8 + 48 * i,
            vertices@.len() == i,
            forall|j: int|
                0 <= j < i ==> vertex_words(#[trigger] vertices@[j]) == words_at(
                    d@,
                    8 + 48 * j,
                    12,
                ),
        decreases vertex_count - i,
    {
        let v = decode_vertex(b, off);
        vertices.push(v);
        off = off + 48;
        i = i + 1;
    }
    let ghost vertices_spec = Seq::new(vertex_count as nat, |j: int| words_at(d@, 8 + 48 * j, 12));
    assert(vertices@.map_values(|v: MeshVertex| vertex_words(v)) =~= vertices_spec);
    if len - off < 4 {
        let s = quoted("mesh ", name, ": missing index count");
        return Err(s);
    }
    let index_count = read_u32_le(b, off);
    let ilen = index_count as u64 * 4;
    let off2 = off + 4;
    if ((len - off2) as u64) < ilen {
        let s = mesh_error(name, "index data truncated (need ", ilen, (len - off2) as u64);
        return Err(s);
    }
    let mut indices: Vec<u32> = Vec::new();
    let mut p: usize = off2;
    let mut k: u32 = 0;
    while k < index_count
        invariant
            len == b@.len(),
            b@ == d@,
            off2 + index_count * 4 <= len,
            k <= index_count,
            p == off2 + 4 * k,
            indices@ == words_at(d@, off2 as int, k as nat),
        decreases index_count - k,
    {
        let x = read_u32_le(b, p);
        indices.push(x);
        p = p + 4;
        k = k + 1;
        assert(indices@ =~= words_at(d@, off2 as int, k as nat));
    }
    let mesh = MeshAsset {
        name: name.clone(),
        vertices,
        indices,
        material: MaterialHandle::new(material),
    };
    match mesh.validate() {
        Err(message) => {
            let mut s = crate::text::owned("failed to load glTF at mesh: ");
            push_str(&mut s, message);
            Err(s)
        },
        Ok(()) => Ok(mesh),
    }
}

/// Loads a cooked `.pak` image (the file's bytes) into a new registry.
/// Every failure is reported as an I/O error at `path` whose message says
/// what was wrong.
pub fn load_pak_bytes(data: &[u8], path: &str) -> (r: Result<AssetRegistry, AssetError>)
    ensures
        match spec_load_pak(data@) {
            Ok(v) => r matches Ok(reg) && reg.wf() && reg.spec_view() == v,
            Err(m) => r matches Err(AssetError::Io { path: p, message }) && p@ == path@
                && message@ == m,
        },
{
    match load_registry(data) {
        Ok(reg) => Ok(reg),
        Err(message) => Err(AssetError::Io { path: crate::text::owned(path), message }),
    }
}

fn load_registry(data: &[u8]) -> (r: Result<AssetRegistry, String>)
    ensures
        match spec_load_pak(data@) {
            Ok(v) => r matches Ok(reg) && reg.wf() && reg.spec_view() == v,
            Err(m) => r matches Err(s) && s@ == m,
        },
{
    let entries = parse_entries(data)?;
    let ghost es = entries@.map_values(|x: RawEntry| x@);
    let mut registry = AssetRegistry::new();
    // Textures.
    let n = entries.len();
    let mut i: usize = 0;
    proof {
        assert(es.skip(0) =~= es);
        assert(registry.spec_view().1 =~= Seq::<TextureView>::empty());
        match decode_textures(es) {
            Err(m) => {},
            Ok(rest) => {
                assert(registry.spec_view().1 + rest =~= rest);
            },
        }
    }
    while i < n
        invariant
            n == entries@.len(),
            es == entries@.map_values(|x: RawEntry| x@),
            parse_raw_pak(data@) == Ok::<Seq<RawEntryView>, Seq<char>>(es),
            i <= n,
            registry.wf(),
            registry.spec_meshes().len() == 0,
            registry.spec_materials().len() == 0,
            decode_textures(es) == match decode_textures(es.skip(i as int)) {
                Err(m) => Err(m),
                Ok(rest) => Ok(registry.spec_view().1 + rest),
            },
        decreases n - i,
    {
        let e = &entries[i];
        let ghost before = registry.spec_view().1;
        proof {
            assert(es.skip(i as int).drop_first() =~= es.skip(i + 1));
            assert(es.skip(i as int)[0] == e@);
        }
        if e.kind == 2 {
            let t = match decode_texture(&e.name, &e.data) {
                Ok(t) => t,
                Err(m) => {
                    return Err(m);
                },
            };
            let ghost tv = t@;
            let _ = registry.insert_texture(t);
            proof {
                assert(registry.spec_view().1 =~= before.push(tv));
                match decode_textures(es.skip(i + 1)) {
                    Err(m) => {},
                    Ok(rest) => {
                        assert(before + (seq![tv] + rest) =~= registry.spec_view().1 + rest);
                    },
                }
            }
        }
        i = i + 1;
    }
    proof {
        assert(es.skip(n as int) =~= Seq::<RawEntryView>::empty());
        assert(registry.spec_view().1 + Seq::<TextureView>::empty() =~= registry.spec_view().1);
    }
    let texture_count = registry.textures().len();
    // Materials.
    let mut i: usize = 0;
    proof {
        assert(es.skip(0) =~= es);
        assert(registry.spec_view().2 =~= Seq::<MaterialView>::empty());
        match decode_materials(es, texture_count as nat) {
            Err(m) => {},
            Ok(rest) => {
                assert(registry.spec_view().2 + rest =~= rest);
            },
        }
    }
    while i < n
        invariant
            n == entries@.len(),
            es == entries@.map_values(|x: RawEntry| x@),
            parse_raw_pak(data@) == Ok::<Seq<RawEntryView>, Seq<char>>(es),
            i <= n,
            registry.wf(),
            registry.spec_meshes().len() == 0,
            registry.spec_textures().len() == texture_count,
            decode_textures(es) == Ok::<Seq<TextureView>, Seq<char>>(registry.spec_view().1),
            decode_materials(es, texture_count as nat) == match decode_materials(
                es.skip(i as int),
                texture_count as nat,
            ) {
                Err(m) => Err(m),
                Ok(rest) => Ok(registry.spec_view().2 + rest),
            },
        decreases n - i,
    {
        let e = &entries[i];
        let ghost before = registry.spec_view();
        proof {
            assert(es.skip(i as int).drop_first() =~= es.skip(i + 1));
            assert(es.skip(i as int)[0] == e@);
        }
        if e.kind == 4 {
            let m = match decode_material(&e.name, &e.data, texture_count) {
                Ok(m) => m,
                Err(m) => {
                    return Err(m);
                },
            };
            let ghost mv = m@;
            let _ = registry.insert_material(m);
            proof {
                assert(registry.spec_view().2 =~= before.2.push(mv));
                assert(registry.spec_view().1 =~= before.1);
                match decode_materials(es.skip(i + 1), texture_count as nat) {
                    Err(m) => {},
                    Ok(rest) => {
                        assert(before.2 + (seq![mv] + rest) =~= registry.spec_view().2 + rest);
                    },
                }
            }
        }
        i = i + 1;
    }
    proof {
        assert(es.skip(n as int) =~= Seq::<RawEntryView>::empty());
        assert(registry.spec_view().2 + Seq::<MaterialView>::empty() =~= registry.spec_view().2);
    }
    // Meshes.
    let mut i: usize = 0;
    proof {
        assert(es.skip(0) =~= es);
        assert(registry.spec_view().0 =~= Seq::<MeshView>::empty());
        match decode_meshes(es) {
            Err(m) => {},
            Ok(rest) => {
                assert(registry.spec_view().0 + rest =~= rest);
            },
        }
    }
    while i < n
        invariant
            n == entries@.len(),
            es == entries@.map_values(|x: RawEntry| x@),
            parse_raw_pak(data@) == Ok::<Seq<RawEntryView>, Seq<char>>(es),
            i <= n,
            registry.wf(),
            registry.spec_textures().len() == texture_count,
            decode_textures(es) == Ok::<Seq<TextureView>, Seq<char>>(registry.spec_view().1),
            decode_materials(es, texture_count as nat) == Ok::<Seq<MaterialView>, Seq<char>>(
                registry.spec_view().2,
            ),
            decode_meshes(es) == match decode_meshes(es.skip(i as int)) {
                Err(m) => Err(m),
                Ok(rest) => Ok(registry.spec_view().0 + rest),
            },
        decreases n - i,
    {
        let e = &entries[i];
        let ghost before = registry.spec_view();
        proof {
            assert(es.skip(i as int).drop_first() =~= es.skip(i + 1));
            assert(es.skip(i as int)[0] == e@);
        }
        if e.kind == 1 {
            let m = match decode_mesh(&e.name, &e.data) {
                Ok(m) => m,
                Err(m) => {
                    return Err(m);
                },
            };
            let ghost mv = m@;
            let _ = registry.insert_mesh(m);
            proof {
                assert(registry.spec_view().0 =~= before.0.push(mv));
                assert(registry.spec_view().1 =~= before.1);
                assert(registry.spec_view().2 =~= before.2);
                match decode_meshes(es.skip(i + 1)) {
                    Err(m) => {},
                    Ok(rest) => {
                        assert(before.0 + (seq![mv] + rest) =~= registry.spec_view().0 + rest);
                    },
                }
            }
        }
        i = i + 1;
    }
    proof {
        assert(es.skip(n as int) =~= Seq::<RawEntryView>::empty());
        assert(registry.spec_view().0 + Seq::<MeshView>::empty() =~= registry.spec_view().0);
    }
    Ok(registry)
}

} // verus!
