//! The cook/load round trip: a registry cooked into a `.pak` image and
//! loaded back yields the same registry contents.
use crate::assets::{
    mesh_problem, texture_problem, MaterialView, MeshView, TextureHandle, TextureView,
};
use crate::bytes::{le_u32, le_u64, lemma_le_u32_roundtrip, lemma_le_u64_roundtrip, u32_of_le};
use crate::cooker::{
    cook_material_data, cook_mesh_data, cook_texture_data, cooked_registry, texture_word,
    vertices_le, words_le,
};
use crate::pak::{encode_asset, encode_assets, encode_pak, kind_byte, pak_magic, AssetView, CookedAssetKind};
use crate::pak_loader::{
    decode_material_spec, decode_materials, decode_mesh_spec, decode_meshes, decode_texture_spec,
    decode_textures, parse_raw_entries, parse_raw_entry, parse_raw_pak, spec_load_pak, words_at,
    RawEntryView,
};
use vstd::prelude::*;
use vstd::utf8::encode_utf8;

verus! {

/// The raw entry an encoded asset reads back as.
pub open spec fn raw_of(a: AssetView) -> RawEntryView {
    (kind_byte(a.0), a.1, a.2)
}

/// The asset's name length fits the 32-bit field and its data length the
/// 64-bit field.
pub open spec fn raw_encodable(a: AssetView) -> bool {
    &&& encode_utf8(a.1).len() < 0x1_0000_0000
    &&& a.2.len() < 0x1_0000_0000_0000_0000
}

#[verifier::rlimit(60)]
proof fn lemma_raw_entry_of_encoding(b: Seq<u8>, pos: int, a: AssetView)
    requires
        0 <= pos,
        pos + encode_asset(a).len() <= b.len(),
        b.subrange(pos, pos + encode_asset(a).len()) == encode_asset(a),
        raw_encodable(a),
    ensures
        parse_raw_entry(b, pos) == Ok::<(RawEntryView, int), Seq<char>>(
            (raw_of(a), pos + encode_asset(a).len()),
        ),
{
    let name = encode_utf8(a.1);
    let nl = name.len() as int;
    let dl = a.2.len() as int;
    let e = encode_asset(a);
    lemma_le_u32_roundtrip((nl % 0x1_0000_0000) as u32);
    lemma_le_u64_roundtrip(a.2.len() as u64);
    vstd::utf8::encode_utf8_valid_utf8(a.1);
    vstd::utf8::encode_utf8_decode_utf8(a.1);
    assert(e[0] == kind_byte(a.0));
    assert(b[pos] == e[0]);
    assert(b.subrange(pos + 1, pos + 5) =~= e.subrange(1, 5));
    assert(e.subrange(1, 5) =~= le_u32((nl % 0x1_0000_0000) as u32));
    assert(nl % 0x1_0000_0000 == nl);
    assert(b.subrange(pos + 5, pos + 5 + nl) =~= e.subrange(5, 5 + nl));
    assert(e.subrange(5, 5 + nl) =~= name);
    assert(b.subrange(pos + 5 + nl, pos + 13 + nl) =~= e.subrange(5 + nl, 13 + nl));
    assert(e.subrange(5 + nl, 13 + nl) =~= le_u64(a.2.len() as u64));
    assert(b.subrange(pos + 13 + nl, pos + 13 + nl + dl) =~= e.subrange(13 + nl, 13 + nl + dl));
    assert(e.subrange(13 + nl, 13 + nl + dl) =~= a.2);
    let len = b.len() as int;
    assert(e.len() == 13 + nl + dl);
    assert(crate::pak_loader::take_span(len, pos, 1) == Ok::<int, Seq<char>>(pos + 1));
    assert(crate::pak_loader::take_span(len, pos + 1, 4) == Ok::<int, Seq<char>>(pos + 5));
    assert(u32_of_le(b.subrange(pos + 1, pos + 5)) == nl);
    assert(crate::pak_loader::take_span(len, pos + 5, nl) == Ok::<int, Seq<char>>(pos + 5 + nl));
    assert(crate::pak_loader::take_span(len, pos + 5 + nl, 8) == Ok::<int, Seq<char>>(pos + 13 + nl));
    assert(crate::bytes::u64_of_le(b.subrange(pos + 5 + nl, pos + 13 + nl)) == dl);
    assert(crate::pak_loader::take_span(len, pos + 13 + nl, dl) == Ok::<int, Seq<char>>(pos + 13 + nl + dl));
}

proof fn lemma_raw_entries_of_encoding(b: Seq<u8>, pos: int, s: Seq<AssetView>)
    requires
        0 <= pos,
        pos + encode_assets(s).len() <= b.len(),
        b.subrange(pos, pos + encode_assets(s).len()) == encode_assets(s),
        forall|i: int| 0 <= i < s.len() ==> raw_encodable(#[trigger] s[i]),
    ensures
        parse_raw_entries(b, pos, s.len()) == Ok::<(Seq<RawEntryView>, int), Seq<char>>(
            (s.map_values(|a: AssetView| raw_of(a)), pos + encode_assets(s).len()),
        ),
    decreases s.len(),
{
    if s.len() == 0 {
        assert(s.map_values(|a: AssetView| raw_of(a)) =~= Seq::<RawEntryView>::empty());
    } else {
        let e0 = encode_asset(s[0]);
        let rest = s.drop_first();
        let er = encode_assets(rest);
        let l0 = e0.len() as int;
        let lr = er.len() as int;
        assert(encode_assets(s) == e0 + er);
        assert(b.subrange(pos, pos + l0) =~= (e0 + er).subrange(0, l0));
        assert((e0 + er).subrange(0, l0) =~= e0);
        assert(raw_encodable(s[0]));
        lemma_raw_entry_of_encoding(b, pos, s[0]);
        assert(b.subrange(pos + l0, pos + l0 + lr) =~= (e0 + er).subrange(l0, l0 + lr));
        assert((e0 + er).subrange(l0, l0 + lr) =~= er);
        assert forall|i: int| 0 <= i < rest.len() implies raw_encodable(#[trigger] rest[i]) by {
            assert(rest[i] == s[i + 1]);
        }
        lemma_raw_entries_of_encoding(b, pos + l0, rest);
        assert(seq![raw_of(s[0])] + rest.map_values(|a: AssetView| raw_of(a)) =~= s.map_values(
            |a: AssetView| raw_of(a),
        ));
    }
}

/// Reading the entries of an encoded container gives back its assets as
/// raw entries, in order.
#[verifier::rlimit(60)]
proof fn lemma_raw_pak_of_encoding(s: Seq<AssetView>)
    requires
        s.len() < 0x1_0000_0000,
        forall|i: int| 0 <= i < s.len() ==> raw_encodable(#[trigger] s[i]),
    ensures
        parse_raw_pak(encode_pak(s)) == Ok::<Seq<RawEntryView>, Seq<char>>(
            s.map_values(|a: AssetView| raw_of(a)),
        ),
{
    let b = encode_pak(s);
    let body = encode_assets(s);
    let count = (s.len() % 0x1_0000_0000) as u32;
    lemma_le_u32_roundtrip(1);
    lemma_le_u32_roundtrip(count);
    assert(b.len() >= 12);
    assert(b.subrange(0, 4) =~= pak_magic());
    assert(b.subrange(4, 8) =~= le_u32(1));
    assert(b.subrange(8, 12) =~= le_u32(count));
    assert(b.subrange(12, 12 + body.len() as int) =~= body);
    lemma_raw_entries_of_encoding(b, 12, s);
}

// ---------------------------------------------------------------------------
// Words
// ---------------------------------------------------------------------------

proof fn lemma_words_le_index(ws: Seq<u32>, k: int)
    requires
        0 <= k < ws.len(),
    ensures
        words_le(ws).len() == 4 * ws.len(),
        words_le(ws).subrange(4 * k, 4 * k + 4) == le_u32(ws[k]),
    decreases ws.len(),
{
    lemma_words_le_len(ws);
    let rest = ws.drop_first();
    let head = le_u32(ws[0]);
    assert(words_le(ws) == head + words_le(rest));
    if k == 0 {
        assert(words_le(ws).subrange(0, 4) =~= head);
    } else {
        lemma_words_le_index(rest, k - 1);
        assert(words_le(ws).subrange(4 * k, 4 * k + 4) =~= words_le(rest).subrange(
            4 * (k - 1),
            4 * (k - 1) + 4,
        ));
    }
}

proof fn lemma_words_le_len(ws: Seq<u32>)
    ensures
        words_le(ws).len() == 4 * ws.len(),
    decreases ws.len(),
{
    if ws.len() > 0 {
        lemma_words_le_len(ws.drop_first());
    }
}

/// Reading `ws.len()` words where `words_le(ws)` was written gives `ws`.
proof fn lemma_words_at_le(b: Seq<u8>, start: int, ws: Seq<u32>)
    requires
        0 <= start,
        start + 4 * ws.len() <= b.len(),
        b.subrange(start, start + 4 * ws.len()) == words_le(ws),
    ensures
        words_at(b, start, ws.len()) == ws,
{
    lemma_words_le_len(ws);
    assert forall|k: int| 0 <= k < ws.len() implies words_at(b, start, ws.len())[k] == ws[k] by {
        lemma_words_le_index(ws, k);
        lemma_le_u32_roundtrip(ws[k]);
        assert(b.subrange(start + 4 * k, start + 4 * k + 4) =~= words_le(ws).subrange(
            4 * k,
            4 * k + 4,
        ));
    }
    assert(words_at(b, start, ws.len()) =~= ws);
}

proof fn lemma_words_le_concat(a: Seq<u32>, c: Seq<u32>)
    ensures
        words_le(a + c) == words_le(a) + words_le(c),
    decreases a.len(),
{
    if a.len() == 0 {
        assert(a + c =~= c);
        assert(words_le(a) == Seq::<u8>::empty());
        assert(words_le(a) + words_le(c) =~= words_le(c));
    } else {
        assert((a + c).drop_first() =~= a.drop_first() + c);
        assert((a + c)[0] == a[0]);
        lemma_words_le_concat(a.drop_first(), c);
        assert(words_le(a + c) =~= words_le(a) + words_le(c));
    }
}

proof fn lemma_vertices_le_index(vs: Seq<Seq<u32>>, i: int)
    requires
        0 <= i < vs.len(),
        forall|j: int| 0 <= j < vs.len() ==> (#[trigger] vs[j]).len() == 12,
    ensures
        vertices_le(vs).len() == 48 * vs.len(),
        vertices_le(vs).subrange(48 * i, 48 * i + 48) == words_le(vs[i]),
    decreases vs.len(),
{
    lemma_vertices_le_len(vs);
    let rest = vs.drop_first();
    assert(vs[0].len() == 12);
    lemma_words_le_len(vs[0]);
    let head = words_le(vs[0]);
    assert(vertices_le(vs) == head + vertices_le(rest));
    if i == 0 {
        assert(vertices_le(vs).subrange(0, 48) =~= head);
    } else {
        assert forall|j: int| 0 <= j < rest.len() implies (#[trigger] rest[j]).len() == 12 by {
            assert(rest[j] == vs[j + 1]);
        }
        lemma_vertices_le_index(rest, i - 1);
        assert(vertices_le(vs).subrange(48 * i, 48 * i + 48) =~= vertices_le(rest).subrange(
            48 * (i - 1),
            48 * (i - 1) + 48,
        ));
    }
}

proof fn lemma_vertices_le_len(vs: Seq<Seq<u32>>)
    requires
        forall|j: int| 0 <= j < vs.len() ==> (#[trigger] vs[j]).len() == 12,
    ensures
        vertices_le(vs).len() == 48 * vs.len(),
    decreases vs.len(),
{
    if vs.len() > 0 {
        let rest = vs.drop_first();
        assert forall|j: int| 0 <= j < rest.len() implies (#[trigger] rest[j]).len() == 12 by {
            assert(rest[j] == vs[j + 1]);
        }
        lemma_vertices_le_len(rest);
        assert(vs[0].len() == 12);
        lemma_words_le_len(vs[0]);
    }
}

// ---------------------------------------------------------------------------
// Payloads
// ---------------------------------------------------------------------------

proof fn lemma_texture_payload(t: TextureView)
    requires
        texture_problem(t.1, t.2, t.3.len()) is None,
    ensures
        decode_texture_spec(t.0, cook_texture_data(t)) == Ok::<TextureView, Seq<char>>(t),
{
    reveal(decode_texture_spec);
    let d = cook_texture_data(t);
    lemma_le_u32_roundtrip(t.1);
    lemma_le_u32_roundtrip(t.2);
    assert(d.subrange(0, 4) =~= le_u32(t.1));
    assert(d.subrange(4, 8) =~= le_u32(t.2));
    assert(d.subrange(8, d.len() as int) =~= t.3);
}

/// The material's texture references point at loaded textures.
pub open spec fn material_refs_loaded(m: MaterialView, texture_count: nat) -> bool {
    &&& (m.1 matches Some(h) ==> h.spec_index() < texture_count && h.spec_index() != u32::MAX)
    &&& (m.2 matches Some(h) ==> h.spec_index() < texture_count && h.spec_index() != u32::MAX)
}

proof fn lemma_texture_word_ref(h: Option<TextureHandle>, texture_count: nat)
    requires
        h matches Some(x) ==> x.spec_index() < texture_count && x.spec_index() != u32::MAX,
    ensures
        crate::pak_loader::texture_ref(texture_word(h), texture_count) == h,
{
    if let Some(x) = h {
        x.lemma_spec_new_of_index();
    }
}

proof fn lemma_material_payload(m: MaterialView, texture_count: nat)
    requires
        m.3.len() == 4,
        material_refs_loaded(m, texture_count),
    ensures
        decode_material_spec(m.0, cook_material_data(m), texture_count) == Ok::<
            MaterialView,
            Seq<char>,
        >(m),
{
    reveal(decode_material_spec);
    let d = cook_material_data(m);
    let ws = m.3 + seq![m.4, m.5, texture_word(m.1), texture_word(m.2)];
    lemma_words_le_concat(m.3, seq![m.4, m.5, texture_word(m.1), texture_word(m.2)]);
    assert(words_le(seq![m.4, m.5, texture_word(m.1), texture_word(m.2)]) =~= le_u32(m.4) + le_u32(
        m.5,
    ) + le_u32(texture_word(m.1)) + le_u32(texture_word(m.2))) by {
        let q = seq![m.4, m.5, texture_word(m.1), texture_word(m.2)];
        assert(q.drop_first().drop_first().drop_first().drop_first() =~= Seq::<u32>::empty());
        assert(words_le(Seq::<u32>::empty()) == Seq::<u8>::empty());
        reveal_with_fuel(words_le, 5);
    }
    assert(d =~= words_le(ws));
    lemma_words_le_len(ws);
    assert(d.subrange(0, 32) =~= words_le(ws));
    lemma_words_at_le(d, 0, ws);
    assert(ws.take(4) =~= m.3);
    lemma_texture_word_ref(m.1, texture_count);
    lemma_texture_word_ref(m.2, texture_count);
}

/// Every vertex has twelve words and both counts fit the 32-bit fields.
pub open spec fn mesh_encodable(m: MeshView) -> bool {
    &&& m.1.len() < 0x1_0000_0000
    &&& m.2.len() < 0x1_0000_0000
    &&& forall|j: int| 0 <= j < m.1.len() ==> (#[trigger] m.1[j]).len() == 12
}

#[verifier::spinoff_prover]
#[verifier::rlimit(40)]
proof fn lemma_mesh_vertex_words(m: MeshView)
    requires
        mesh_encodable(m),
    ensures
        Seq::new(m.1.len(), |i: int| words_at(cook_mesh_data(m), 8 + 48 * i, 12)) == m.1,
{
    let d = cook_mesh_data(m);
    let vc = m.1.len() as int;
    let vb = vertices_le(m.1);
    lemma_vertices_le_len(m.1);
    lemma_words_le_len(m.2);
    assert(d.subrange(8, 8 + 48 * vc) =~= vb);
    let vertices = Seq::new(vc as nat, |i: int| words_at(d, 8 + 48 * i, 12));
    assert forall|i: int| 0 <= i < vc implies vertices[i] == m.1[i] by {
        lemma_vertices_le_index(m.1, i);
        assert(m.1[i].len() == 12);
        assert(d.subrange(8 + 48 * i, 8 + 48 * i + 48) =~= vb.subrange(48 * i, 48 * i + 48));
        lemma_words_at_le(d, 8 + 48 * i, m.1[i]);
    }
    assert(vertices =~= m.1);
}

#[verifier::spinoff_prover]
#[verifier::rlimit(60)]
proof fn lemma_mesh_payload(m: MeshView)
    requires
        mesh_encodable(m),
        mesh_problem(m.1.len(), m.2.len()) is None,
    ensures
        decode_mesh_spec(m.0, cook_mesh_data(m)) == Ok::<MeshView, Seq<char>>(m),
{
    reveal(decode_mesh_spec);
    let d = cook_mesh_data(m);
    let vc = m.1.len() as int;
    let ic = m.2.len() as int;
    let ib = words_le(m.2);
    lemma_vertices_le_len(m.1);
    lemma_words_le_len(m.2);
    lemma_le_u32_roundtrip(m.3.spec_index());
    lemma_le_u32_roundtrip(vc as u32);
    lemma_le_u32_roundtrip(ic as u32);
    assert(vc % 0x1_0000_0000 == vc);
    assert(ic % 0x1_0000_0000 == ic);
    assert(d.len() == 8 + 48 * vc + 4 + 4 * ic);
    assert(d.subrange(0, 4) =~= le_u32(m.3.spec_index()));
    assert(d.subrange(4, 8) =~= le_u32(vc as u32));
    assert(d.subrange(8 + 48 * vc, 12 + 48 * vc) =~= le_u32(ic as u32));
    assert(d.subrange(12 + 48 * vc, 12 + 48 * vc + 4 * ic) =~= ib);
    lemma_words_at_le(d, 12 + 48 * vc, m.2);
    lemma_mesh_vertex_words(m);
    m.3.lemma_spec_new_of_index();
}

// ---------------------------------------------------------------------------
// Decoders over entry lists
// ---------------------------------------------------------------------------

proof fn lemma_decode_textures_concat(a: Seq<RawEntryView>, c: Seq<RawEntryView>)
    ensures
        decode_textures(a + c) == match decode_textures(a) {
            Err(m) => Err(m),
            Ok(x) => match decode_textures(c) {
                Err(m) => Err(m),
                Ok(y) => Ok::<Seq<TextureView>, Seq<char>>(x + y),
            },
        },
    decreases a.len(),
{
    if a.len() == 0 {
        assert(a + c =~= c);
        if let Ok(y) = decode_textures(c) {
            assert(Seq::<TextureView>::empty() + y =~= y);
        }
    } else {
        assert((a + c).drop_first() =~= a.drop_first() + c);
        assert((a + c)[0] == a[0]);
        lemma_decode_textures_concat(a.drop_first(), c);
        if let Ok(x) = decode_textures(a.drop_first()) {
            if let Ok(y) = decode_textures(c) {
                if a[0].0 == 2 {
                    if let Ok(t) = decode_texture_spec(a[0].1, a[0].2) {
                        assert(seq![t] + (x + y) =~= (seq![t] + x) + y);
                    }
                }
            }
        }
    }
}

proof fn lemma_decode_materials_concat(a: Seq<RawEntryView>, c: Seq<RawEntryView>, n: nat)
    ensures
        decode_materials(a + c, n) == match decode_materials(a, n) {
            Err(m) => Err(m),
            Ok(x) => match decode_materials(c, n) {
                Err(m) => Err(m),
                Ok(y) => Ok::<Seq<MaterialView>, Seq<char>>(x + y),
            },
        },
    decreases a.len(),
{
    if a.len() == 0 {
        assert(a + c =~= c);
        if let Ok(y) = decode_materials(c, n) {
            assert(Seq::<MaterialView>::empty() + y =~= y);
        }
    } else {
        assert((a + c).drop_first() =~= a.drop_first() + c);
        assert((a + c)[0] == a[0]);
        lemma_decode_materials_concat(a.drop_first(), c, n);
        if let Ok(x) = decode_materials(a.drop_first(), n) {
            if let Ok(y) = decode_materials(c, n) {
                if a[0].0 == 4 {
                    if let Ok(t) = decode_material_spec(a[0].1, a[0].2, n) {
                        assert(seq![t] + (x + y) =~= (seq![t] + x) + y);
                    }
                }
            }
        }
    }
}

proof fn lemma_decode_meshes_concat(a: Seq<RawEntryView>, c: Seq<RawEntryView>)
    ensures
        decode_meshes(a + c) == match decode_meshes(a) {
            Err(m) => Err(m),
            Ok(x) => match decode_meshes(c) {
                Err(m) => Err(m),
                Ok(y) => Ok::<Seq<MeshView>, Seq<char>>(x + y),
            },
        },
    decreases a.len(),
{
    if a.len() == 0 {
        assert(a + c =~= c);
        if let Ok(y) = decode_meshes(c) {
            assert(Seq::<MeshView>::empty() + y =~= y);
        }
    } else {
        assert((a + c).drop_first() =~= a.drop_first() + c);
        assert((a + c)[0] == a[0]);
        lemma_decode_meshes_concat(a.drop_first(), c);
        if let Ok(x) = decode_meshes(a.drop_first()) {
            if let Ok(y) = decode_meshes(c) {
                if a[0].0 == 1 {
                    if let Ok(t) = decode_mesh_spec(a[0].1, a[0].2) {
                        assert(seq![t] + (x + y) =~= (seq![t] + x) + y);
                    }
                }
            }
        }
    }
}

proof fn lemma_decoders_skip(es: Seq<RawEntryView>, n: nat, keep: u8)
    requires
        forall|i: int| 0 <= i < es.len() ==> (#[trigger] es[i]).0 != keep,
    ensures
        keep == 2 ==> decode_textures(es) == Ok::<Seq<TextureView>, Seq<char>>(Seq::empty()),
        keep == 4 ==> decode_materials(es, n) == Ok::<Seq<MaterialView>, Seq<char>>(Seq::empty()),
        keep == 1 ==> decode_meshes(es) == Ok::<Seq<MeshView>, Seq<char>>(Seq::empty()),
    decreases es.len(),
{
    if es.len() > 0 {
        let rest = es.drop_first();
        assert(es[0].0 != keep);
        assert forall|i: int| 0 <= i < rest.len() implies (#[trigger] rest[i]).0 != keep by {
            assert(rest[i] == es[i + 1]);
        }
        lemma_decoders_skip(rest, n, keep);
    }
}

pub open spec fn cooked_texture_entry(t: TextureView) -> AssetView {
    (CookedAssetKind::Texture, t.0, cook_texture_data(t))
}

pub open spec fn cooked_material_entry(m: MaterialView) -> AssetView {
    (CookedAssetKind::Material, m.0, cook_material_data(m))
}

pub open spec fn cooked_mesh_entry(m: MeshView) -> AssetView {
    (CookedAssetKind::Mesh, m.0, cook_mesh_data(m))
}

proof fn lemma_decode_cooked_textures(ts: Seq<TextureView>)
    requires
        forall|i: int| 0 <= i < ts.len() ==> texture_problem(#[trigger] ts[i].1, ts[i].2, ts[i].3.len()) is None,
    ensures
        decode_textures(ts.map_values(|t: TextureView| raw_of(cooked_texture_entry(t)))) == Ok::<
            Seq<TextureView>,
            Seq<char>,
        >(ts),
    decreases ts.len(),
{
    let es = ts.map_values(|t: TextureView| raw_of(cooked_texture_entry(t)));
    if ts.len() == 0 {
        assert(es =~= Seq::<RawEntryView>::empty());
        assert(ts =~= Seq::<TextureView>::empty());
    } else {
        let rest = ts.drop_first();
        assert(es.drop_first() =~= rest.map_values(|t: TextureView| raw_of(cooked_texture_entry(t))));
        assert forall|i: int| 0 <= i < rest.len() implies texture_problem(#[trigger] rest[i].1, rest[i].2, rest[i].3.len()) is None by {
            assert(rest[i] == ts[i + 1]);
        }
        lemma_decode_cooked_textures(rest);
        assert(texture_problem(ts[0].1, ts[0].2, ts[0].3.len()) is None);
        lemma_texture_payload(ts[0]);
        assert(es[0] == raw_of(cooked_texture_entry(ts[0])));
        assert(es[0].0 == 2);
        assert(decode_texture_spec(es[0].1, es[0].2) == Ok::<TextureView, Seq<char>>(ts[0]));
        assert(decode_textures(es.drop_first()) == Ok::<Seq<TextureView>, Seq<char>>(rest));
        assert(decode_textures(es) == Ok::<Seq<TextureView>, Seq<char>>(seq![ts[0]] + rest));
        assert(seq![ts[0]] + rest =~= ts);
    }
}

proof fn lemma_decode_cooked_materials(ms: Seq<MaterialView>, n: nat)
    requires
        forall|i: int| 0 <= i < ms.len() ==> (#[trigger] ms[i]).3.len() == 4 && material_refs_loaded(ms[i], n),
    ensures
        decode_materials(ms.map_values(|m: MaterialView| raw_of(cooked_material_entry(m))), n)
            == Ok::<Seq<MaterialView>, Seq<char>>(ms),
    decreases ms.len(),
{
    let es = ms.map_values(|m: MaterialView| raw_of(cooked_material_entry(m)));
    if ms.len() == 0 {
        assert(es =~= Seq::<RawEntryView>::empty());
        assert(ms =~= Seq::<MaterialView>::empty());
    } else {
        let rest = ms.drop_first();
        assert(es.drop_first() =~= rest.map_values(|m: MaterialView| raw_of(cooked_material_entry(m))));
        assert forall|i: int| 0 <= i < rest.len() implies (#[trigger] rest[i]).3.len() == 4 && material_refs_loaded(rest[i], n) by {
            assert(rest[i] == ms[i + 1]);
        }
        lemma_decode_cooked_materials(rest, n);
        assert(ms[0].3.len() == 4 && material_refs_loaded(ms[0], n));
        lemma_material_payload(ms[0], n);
        assert(es[0] == raw_of(cooked_material_entry(ms[0])));
        assert(es[0].0 == 4);
        assert(decode_material_spec(es[0].1, es[0].2, n) == Ok::<MaterialView, Seq<char>>(ms[0]));
        assert(decode_materials(es.drop_first(), n) == Ok::<Seq<MaterialView>, Seq<char>>(rest));
        assert(decode_materials(es, n) == Ok::<Seq<MaterialView>, Seq<char>>(seq![ms[0]] + rest));
        assert(seq![ms[0]] + rest =~= ms);
    }
}

proof fn lemma_decode_cooked_meshes(hs: Seq<MeshView>)
    requires
        forall|i: int| 0 <= i < hs.len() ==> mesh_encodable(#[trigger] hs[i]) && mesh_problem(hs[i].1.len(), hs[i].2.len()) is None,
    ensures
        decode_meshes(hs.map_values(|m: MeshView| raw_of(cooked_mesh_entry(m)))) == Ok::<
            Seq<MeshView>,
            Seq<char>,
        >(hs),
    decreases hs.len(),
{
    let es = hs.map_values(|m: MeshView| raw_of(cooked_mesh_entry(m)));
    if hs.len() == 0 {
        assert(es =~= Seq::<RawEntryView>::empty());
        assert(hs =~= Seq::<MeshView>::empty());
    } else {
        let rest = hs.drop_first();
        assert(es.drop_first() =~= rest.map_values(|m: MeshView| raw_of(cooked_mesh_entry(m))));
        assert forall|i: int| 0 <= i < rest.len() implies mesh_encodable(#[trigger] rest[i]) && mesh_problem(rest[i].1.len(), rest[i].2.len()) is None by {
            assert(rest[i] == hs[i + 1]);
        }
        lemma_decode_cooked_meshes(rest);
        assert(mesh_encodable(hs[0]) && mesh_problem(hs[0].1.len(), hs[0].2.len()) is None);
        lemma_mesh_payload(hs[0]);
        assert(es[0] == raw_of(cooked_mesh_entry(hs[0])));
        assert(es[0].0 == 1);
        assert(decode_mesh_spec(es[0].1, es[0].2) == Ok::<MeshView, Seq<char>>(hs[0]));
        assert(decode_meshes(es.drop_first()) == Ok::<Seq<MeshView>, Seq<char>>(rest));
        assert(decode_meshes(es) == Ok::<Seq<MeshView>, Seq<char>>(seq![hs[0]] + rest));
        assert(seq![hs[0]] + rest =~= hs);
    }
}

// ---------------------------------------------------------------------------
// The law
// ---------------------------------------------------------------------------

/// Registry contents that survive cooking: every texture and mesh is valid,
/// material texture references point at loaded textures, names, payloads
/// and counts fit their length fields.
pub open spec fn cookable(
    meshes: Seq<MeshView>,
    textures: Seq<TextureView>,
    materials: Seq<MaterialView>,
) -> bool {
    &&& forall|i: int|
        0 <= i < textures.len() ==> texture_problem(#[trigger] textures[i].1, textures[i].2, textures[i].3.len()) is None
            && raw_encodable(cooked_texture_entry(textures[i]))
    &&& forall|i: int|
        0 <= i < materials.len() ==> (#[trigger] materials[i]).3.len() == 4 && material_refs_loaded(
            materials[i],
            textures.len(),
        ) && raw_encodable(cooked_material_entry(materials[i]))
    &&& forall|i: int|
        0 <= i < meshes.len() ==> mesh_encodable(#[trigger] meshes[i]) && mesh_problem(meshes[i].1.len(), meshes[i].2.len()) is None
            && raw_encodable(cooked_mesh_entry(meshes[i]))
}

/// Cooking a registry (after any shader entries) into a `.pak` image and
/// loading that image gives back exactly the registry's meshes, textures
/// and materials, in order.
#[verifier::rlimit(60)]
pub proof fn law_load_after_cook(
    meshes: Seq<MeshView>,
    textures: Seq<TextureView>,
    materials: Seq<MaterialView>,
    shaders: Seq<AssetView>,
)
    requires
        cookable(meshes, textures, materials),
        forall|i: int|
            0 <= i < shaders.len() ==> (#[trigger] shaders[i]).0 == CookedAssetKind::Shader
                && raw_encodable(shaders[i]),
        shaders.len() + textures.len() + materials.len() + meshes.len() < 0x1_0000_0000,
    ensures
        spec_load_pak(encode_pak(shaders + cooked_registry(meshes, textures, materials))) == Ok::<
            (Seq<MeshView>, Seq<TextureView>, Seq<MaterialView>),
            Seq<char>,
        >((meshes, textures, materials)),
{
    let tp = textures.map_values(|t: TextureView| cooked_texture_entry(t));
    let mp = materials.map_values(|m: MaterialView| cooked_material_entry(m));
    let hp = meshes.map_values(|m: MeshView| cooked_mesh_entry(m));
    let s = shaders + cooked_registry(meshes, textures, materials);
    assert(cooked_registry(meshes, textures, materials) =~= tp + mp + hp);
    assert(s =~= shaders + tp + mp + hp);
    assert forall|i: int| 0 <= i < s.len() implies raw_encodable(#[trigger] s[i]) by {
        if i < shaders.len() {
        } else if i < shaders.len() + tp.len() {
            assert(s[i] == tp[i - shaders.len()]);
        } else if i < shaders.len() + tp.len() + mp.len() {
            assert(s[i] == mp[i - shaders.len() - tp.len()]);
        } else {
            assert(s[i] == hp[i - shaders.len() - tp.len() - mp.len()]);
        }
    }
    lemma_raw_pak_of_encoding(s);
    let rs = shaders.map_values(|a: AssetView| raw_of(a));
    let rt = textures.map_values(|t: TextureView| raw_of(cooked_texture_entry(t)));
    let rm = materials.map_values(|m: MaterialView| raw_of(cooked_material_entry(m)));
    let rh = meshes.map_values(|m: MeshView| raw_of(cooked_mesh_entry(m)));
    let es = s.map_values(|a: AssetView| raw_of(a));
    assert(es =~= rs + rt + rm + rh);
    // Kinds of each part.
    assert forall|i: int| 0 <= i < rs.len() implies (#[trigger] rs[i]).0 == 3 by {
        assert(shaders[i].0 == CookedAssetKind::Shader);
    }
    assert forall|i: int| 0 <= i < rt.len() implies (#[trigger] rt[i]).0 == 2 by {}
    assert forall|i: int| 0 <= i < rm.len() implies (#[trigger] rm[i]).0 == 4 by {}
    assert forall|i: int| 0 <= i < rh.len() implies (#[trigger] rh[i]).0 == 1 by {}
    // Textures.
    assert forall|i: int| 0 <= i < textures.len() implies texture_problem(#[trigger] textures[i].1, textures[i].2, textures[i].3.len()) is None by {}
    lemma_decode_cooked_textures(textures);
    lemma_decoders_skip(rs, 0, 2);
    lemma_decoders_skip(rm, 0, 2);
    lemma_decoders_skip(rh, 0, 2);
    lemma_decode_textures_concat(rs, rt);
    lemma_decode_textures_concat(rs + rt, rm);
    lemma_decode_textures_concat(rs + rt + rm, rh);
    assert(Seq::<TextureView>::empty() + textures + Seq::<TextureView>::empty() + Seq::<TextureView>::empty() =~= textures);
    // Materials.
    let n = textures.len();
    assert forall|i: int| 0 <= i < materials.len() implies (#[trigger] materials[i]).3.len() == 4 && material_refs_loaded(materials[i], n) by {}
    lemma_decode_cooked_materials(materials, n);
    lemma_decoders_skip(rs, n, 4);
    lemma_decoders_skip(rt, n, 4);
    lemma_decoders_skip(rh, n, 4);
    lemma_decode_materials_concat(rs, rt, n);
    lemma_decode_materials_concat(rs + rt, rm, n);
    lemma_decode_materials_concat(rs + rt + rm, rh, n);
    assert(Seq::<MaterialView>::empty() + Seq::<MaterialView>::empty() + materials + Seq::<MaterialView>::empty() =~= materials);
    // Meshes.
    assert forall|i: int| 0 <= i < meshes.len() implies mesh_encodable(#[trigger] meshes[i]) && mesh_problem(meshes[i].1.len(), meshes[i].2.len()) is None by {}
    lemma_decode_cooked_meshes(meshes);
    lemma_decoders_skip(rs, 0, 1);
    lemma_decoders_skip(rt, 0, 1);
    lemma_decoders_skip(rm, 0, 1);
    lemma_decode_meshes_concat(rs, rt);
    lemma_decode_meshes_concat(rs + rt, rm);
    lemma_decode_meshes_concat(rs + rt + rm, rh);
    assert(Seq::<MeshView>::empty() + Seq::<MeshView>::empty() + Seq::<MeshView>::empty() + meshes =~= meshes);
}

} // verus!
