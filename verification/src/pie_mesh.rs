//! The engine's native mesh format: a `.bin` file of vertices (twelve `f32`
//! per vertex: position, normal, uv, tangent) followed by `u32` indices,
//! described by an optional `.json` file with the name and the counts.
use crate::assets::{AssetError, MaterialHandle, MeshAsset, MeshVertex, MeshView, vertex_words};
use crate::bytes::{read_u32_le, u32_of_le};
use crate::pak_loader::{decode_vertex, words_at};
use crate::text::{decimal, push_decimal, push_str};
use vstd::prelude::*;

verus! {

// ---------------------------------------------------------------------------
// Metadata
// ---------------------------------------------------------------------------

/// What the metadata gives: mesh name, vertex count, index count and the
/// number of floats per vertex (0 counts mean "infer from the data").
#[derive(Debug, Clone, PartialEq, Eq)]
pub struct PieMeshMetadata {
    pub name: String,
    pub vertex_count: u64,
    pub index_count: u64,
    pub vertex_stride: u64,
}

/// The fields of a metadata JSON document: `name` when it is a string, and
/// `vertex_count`, `index_count`, `vertex_stride` when they are unsigned
/// integers; or the parser's error text.
pub uninterp spec fn json_metadata_fields(text: Seq<char>) -> Result<
    (Option<Seq<char>>, Option<u64>, Option<u64>, Option<u64>),
    Seq<char>,
>;

/// The metadata fields as read from JSON.
pub struct JsonMetadataFields {
    pub name: Option<String>,
    pub vertex_count: Option<u64>,
    pub index_count: Option<u64>,
    pub vertex_stride: Option<u64>,
}

pub open spec fn fields_view(r: Result<JsonMetadataFields, String>) -> Result<
    (Option<Seq<char>>, Option<u64>, Option<u64>, Option<u64>),
    Seq<char>,
> {
    match r {
        Ok(f) => Ok(
            (
                match f.name {
                    Some(n) => Some(n@),
                    None => None,
                },
                f.vertex_count,
                f.index_count,
                f.vertex_stride,
            ),
        ),
        Err(e) => Err(e@),
    }
}

/// Parses `text` with `serde_json::from_str` into a `serde_json::Value` and
/// reads its `name` (`as_str`) and `vertex_count`, `index_count`,
/// `vertex_stride` (`as_u64`) fields. What comes back depends on the text
/// alone and is only named, not stated.
#[verifier::external_body]
fn read_json_fields(text: &str) -> (r: Result<JsonMetadataFields, String>)
    ensures
        fields_view(r) == json_metadata_fields(text@),
{
    match serde_json::from_str::<serde_json::Value>(text) {
        Err(e) => Err(e.to_string()),
        Ok(v) => Ok(JsonMetadataFields {
            name: v["name"].as_str().map(|s| s.to_string()),
            vertex_count: v["vertex_count"].as_u64(),
            index_count: v["index_count"].as_u64(),
            vertex_stride: v["vertex_stride"].as_u64(),
        }),
    }
}

/// The name a mesh gets when the metadata gives none: the file stem, or
/// `mesh` when the stem is not valid UTF-8.
pub open spec fn fallback_name(stem: Option<Seq<char>>) -> Seq<char> {
    match stem {
        Some(s) => s,
        None => "mesh"@,
    }
}

pub open spec fn or_default(o: Option<u64>, d: u64) -> u64 {
    match o {
        Some(x) => x,
        None => d,
    }
}

impl PieMeshMetadata {
    /// Metadata for a mesh that has no JSON file: named after the file stem,
    /// with the sizes left to be inferred from the data.
    pub fn inferred(stem: String) -> (r: PieMeshMetadata)
        ensures
            r.name@ == stem@,
            r.vertex_count == 0,
            r.index_count == 0,
            r.vertex_stride == 12,
    {
        PieMeshMetadata { name: stem, vertex_count: 0, index_count: 0, vertex_stride: 12 }
    }

    /// Metadata from the fields read out of a JSON document; missing or
    /// mistyped fields fall back to the stem (`None` when it is not UTF-8,
    /// giving `mesh`), 0, 0 and 12.
    pub fn from_fields(fields: JsonMetadataFields, stem: Option<&str>) -> (r: PieMeshMetadata)
        ensures
            r.name@ == match fields.name {
                Some(n) => n@,
                None => fallback_name(
                    match stem {
                        Some(s) => Some(s@),
                        None => None,
                    },
                ),
            },
            r.vertex_count == or_default(fields.vertex_count, 0),
            r.index_count == or_default(fields.index_count, 0),
            r.vertex_stride == or_default(fields.vertex_stride, 12),
    {
        let name = match fields.name {
            Some(n) => n,
            None => match stem {
                Some(s) => s.to_owned(),
                None => "mesh".to_owned(),
            },
        };
        proof {
            reveal_strlit("mesh");
        }
        PieMeshMetadata {
            name,
            vertex_count: match fields.vertex_count {
                Some(x) => x,
                None => 0,
            },
            index_count: match fields.index_count {
                Some(x) => x,
                None => 0,
            },
            vertex_stride: match fields.vertex_stride {
                Some(x) => x,
                None => 12,
            },
        }
    }

    /// Metadata read from the JSON text, as `from_fields` builds it from
    /// the document's fields. A parse failure gives the parser's error text.
    pub fn from_json(text: &str, stem: Option<&str>) -> (r: Result<PieMeshMetadata, String>)
        ensures
            match json_metadata_fields(text@) {
                Err(m) => r matches Err(e) && e@ == m,
                Ok((name, vc, ic, vs)) => r matches Ok(x) && x.name@ == match name {
                    Some(n) => n,
                    None => fallback_name(
                        match stem {
                            Some(s) => Some(s@),
                            None => None,
                        },
                    ),
                } && x.vertex_count == or_default(vc, 0) && x.index_count == or_default(ic, 0)
                    && x.vertex_stride == or_default(vs, 12),
            },
    {
        match read_json_fields(text) {
            Err(e) => Err(e),
            Ok(fields) => Ok(PieMeshMetadata::from_fields(fields, stem)),
        }
    }
}

// ---------------------------------------------------------------------------
// Vertex/index split
// ---------------------------------------------------------------------------

/// Whether the bytes after `v` vertices of `vb` bytes each form a triangle
/// index buffer (a whole number of `u32`, at least three, a multiple of
/// three) whose every index is below `v`.
pub open spec fn valid_index_split(d: Seq<u8>, v: nat, vb: nat) -> bool {
    let start = v * vb;
    let rem = d.len() - start;
    &&& rem % 4 == 0
    &&& rem / 4 >= 3
    &&& (rem / 4) % 3 == 0
    &&& forall|k: int|
        0 <= k < rem / 4 ==> u32_of_le(#[trigger] d.subrange(start + 4 * k, start + 4 * k + 4))
            < v
}

/// The first vertex count from `v` on, below `len / vb`, that splits the
/// data validly; `len / vb` when none does.
pub open spec fn first_split(d: Seq<u8>, vb: nat, v: nat) -> nat
    decreases d.len() / vb - v,
{
    if v >= d.len() / vb {
        d.len() / vb
    } else if valid_index_split(d, v, vb) {
        v
    } else {
        first_split(d, vb, v + 1)
    }
}

/// The vertex count guessed for headerless mesh data of
/// `floats_per_vertex` floats per vertex.
pub open spec fn guessed_vertex_count(d: Seq<u8>, floats_per_vertex: nat) -> nat {
    first_split(d, 4 * floats_per_vertex, 1)
}

fn indices_below(data: &[u8], start: usize, count: usize, bound: usize) -> (r: bool)
    requires
        start + 4 * count <= data@.len(),
    ensures
        r == forall|k: int|
            0 <= k < count ==> u32_of_le(
                #[trigger] data@.subrange(start + 4 * k, start + 4 * k + 4),
            ) < bound,
{
    let len = data.len();
    let mut k: usize = 0;
    while k < count
        invariant
            len == data@.len(),
            start + 4 * count <= data@.len(),
            k <= count,
            forall|j: int|
                0 <= j < k ==> u32_of_le(#[trigger] data@.subrange(start + 4 * j, start + 4 * j + 4))
                    < bound,
        decreases count - k,
    {
        let idx = read_u32_le(data, start + 4 * k);
        if idx as usize >= bound {
            return false;
        }
        k = k + 1;
    }
    true
}

/// Guesses how many vertices headerless mesh data holds, assuming vertices
/// (`floats_per_vertex` floats each) followed by `u32` indices: the
/// smallest count, from 1, after which the rest is a valid triangle index
/// buffer referring only to those vertices; otherwise as many whole vertices
/// as fit.
pub fn guess_vertex_count(data: &[u8], floats_per_vertex: usize) -> (r: usize)
    requires
        0 < floats_per_vertex,
        4 * floats_per_vertex <= usize::MAX,
    ensures
        r == guessed_vertex_count(data@, floats_per_vertex as nat),
        forall|w: nat|
            1 <= w < r ==> !#[trigger] valid_index_split(data@, w, 4 * floats_per_vertex as nat),
        r < data@.len() / (4 * floats_per_vertex as nat) ==> valid_index_split(
            data@,
            r as nat,
            4 * floats_per_vertex as nat,
        ),
{
    proof {
        law_guess_is_smallest_valid_split(data@, floats_per_vertex as nat);
    }
    let len = data.len();
    let vb = 4 * floats_per_vertex;
    let limit = len / vb;
    let ghost d = data@;
    let mut v: usize = 1;
    while v < limit
        invariant
            len == d.len(),
            d == data@,
            vb == 4 * floats_per_vertex,
            vb > 0,
            limit == len / vb,
            1 <= v,
            first_split(d, vb as nat, 1) == first_split(d, vb as nat, v as nat),
        decreases limit - v,
    {
        assert(v * vb < len) by (nonlinear_arith)
            requires
                v < limit,
                limit == len / vb,
                vb > 0,
        ;
        let start = v * vb;
        let rem = len - start;
        if rem % 4 == 0 {
            let count = rem / 4;
            if count >= 3 && count % 3 == 0 {
                if indices_below(data, start, count, v) {
                    assert(valid_index_split(d, v as nat, vb as nat));
                    proof {
                        law_guess_is_smallest_valid_split(data@, floats_per_vertex as nat);
                    }
                    return v;
                }
            }
        }
        v = v + 1;
    }
    limit
}

// ---------------------------------------------------------------------------
// Mesh data
// ---------------------------------------------------------------------------

/// The first `n` vertices of the data, twelve words each.
pub open spec fn pie_vertices(d: Seq<u8>, n: nat) -> Seq<Seq<u32>> {
    Seq::new(n, |i: int| words_at(d, 48 * i, 12))
}

/// The mesh the binary data holds under the given metadata counts, or why
/// it holds none. With both counts given the data must be long enough for
/// them; otherwise the vertex count is guessed and the rest must be whole
/// `u32` indices.
pub open spec fn pie_mesh_data(
    name: Seq<char>,
    vertex_count: u64,
    index_count: u64,
    d: Seq<u8>,
    material: MaterialHandle,
) -> Result<MeshView, Seq<char>> {
    if vertex_count > 0 && index_count > 0 {
        let vlen = vertex_count * 48;
        let ilen = index_count * 4;
        if d.len() < vlen + ilen {
            Err("pie_mesh data truncated: expected "@ + decimal((vlen + ilen) as nat) + " bytes ("@
                + decimal(vertex_count as nat) + " vertices + "@ + decimal(index_count as nat)
                + " indices), got "@ + decimal(d.len()))
        } else {
            Ok((name, pie_vertices(d, vertex_count as nat), words_at(d, vlen, index_count as nat), material))
        }
    } else {
        let g = guessed_vertex_count(d, 12);
        let vlen = g * 48;
        let rem = d.len() - vlen;
        if rem % 4 != 0 {
            Err("pie_mesh: cannot determine vertex/index boundary from data"@)
        } else {
            Ok((name, pie_vertices(d, g), words_at(d, vlen as int, (rem / 4) as nat), material))
        }
    }
}

fn read_vertices(data: &[u8], n: usize) -> (r: Vec<MeshVertex>)
    requires
        48 * n <= data@.len(),
    ensures
        r@.map_values(|v: MeshVertex| vertex_words(v)) == pie_vertices(data@, n as nat),
{
    let len = data.len();
    let mut out: Vec<MeshVertex> = Vec::new();
    let mut i: usize = 0;
    while i < n
        invariant
            len == data@.len(),
            48 * n <= data@.len(),
            i <= n,
            out@.map_values(|v: MeshVertex| vertex_words(v)) =~= pie_vertices(data@, n as nat).take(
                i as int,
            ),
        decreases n - i,
    {
        let v = decode_vertex(data, 48 * i);
        let ghost before = out@;
        out.push(v);
        assert(out@.map_values(|v: MeshVertex| vertex_words(v)) =~= before.map_values(
            |v: MeshVertex| vertex_words(v),
        ).push(vertex_words(v)));
        i = i + 1;
    }
    out
}

fn read_words(data: &[u8], start: usize, n: usize) -> (r: Vec<u32>)
    requires
        start + 4 * n <= data@.len(),
    ensures
        r@ == words_at(data@, start as int, n as nat),
{
    let len = data.len();
    let mut out: Vec<u32> = Vec::new();
    let mut i: usize = 0;
    while i < n
        invariant
            len == data@.len(),
            start + 4 * n <= data@.len(),
            i <= n,
            out@ =~= words_at(data@, start as int, n as nat).take(i as int),
        decreases n - i,
    {
        out.push(read_u32_le(data, start + 4 * i));
        i = i + 1;
    }
    out
}

fn truncated_error(expected: u64, vertex_count: u64, index_count: u64, got: u64) -> (r: String)
    ensures
        r@ == "pie_mesh data truncated: expected "@ + decimal(expected as nat) + " bytes ("@
            + decimal(vertex_count as nat) + " vertices + "@ + decimal(index_count as nat)
            + " indices), got "@ + decimal(got as nat),
{
    let mut s = String::new();
    push_str(&mut s, "pie_mesh data truncated: expected ");
    push_decimal(&mut s, expected);
    push_str(&mut s, " bytes (");
    push_decimal(&mut s, vertex_count);
    push_str(&mut s, " vertices + ");
    push_decimal(&mut s, index_count);
    push_str(&mut s, " indices), got ");
    push_decimal(&mut s, got);
    s
}

/// Decodes the binary mesh data under `meta`; every failure is an I/O error
/// at `path`. Floats are kept as their little-endian bit patterns.
pub fn parse_pie_mesh_data(
    meta: &PieMeshMetadata,
    data: &[u8],
    material: MaterialHandle,
    path: &str,
) -> (r: Result<MeshAsset, AssetError>)
    requires
        meta.vertex_count > 0 && meta.index_count > 0 ==> meta.vertex_count * 48 + meta.index_count
            * 4 <= usize::MAX,
    ensures
        match pie_mesh_data(meta.name@, meta.vertex_count, meta.index_count, data@, material) {
            Ok(v) => r matches Ok(m) && m@ == v,
            Err(msg) => r matches Err(AssetError::Io { path: p, message }) && p@ == path@
                && message@ == msg,
        },
{
    let len = data.len();
    if meta.vertex_count > 0 && meta.index_count > 0 {
        let vertex_count = meta.vertex_count as usize;
        let index_count = meta.index_count as usize;
        let vlen = vertex_count * 48;
        let ilen = index_count * 4;
        if len < vlen + ilen {
            let message = truncated_error(
                (vlen + ilen) as u64,
                meta.vertex_count,
                meta.index_count,
                len as u64,
            );
            return Err(AssetError::Io { path: path.to_owned(), message });
        }
        let vertices = read_vertices(data, vertex_count);
        let indices = read_words(data, vlen, index_count);
        Ok(MeshAsset { name: meta.name.clone(), vertices, indices, material })
    } else {
        let g = guess_vertex_count(data, 12);
        proof {
            lemma_first_split_bound(data@, 48, 1);
        }
        let vlen = g * 48;
        let rem = len - vlen;
        if rem % 4 != 0 {
            return Err(
                AssetError::io(path, "pie_mesh: cannot determine vertex/index boundary from data"),
            );
        }
        let vertices = read_vertices(data, g);
        let indices = read_words(data, vlen, rem / 4);
        Ok(MeshAsset { name: meta.name.clone(), vertices, indices, material })
    }
}

/// The guessed vertex count never exceeds the whole vertices that fit.
pub proof fn lemma_first_split_bound(d: Seq<u8>, vb: nat, v: nat)
    requires
        vb > 0,
    ensures
        first_split(d, vb, v) <= d.len() / vb,
    decreases d.len() / vb - v,
{
    if v < d.len() / vb && !valid_index_split(d, v, vb) {
        lemma_first_split_bound(d, vb, v + 1);
    }
}

/// A guessed vertex count short of "all whole vertices" leaves a valid
/// triangle index buffer after the vertices.
pub proof fn law_guessed_split_is_valid(d: Seq<u8>, floats_per_vertex: nat)
    requires
        floats_per_vertex > 0,
    ensures
        guessed_vertex_count(d, floats_per_vertex) < d.len() / (4 * floats_per_vertex)
            ==> valid_index_split(d, guessed_vertex_count(d, floats_per_vertex), 4 * floats_per_vertex),
{
    lemma_first_split_valid(d, 4 * floats_per_vertex, 1);
}

proof fn lemma_first_split_valid(d: Seq<u8>, vb: nat, v: nat)
    requires
        vb > 0,
    ensures
        first_split(d, vb, v) < d.len() / vb ==> valid_index_split(d, first_split(d, vb, v), vb),
    decreases d.len() / vb - v,
{
    if v < d.len() / vb && !valid_index_split(d, v, vb) {
        lemma_first_split_valid(d, vb, v + 1);
    }
}

proof fn lemma_first_split_minimal(d: Seq<u8>, vb: nat, v: nat)
    requires
        vb > 0,
    ensures
        v <= first_split(d, vb, v) || (v >= d.len() / vb && first_split(d, vb, v) == d.len() / vb),
        first_split(d, vb, v) <= d.len() / vb || v >= d.len() / vb,
        forall|w: nat| v <= w < first_split(d, vb, v) ==> !#[trigger] valid_index_split(d, w, vb),
    decreases d.len() / vb - v,
{
    if v < d.len() / vb && !valid_index_split(d, v, vb) {
        lemma_first_split_minimal(d, vb, v + 1);
        assert forall|w: nat| v <= w < first_split(d, vb, v) implies !#[trigger] valid_index_split(
            d,
            w,
            vb,
        ) by {
            if w > v {
                assert(v + 1 <= w);
            }
        }
    }
}

/// The guess is the smallest vertex count after which the rest is a valid
/// triangle index buffer: no count from 1 up to the guess splits the data
/// validly, the guess itself does when it is below the number of whole
/// vertices the data could hold, and the guess never exceeds that number
/// (it equals it when no count below it works).
pub proof fn law_guess_is_smallest_valid_split(d: Seq<u8>, floats_per_vertex: nat)
    requires
        floats_per_vertex > 0,
    ensures
        forall|w: nat|
            1 <= w < guessed_vertex_count(d, floats_per_vertex) ==> !#[trigger] valid_index_split(
                d,
                w,
                4 * floats_per_vertex,
            ),
        guessed_vertex_count(d, floats_per_vertex) < d.len() / (4 * floats_per_vertex)
            ==> valid_index_split(d, guessed_vertex_count(d, floats_per_vertex), 4 * floats_per_vertex),
        guessed_vertex_count(d, floats_per_vertex) <= d.len() / (4 * floats_per_vertex)
            || d.len() / (4 * floats_per_vertex) == 0,
{
    lemma_first_split_minimal(d, 4 * floats_per_vertex, 1);
    lemma_first_split_valid(d, 4 * floats_per_vertex, 1);
}

} // verus!
