//! Reading mesh geometry out of binary FBX files (Kaydara FBX Binary 7.x).
//!
//! Only what mesh loading needs is read: the record tree, and from each
//! `Geometry` record its `Vertices` (f64 array), `PolygonVertexIndex` (i32
//! array) and `LayerElementNormal > Normals` children. Polygons are
//! fan-triangulated. Floating-point values are carried as their IEEE-754 bit
//! patterns; converting them is left to the caller.
use crate::bytes::{copy_range, copy_vec, read_u32_le, read_u64_le, u32_of_le, u64_of_le};
use crate::text::{decimal, push_decimal, push_str};
use vstd::prelude::*;
use vstd::utf8::encode_utf8;

verus! {

// ---------------------------------------------------------------------------
// Polygon triangulation
// ---------------------------------------------------------------------------

/// The vertex index an FBX polygon index stands for: the last vertex of each
/// polygon is stored as `-(index + 1)`.
pub open spec fn polygon_vertex(i: i32) -> u32 {
    if i < 0 {
        (-(i as int) - 1) as u32
    } else {
        i as u32
    }
}

/// The fan triangles `(p[0], p[k], p[k + 1])` for `k` from `k` up to the
/// polygon's second-to-last vertex.
pub open spec fn fan_from(poly: Seq<u32>, k: int) -> Seq<u32>
    decreases poly.len() - k,
{
    if k < 1 || k + 1 >= poly.len() {
        Seq::empty()
    } else {
        seq![poly[0], poly[k], poly[k + 1]] + fan_from(poly, k + 1)
    }
}

/// The fan triangulation of one polygon; fewer than three vertices give no
/// triangle.
pub open spec fn fan(poly: Seq<u32>) -> Seq<u32> {
    fan_from(poly, 1)
}

/// Triangulates the polygon indices `raw`, with `open` the vertices of the
/// polygon read so far. A polygon left open at the end is triangulated too.
pub open spec fn triangulate_from(raw: Seq<i32>, open: Seq<u32>) -> Seq<u32>
    decreases raw.len(),
{
    if raw.len() == 0 {
        fan(open)
    } else {
        let poly = open.push(polygon_vertex(raw[0]));
        if raw[0] < 0 {
            fan(poly) + triangulate_from(raw.drop_first(), Seq::empty())
        } else {
            triangulate_from(raw.drop_first(), poly)
        }
    }
}

/// The triangle list of FBX polygon vertex indices.
pub open spec fn triangulate(raw: Seq<i32>) -> Seq<u32> {
    triangulate_from(raw, Seq::empty())
}

fn push_fan(triangles: &mut Vec<u32>, poly: &Vec<u32>)
    ensures
        final(triangles)@ == old(triangles)@ + fan(poly@),
{
    let ghost start = triangles@;
    let n = poly.len();
    if n < 3 {
        assert(fan(poly@) =~= Seq::<u32>::empty());
        assert(triangles@ =~= start + fan(poly@));
        return;
    }
    let mut k: usize = 1;
    while k + 1 < n
        invariant
            n == poly@.len(),
            n >= 3,
            1 <= k < n,
            start + fan(poly@) == triangles@ + fan_from(poly@, k as int),
        decreases n - k,
    {
        let ghost before = triangles@;
        triangles.push(poly[0]);
        triangles.push(poly[k]);
        triangles.push(poly[k + 1]);
        assert(triangles@ =~= before + seq![poly@[0], poly@[k as int], poly@[k + 1]]);
        assert(before + fan_from(poly@, k as int) =~= triangles@ + fan_from(poly@, k + 1));
        k = k + 1;
    }
    assert(fan_from(poly@, k as int) =~= Seq::<u32>::empty());
    assert(triangles@ =~= start + fan(poly@));
}

/// Converts FBX polygon vertex indices to a flat triangle index list, fan
/// triangulating each polygon. The last index of a polygon is stored as
/// `-(index + 1)`, so `[0, 1, 2, -4]` is the quad 0-1-2-3.
pub fn polygon_indices_to_triangles(raw_indices: &[i32]) -> (r: Vec<u32>)
    ensures
        r@ == triangulate(raw_indices@),
{
    let mut triangles: Vec<u32> = Vec::new();
    let mut polygon: Vec<u32> = Vec::new();
    let n = raw_indices.len();
    let mut i: usize = 0;
    assert(raw_indices@.skip(0) =~= raw_indices@);
    assert(triangles@ + triangulate(raw_indices@) =~= triangulate(raw_indices@));
    while i < n
        invariant
            n == raw_indices@.len(),
            i <= n,
            triangulate(raw_indices@) == triangles@ + triangulate_from(
                raw_indices@.skip(i as int),
                polygon@,
            ),
        decreases n - i,
    {
        let idx = raw_indices[i];
        let ghost rest = raw_indices@.skip(i as int);
        assert(rest[0] == idx);
        assert(rest.drop_first() =~= raw_indices@.skip(i + 1));
        let v: u32 = if idx < 0 {
            (-(idx + 1)) as u32
        } else {
            idx as u32
        };
        let ghost open = polygon@;
        polygon.push(v);
        if idx < 0 {
            let ghost before = triangles@;
            push_fan(&mut triangles, &polygon);
            polygon = Vec::new();
            assert(triangles@ + triangulate_from(raw_indices@.skip(i + 1), polygon@) =~= before
                + triangulate_from(rest, open));
        }
        i = i + 1;
    }
    assert(raw_indices@.skip(n as int) =~= Seq::<i32>::empty());
    push_fan(&mut triangles, &polygon);
    triangles
}

// ---------------------------------------------------------------------------
// Errors
// ---------------------------------------------------------------------------

/// Why FBX data could not be read.
#[derive(Debug, Clone, PartialEq, Eq)]
pub enum FbxError {
    /// The data is not well-formed FBX; the text says what is wrong.
    Malformed(String),
    /// The header of a boolean array runs past the end of the data: bytes up
    /// to `end` were needed from an input of `len` bytes.
    HeaderOutOfRange { end: usize, len: usize },
}

/// The mathematical content of an [`FbxError`].
pub enum FbxFault {
    Malformed(Seq<char>),
    HeaderOutOfRange(int, int),
}

impl View for FbxError {
    type V = FbxFault;

    open spec fn view(&self) -> FbxFault {
        match self {
            FbxError::Malformed(m) => FbxFault::Malformed(m@),
            FbxError::HeaderOutOfRange { end, len } => FbxFault::HeaderOutOfRange(
                *end as int,
                *len as int,
            ),
        }
    }
}

fn malformed(message: &str) -> (r: FbxError)
    ensures
        r@ == FbxFault::Malformed(message@),
{
    FbxError::Malformed(message.to_owned())
}

// ---------------------------------------------------------------------------
// Array properties
// ---------------------------------------------------------------------------

/// What zlib decompression of `input` gives: the decompressed bytes, or the
/// text of the decoder's error.
pub uninterp spec fn zlib_decompress(input: Seq<u8>) -> Result<Seq<u8>, Seq<char>>;

pub open spec fn inflate_result(r: Result<Vec<u8>, String>) -> Result<Seq<u8>, Seq<char>> {
    match r {
        Ok(v) => Ok(v@),
        Err(e) => Err(e@),
    }
}

/// Decompresses a zlib stream with `flate2::read::ZlibDecoder`, reading to
/// the end. The result is taken to depend on the input bytes alone; what it
/// is, is not stated beyond that name.
#[verifier::external_body]
fn inflate_zlib(input: &[u8]) -> (r: Result<Vec<u8>, String>)
    ensures
        inflate_result(r) == zlib_decompress(input@),
{
    let mut decoder = flate2::read::ZlibDecoder::new(input);
    let mut out: Vec<u8> = Vec::new();
    match std::io::Read::read_to_end(&mut decoder, &mut out) {
        Ok(_) => Ok(out),
        Err(e) => Err(e.to_string()),
    }
}

/// The payload bytes of the array whose header starts at `p`, and the
/// offset just after it. An array is `[encoding: u32][count: u32]` followed
/// by `count * elem` raw bytes (encoding 0) or by `[length: u32]` and that
/// many bytes of zlib data. When `checked`, the header must end by `end`;
/// otherwise it is read wherever it lies.
pub open spec fn array_payload(d: Seq<u8>, p: int, end: int, elem: int, checked: bool) -> Result<
    (Seq<u8>, int),
    FbxFault,
> {
    if checked && p + 8 > end {
        Err(FbxFault::Malformed("FBX array header truncated"@))
    } else if p + 8 > d.len() {
        Err(FbxFault::HeaderOutOfRange(if p + 4 > d.len() { p + 4 } else { p + 8 }, d.len() as int))
    } else {
        let encoding = u32_of_le(d.subrange(p, p + 4));
        let count = u32_of_le(d.subrange(p + 4, p + 8));
        let pos = p + 8;
        if encoding == 0 {
            let byte_count = count * elem;
            if pos + byte_count > d.len() {
                Err(FbxFault::Malformed("FBX uncompressed array truncated"@))
            } else {
                Ok((d.subrange(pos, pos + byte_count), pos + byte_count))
            }
        } else if pos + 4 > d.len() {
            Err(FbxFault::Malformed("FBX compressed array header truncated"@))
        } else {
            let compressed_len = u32_of_le(d.subrange(pos, pos + 4));
            let start = pos + 4;
            if start + compressed_len > d.len() {
                Err(FbxFault::Malformed("FBX compressed array data truncated"@))
            } else {
                match zlib_decompress(d.subrange(start, start + compressed_len)) {
                    Err(m) => Err(FbxFault::Malformed(m)),
                    Ok(out) => Ok((out, start + compressed_len)),
                }
            }
        }
    }
}

pub open spec fn payload_result(r: Result<(Vec<u8>, u64), FbxError>) -> Result<(Seq<u8>, int), FbxFault> {
    match r {
        Ok((b, e)) => Ok((b@, e as int)),
        Err(x) => Err(x@),
    }
}

fn read_array(data: &[u8], p: usize, end: usize, elem: u64, checked: bool) -> (r: Result<
    (Vec<u8>, u64),
    FbxError,
>)
    requires
        p <= data@.len(),
        end <= data@.len(),
        data@.len() <= isize::MAX,
        1 <= elem <= 8,
    ensures
        payload_result(r) == array_payload(data@, p as int, end as int, elem as int, checked),
        r matches Ok((_, e)) ==> e <= data@.len(),
{
    let len = data.len();
    if checked && (end < 8 || p > end - 8) {
        return Err(malformed("FBX array header truncated"));
    }
    if len < 8 || p > len - 8 {
        let need = if len < 4 || p > len - 4 {
            p + 4
        } else {
            p + 8
        };
        return Err(FbxError::HeaderOutOfRange { end: need, len });
    }
    let encoding = read_u32_le(data, p);
    let count = read_u32_le(data, p + 4) as u64;
    let pos = p + 8;
    if encoding == 0 {
        assert(count * elem <= 0xffff_ffff * 8) by (nonlinear_arith)
            requires
                count <= 0xffff_ffff,
                elem <= 8,
        ;
        let byte_count = count * elem;
        if byte_count > (len - pos) as u64 {
            return Err(malformed("FBX uncompressed array truncated"));
        }
        let stop = pos + byte_count as usize;
        let bytes = copy_range(data, pos, stop);
        Ok((bytes, stop as u64))
    } else {
        if len - pos < 4 {
            return Err(malformed("FBX compressed array header truncated"));
        }
        let compressed_len = read_u32_le(data, pos) as usize;
        let start = pos + 4;
        if compressed_len > len - start {
            return Err(malformed("FBX compressed array data truncated"));
        }
        let stop = start + compressed_len;
        let compressed = copy_range(data, start, stop);
        match inflate_zlib(compressed.as_slice()) {
            Err(m) => Err(FbxError::Malformed(m)),
            Ok(out) => Ok((out, stop as u64)),
        }
    }
}

/// Consecutive little-endian 32-bit words; a trailing partial word is
/// ignored.
pub open spec fn le_words32(b: Seq<u8>) -> Seq<u32> {
    Seq::new(b.len() / 4, |i: int| u32_of_le(b.subrange(4 * i, 4 * i + 4)))
}

/// Consecutive little-endian 64-bit words; a trailing partial word is
/// ignored.
pub open spec fn le_words64(b: Seq<u8>) -> Seq<u64> {
    Seq::new(b.len() / 8, |i: int| u64_of_le(b.subrange(8 * i, 8 * i + 8)))
}

/// The two's-complement reading of a 32-bit word.
pub open spec fn as_i32(w: u32) -> i32 {
    if w < 0x8000_0000 {
        w as i32
    } else {
        (w - 0x1_0000_0000) as i32
    }
}

/// Decodes an array payload of 32-bit elements (`f` float bits or `i`
/// words) into little-endian words; a trailing partial word is dropped.
pub fn decode_words32(b: &[u8]) -> (r: Vec<u32>)
    ensures
        r@ == le_words32(b@),
{
    let len = b.len();
    let n = len / 4;
    let mut out: Vec<u32> = Vec::new();
    let mut i: usize = 0;
    while i < n
        invariant
            n == b@.len() / 4,
            len == b@.len(),
            i <= n,
            out@ =~= le_words32(b@).subrange(0, i as int),
        decreases n - i,
    {
        assert(4 * i + 4 <= b@.len()) by (nonlinear_arith)
            requires
                i < n,
                n == b@.len() / 4,
        ;
        out.push(read_u32_le(b, 4 * i));
        i = i + 1;
    }
    out
}

/// Decodes an array payload of 64-bit elements (`d` float bits)
/// into little-endian words; a trailing partial word is dropped.
pub fn decode_words64(b: &[u8]) -> (r: Vec<u64>)
    ensures
        r@ == le_words64(b@),
{
    let len = b.len();
    let n = len / 8;
    let mut out: Vec<u64> = Vec::new();
    let mut i: usize = 0;
    while i < n
        invariant
            n == b@.len() / 8,
            len == b@.len(),
            i <= n,
            out@ =~= le_words64(b@).subrange(0, i as int),
        decreases n - i,
    {
        assert(8 * i + 8 <= b@.len()) by (nonlinear_arith)
            requires
                i < n,
                n == b@.len() / 8,
        ;
        out.push(read_u64_le(b, 8 * i));
        i = i + 1;
    }
    out
}

fn to_i32(w: u32) -> (r: i32)
    ensures
        r == as_i32(w),
{
    if w < 0x8000_0000 {
        w as i32
    } else {
        let below: i32 = (0xffff_ffffu32 - w) as i32;
        -below - 1
    }
}

/// Decodes an `i` array payload into signed 32-bit integers.
pub fn decode_ints32(b: &[u8]) -> (r: Vec<i32>)
    ensures
        r@ == le_words32(b@).map_values(|w: u32| as_i32(w)),
{
    let words = decode_words32(b);
    let mut out: Vec<i32> = Vec::new();
    let mut i: usize = 0;
    while i < words.len()
        invariant
            i <= words@.len(),
            out@ =~= words@.subrange(0, i as int).map_values(|w: u32| as_i32(w)),
        decreases words@.len() - i,
    {
        out.push(to_i32(words[i]));
        i = i + 1;
    }
    assert(words@.subrange(0, words@.len() as int) =~= words@);
    out
}

// ---------------------------------------------------------------------------
// Records
// ---------------------------------------------------------------------------

/// A property of an FBX record, as far as geometry loading reads it.
pub enum PropModel {
    Floats(Seq<u32>),
    Doubles(Seq<u64>),
    Ints(Seq<i32>),
    Int64s,
    Text,
    Other,
}

/// An FBX record: its name bytes, its properties and its child records.
pub struct RecordModel {
    pub name: Seq<u8>,
    pub props: Seq<PropModel>,
    pub children: Seq<RecordModel>,
}

/// One step of the property list: a property and the offset after it, or
/// the offset at which reading the list stops.
pub enum PropStep {
    Item(PropModel, int),
    Stop(int),
}

/// Reads the property at `p` (its type code, then its value) of a record
/// ending at `rec_end`.
pub open spec fn parse_prop(d: Seq<u8>, p: int, rec_end: int) -> Result<PropStep, FbxFault> {
    let t = d[p] as char;
    let q = p + 1;
    if t == 'Y' {
        Ok(PropStep::Item(PropModel::Other, q + 2))
    } else if t == 'C' {
        Ok(PropStep::Item(PropModel::Other, q + 1))
    } else if t == 'I' || t == 'F' {
        Ok(PropStep::Item(PropModel::Other, q + 4))
    } else if t == 'D' || t == 'L' {
        Ok(PropStep::Item(PropModel::Other, q + 8))
    } else if t == 'f' {
        match array_payload(d, q, rec_end, 4, true) {
            Err(e) => Err(e),
            Ok((b, e)) => Ok(PropStep::Item(PropModel::Floats(le_words32(b)), e)),
        }
    } else if t == 'd' {
        match array_payload(d, q, rec_end, 8, true) {
            Err(e) => Err(e),
            Ok((b, e)) => Ok(PropStep::Item(PropModel::Doubles(le_words64(b)), e)),
        }
    } else if t == 'i' {
        match array_payload(d, q, rec_end, 4, true) {
            Err(e) => Err(e),
            Ok((b, e)) => Ok(
                PropStep::Item(PropModel::Ints(le_words32(b).map_values(|w: u32| as_i32(w))), e),
            ),
        }
    } else if t == 'l' {
        match array_payload(d, q, rec_end, 8, true) {
            Err(e) => Err(e),
            Ok((_, e)) => Ok(PropStep::Item(PropModel::Int64s, e)),
        }
    } else if t == 'b' {
        match array_payload(d, q, rec_end, 1, false) {
            Err(e) => Err(e),
            Ok((_, e)) => Ok(PropStep::Item(PropModel::Other, e)),
        }
    } else if t == 'S' {
        if q + 4 > rec_end {
            Ok(PropStep::Stop(q))
        } else {
            let len = u32_of_le(d.subrange(q, q + 4));
            if q + 4 + len > rec_end {
                Ok(PropStep::Stop(q + 4))
            } else {
                Ok(PropStep::Item(PropModel::Text, q + 4 + len))
            }
        }
    } else if t == 'R' {
        if q + 4 > rec_end {
            Ok(PropStep::Stop(q))
        } else {
            Ok(PropStep::Item(PropModel::Other, q + 4 + u32_of_le(d.subrange(q, q + 4))))
        }
    } else {
        Ok(PropStep::Stop(q))
    }
}

/// Reads up to `n` properties from `p`, stopping early at `rec_end`, and
/// gives them with the offset where reading ended.
pub open spec fn parse_props(d: Seq<u8>, p: int, rec_end: int, n: nat) -> Result<
    (Seq<PropModel>, int),
    FbxFault,
>
    decreases n,
{
    if n == 0 || p >= rec_end {
        Ok((Seq::empty(), p))
    } else {
        match parse_prop(d, p, rec_end) {
            Err(e) => Err(e),
            Ok(PropStep::Stop(q)) => Ok((Seq::empty(), q)),
            Ok(PropStep::Item(prop, q)) => match parse_props(d, q, rec_end, (n - 1) as nat) {
                Err(e) => Err(e),
                Ok((rest, e)) => Ok((seq![prop] + rest, e)),
            },
        }
    }
}

/// Reading properties never moves backwards.
pub proof fn lemma_props_advance(d: Seq<u8>, p: int, rec_end: int, n: nat)
    ensures
        parse_props(d, p, rec_end, n) matches Ok((_, e)) ==> e >= p,
    decreases n,
{
    if n > 0 && p < rec_end {
        if let Ok(PropStep::Item(_, q)) = parse_prop(d, p, rec_end) {
            lemma_props_advance(d, q, rec_end, (n - 1) as nat);
        }
    }
}

/// Size of a record header: 13 bytes with 32-bit fields (FBX 7.1 to 7.4),
/// 25 bytes with 64-bit fields (FBX 7.5 and later).
pub open spec fn header_size(wide: bool) -> int {
    if wide {
        25
    } else {
        13
    }
}

/// The record header at `o`: end offset, property count, name length.
pub open spec fn record_header(d: Seq<u8>, o: int, wide: bool) -> (int, int, int) {
    if wide {
        (
            u64_of_le(d.subrange(o, o + 8)) as int,
            u64_of_le(d.subrange(o + 8, o + 16)) as int,
            d[o + 24] as int,
        )
    } else {
        (
            u32_of_le(d.subrange(o, o + 4)) as int,
            u32_of_le(d.subrange(o + 4, o + 8)) as int,
            d[o + 12] as int,
        )
    }
}

/// Reads the records from `offset` up to `end`. Reading stops quietly at a
/// header that does not fit, at a zero or out-of-range end offset, and at a
/// name that overruns its record; each record's children are read from
/// after its properties up to its end offset.
#[verifier::opaque]
pub open spec fn parse_records(d: Seq<u8>, offset: int, end: int, wide: bool) -> Result<
    Seq<RecordModel>,
    FbxFault,
>
    decreases end - offset,
{
    let hs = header_size(wide);
    if offset + hs >= end {
        Ok(Seq::empty())
    } else {
        let (rec_end, num_props, name_len) = record_header(d, offset, wide);
        let name_start = offset + hs;
        if rec_end == 0 || rec_end > end || name_start + name_len > rec_end {
            Ok(Seq::empty())
        } else {
            match parse_props(d, name_start + name_len, rec_end, num_props as nat) {
                Err(e) => Err(e),
                Ok((props, after)) => {
                    let children = if after < rec_end {
                        proof {
                            lemma_props_advance(d, name_start + name_len, rec_end, num_props as nat);
                        }
                        parse_records(d, after, rec_end, wide)
                    } else {
                        Ok(Seq::empty())
                    };
                    match children {
                        Err(e) => Err(e),
                        Ok(kids) => match parse_records(d, rec_end, end, wide) {
                            Err(e) => Err(e),
                            Ok(rest) => Ok(
                                seq![
                                    RecordModel {
                                        name: d.subrange(name_start, name_start + name_len),
                                        props,
                                        children: kids,
                                    },
                                ] + rest,
                            ),
                        },
                    }
                },
            }
        }
    }
}

/// A property as read at run time; float arrays hold bit patterns.
#[derive(Debug)]
pub enum FbxProperty {
    FloatArray(Vec<u32>),
    DoubleArray(Vec<u64>),
    IntArray(Vec<i32>),
    Int64Array,
    String,
    Other,
}

/// A record as read at run time.
#[derive(Debug)]
pub struct FbxRecord {
    pub name: Vec<u8>,
    pub properties: Vec<FbxProperty>,
    pub children: Vec<FbxRecord>,
}

pub open spec fn prop_model(p: FbxProperty) -> PropModel {
    match p {
        FbxProperty::FloatArray(v) => PropModel::Floats(v@),
        FbxProperty::DoubleArray(v) => PropModel::Doubles(v@),
        FbxProperty::IntArray(v) => PropModel::Ints(v@),
        FbxProperty::Int64Array => PropModel::Int64s,
        FbxProperty::String => PropModel::Text,
        FbxProperty::Other => PropModel::Other,
    }
}

pub open spec fn props_model(ps: Seq<FbxProperty>) -> Seq<PropModel> {
    ps.map_values(|p: FbxProperty| prop_model(p))
}

pub open spec fn record_model(r: FbxRecord) -> RecordModel
    decreases r,
{
    RecordModel {
        name: r.name@,
        props: props_model(r.properties@),
        children: records_model(r.children@),
    }
}

pub open spec fn records_model(rs: Seq<FbxRecord>) -> Seq<RecordModel>
    decreases rs,
{
    if rs.len() == 0 {
        Seq::empty()
    } else {
        records_model(rs.drop_last()).push(record_model(rs.last()))
    }
}

enum PropRead {
    Item(FbxProperty, u64),
    Stop(u64),
}

spec fn read_model(r: Result<PropRead, FbxError>) -> Result<PropStep, FbxFault> {
    match r {
        Ok(PropRead::Item(p, q)) => Ok(PropStep::Item(prop_model(p), q as int)),
        Ok(PropRead::Stop(q)) => Ok(PropStep::Stop(q as int)),
        Err(e) => Err(e@),
    }
}

fn read_prop(data: &[u8], p: usize, rec_end: usize) -> (r: Result<PropRead, FbxError>)
    requires
        p < rec_end <= data@.len(),
        data@.len() <= isize::MAX,
    ensures
        read_model(r) == parse_prop(data@, p as int, rec_end as int),
        r matches Ok(PropRead::Item(_, q)) ==> q <= data@.len() + 0x1_0000_0004,
        r matches Ok(PropRead::Stop(q)) ==> q <= rec_end,
{
    let t = data[p] as char;
    let q = p + 1;
    let q64 = q as u64;
    if t == 'Y' {
        Ok(PropRead::Item(FbxProperty::Other, q64 + 2))
    } else if t == 'C' {
        Ok(PropRead::Item(FbxProperty::Other, q64 + 1))
    } else if t == 'I' || t == 'F' {
        Ok(PropRead::Item(FbxProperty::Other, q64 + 4))
    } else if t == 'D' || t == 'L' {
        Ok(PropRead::Item(FbxProperty::Other, q64 + 8))
    } else if t == 'f' {
        match read_array(data, q, rec_end, 4, true) {
            Err(e) => Err(e),
            Ok((b, e)) => Ok(PropRead::Item(FbxProperty::FloatArray(decode_words32(b.as_slice())), e)),
        }
    } else if t == 'd' {
        match read_array(data, q, rec_end, 8, true) {
            Err(e) => Err(e),
            Ok((b, e)) => Ok(PropRead::Item(FbxProperty::DoubleArray(decode_words64(b.as_slice())), e)),
        }
    } else if t == 'i' {
        match read_array(data, q, rec_end, 4, true) {
            Err(e) => Err(e),
            Ok((b, e)) => Ok(PropRead::Item(FbxProperty::IntArray(decode_ints32(b.as_slice())), e)),
        }
    } else if t == 'l' {
        match read_array(data, q, rec_end, 8, true) {
            Err(e) => Err(e),
            Ok((_, e)) => Ok(PropRead::Item(FbxProperty::Int64Array, e)),
        }
    } else if t == 'b' {
        match read_array(data, q, rec_end, 1, false) {
            Err(e) => Err(e),
            Ok((_, e)) => Ok(PropRead::Item(FbxProperty::Other, e)),
        }
    } else if t == 'S' {
        if rec_end - q < 4 {
            Ok(PropRead::Stop(q64))
        } else {
            let len = read_u32_le(data, q) as u64;
            let after = q64 + 4;
            if after + len > rec_end as u64 {
                Ok(PropRead::Stop(after))
            } else {
                Ok(PropRead::Item(FbxProperty::String, after + len))
            }
        }
    } else if t == 'R' {
        if rec_end - q < 4 {
            Ok(PropRead::Stop(q64))
        } else {
            let len = read_u32_le(data, q) as u64;
            Ok(PropRead::Item(FbxProperty::Other, q64 + 4 + len))
        }
    } else {
        Ok(PropRead::Stop(q64))
    }
}

spec fn props_read_model(r: Result<(Vec<FbxProperty>, u64), FbxError>) -> Result<
    (Seq<PropModel>, int),
    FbxFault,
> {
    match r {
        Ok((ps, e)) => Ok((props_model(ps@), e as int)),
        Err(x) => Err(x@),
    }
}

pub open spec fn prefix_props(pre: Seq<PropModel>, r: Result<(Seq<PropModel>, int), FbxFault>) -> Result<
    (Seq<PropModel>, int),
    FbxFault,
> {
    match r {
        Ok((ps, e)) => Ok((pre + ps, e)),
        Err(x) => Err(x),
    }
}

fn read_props(data: &[u8], start: usize, rec_end: usize, n: u64) -> (r: Result<
    (Vec<FbxProperty>, u64),
    FbxError,
>)
    requires
        start <= rec_end <= data@.len(),
        data@.len() <= isize::MAX,
    ensures
        props_read_model(r) == parse_props(data@, start as int, rec_end as int, n as nat),
{
    let mut props: Vec<FbxProperty> = Vec::new();
    let mut p: u64 = start as u64;
    let mut i: u64 = 0;
    assert(props_model(props@) =~= Seq::<PropModel>::empty());
    loop
        invariant
            start <= rec_end <= data@.len(),
            data@.len() <= isize::MAX,
            i <= n,
            p <= data@.len() + 0x1_0000_0004,
            parse_props(data@, start as int, rec_end as int, n as nat) == prefix_props(
                props_model(props@),
                parse_props(data@, p as int, rec_end as int, (n - i) as nat),
            ),
        decreases n - i,
    {
        if i >= n || p >= rec_end as u64 {
            assert(props_model(props@) + Seq::<PropModel>::empty() =~= props_model(props@));
            return Ok((props, p));
        }
        match read_prop(data, p as usize, rec_end) {
            Err(e) => {
                return Err(e);
            },
            Ok(PropRead::Stop(q)) => {
                assert(props_model(props@) + Seq::<PropModel>::empty() =~= props_model(props@));
                return Ok((props, q));
            },
            Ok(PropRead::Item(prop, q)) => {
                let ghost before = props@;
                let ghost pm = prop_model(prop);
                props.push(prop);
                assert(props_model(props@) =~= props_model(before).push(pm));
                assert(forall|rest: Seq<PropModel>|
                    props_model(before) + (seq![pm] + rest) =~= props_model(props@) + rest);
                p = q;
                i = i + 1;
            },
        }
    }
}

pub open spec fn records_result(r: Result<Vec<FbxRecord>, FbxError>) -> Result<
    Seq<RecordModel>,
    FbxFault,
> {
    match r {
        Ok(v) => Ok(records_model(v@)),
        Err(e) => Err(e@),
    }
}

pub open spec fn prefix_records(pre: Seq<RecordModel>, r: Result<Seq<RecordModel>, FbxFault>) -> Result<
    Seq<RecordModel>,
    FbxFault,
> {
    match r {
        Ok(rs) => Ok(pre + rs),
        Err(x) => Err(x),
    }
}

/// The record at `offset` with the offset of the next sibling, `None` where
/// reading stops.
#[verifier::opaque]
pub open spec fn record_at(d: Seq<u8>, offset: int, end: int, wide: bool) -> Result<
    Option<(RecordModel, int)>,
    FbxFault,
> {
    let hs = header_size(wide);
    if offset + hs >= end {
        Ok(None)
    } else {
        let (rec_end, num_props, name_len) = record_header(d, offset, wide);
        let name_start = offset + hs;
        if rec_end == 0 || rec_end > end || name_start + name_len > rec_end {
            Ok(None)
        } else {
            match parse_props(d, name_start + name_len, rec_end, num_props as nat) {
                Err(e) => Err(e),
                Ok((props, after)) => {
                    let children = if after < rec_end {
                        parse_records(d, after, rec_end, wide)
                    } else {
                        Ok(Seq::empty())
                    };
                    match children {
                        Err(e) => Err(e),
                        Ok(kids) => Ok(
                            Some(
                                (
                                    RecordModel {
                                        name: d.subrange(name_start, name_start + name_len),
                                        props,
                                        children: kids,
                                    },
                                    rec_end,
                                ),
                            ),
                        ),
                    }
                },
            }
        }
    }
}

/// Reading a record list is reading its first record, then the rest.
pub proof fn lemma_parse_records_unfold(d: Seq<u8>, offset: int, end: int, wide: bool)
    ensures
        parse_records(d, offset, end, wide) == match record_at(d, offset, end, wide) {
            Err(e) => Err(e),
            Ok(None) => Ok(Seq::empty()),
            Ok(Some((r, next))) => prefix_records(seq![r], parse_records(d, next, end, wide)),
        },
{
    reveal(parse_records);
    reveal(record_at);
    let hs = header_size(wide);
    if offset + hs < end {
        let (rec_end, num_props, name_len) = record_header(d, offset, wide);
        let name_start = offset + hs;
        if !(rec_end == 0 || rec_end > end || name_start + name_len > rec_end) {
            lemma_props_advance(d, name_start + name_len, rec_end, num_props as nat);
        }
    }
}

spec fn one_model(r: Result<Option<(FbxRecord, usize)>, FbxError>) -> Result<
    Option<(RecordModel, int)>,
    FbxFault,
> {
    match r {
        Ok(Some((rec, next))) => Ok(Some((record_model(rec), next as int))),
        Ok(None) => Ok(None),
        Err(e) => Err(e@),
    }
}

fn read_record(data: &[u8], offset: usize, end: usize, wide: bool) -> (r: Result<
    Option<(FbxRecord, usize)>,
    FbxError,
>)
    requires
        offset <= end <= data@.len(),
        data@.len() <= isize::MAX,
    ensures
        one_model(r) == record_at(data@, offset as int, end as int, wide),
        r matches Ok(Some((_, next))) ==> offset < next <= end,
    decreases end - offset, 0nat,
{
    reveal(record_at);
    let hs: usize = if wide {
        25
    } else {
        13
    };
    if end - offset <= hs {
        return Ok(None);
    }
    let ghost d = data@;
    let (rec_end, num_props, name_len): (u64, u64, usize) = if wide {
        (read_u64_le(data, offset), read_u64_le(data, offset + 8), data[offset + 24] as usize)
    } else {
        (
            read_u32_le(data, offset) as u64,
            read_u32_le(data, offset + 4) as u64,
            data[offset + 12] as usize,
        )
    };
    assert(record_header(d, offset as int, wide) == (
        rec_end as int,
        num_props as int,
        name_len as int,
    ));
    let name_start = offset + hs;
    if rec_end == 0 || rec_end > end as u64 || name_start > rec_end as usize || name_len
        > rec_end as usize - name_start {
        return Ok(None);
    }
    let rec_end = rec_end as usize;
    let name = copy_range(data, name_start, name_start + name_len);
    let (properties, after) = match read_props(data, name_start + name_len, rec_end, num_props) {
        Err(e) => {
            return Err(e);
        },
        Ok(x) => x,
    };
    proof {
        lemma_props_advance(d, name_start + name_len, rec_end as int, num_props as nat);
    }
    let children = if after < rec_end as u64 {
        match read_records(data, after as usize, rec_end, wide) {
            Err(e) => {
                return Err(e);
            },
            Ok(c) => c,
        }
    } else {
        let c: Vec<FbxRecord> = Vec::new();
        assert(records_model(c@) =~= Seq::<RecordModel>::empty());
        c
    };
    Ok(Some((FbxRecord { name, properties, children }, rec_end)))
}

fn read_records(data: &[u8], start: usize, end: usize, wide: bool) -> (r: Result<
    Vec<FbxRecord>,
    FbxError,
>)
    requires
        start <= end <= data@.len(),
        data@.len() <= isize::MAX,
    ensures
        records_result(r) == parse_records(data@, start as int, end as int, wide),
    decreases end - start, 1nat,
{
    let mut records: Vec<FbxRecord> = Vec::new();
    let mut offset = start;
    assert(records_model(records@) =~= Seq::<RecordModel>::empty());
    loop
        invariant
            start <= offset <= end <= data@.len(),
            data@.len() <= isize::MAX,
            parse_records(data@, start as int, end as int, wide) == prefix_records(
                records_model(records@),
                parse_records(data@, offset as int, end as int, wide),
            ),
        decreases end - offset,
    {
        proof {
            lemma_parse_records_unfold(data@, offset as int, end as int, wide);
        }
        match read_record(data, offset, end, wide) {
            Err(e) => {
                return Err(e);
            },
            Ok(None) => {
                assert(records_model(records@) + Seq::<RecordModel>::empty() =~= records_model(
                    records@,
                ));
                return Ok(records);
            },
            Ok(Some((rec, next))) => {
                let ghost before = records@;
                let ghost rm = record_model(rec);
                records.push(rec);
                assert(records@.drop_last() =~= before);
                assert(records_model(records@) =~= records_model(before).push(rm));
                assert(forall|rest: Seq<RecordModel>|
                    records_model(before) + (seq![rm] + rest) =~= records_model(records@) + rest);
                offset = next;
            },
        }
    }
}

// ---------------------------------------------------------------------------
// Geometry extraction
// ---------------------------------------------------------------------------

/// Per-vertex normals as read from the file: 32-bit or 64-bit float bit
/// patterns, three per vertex.
pub enum NormalsModel {
    Single(Seq<u32>),
    Double(Seq<u64>),
}

/// One geometry: f64 position bit patterns (three per vertex), the
/// triangle list, and per-vertex normals when the file gives exactly one
/// per vertex.
pub struct GeometryModel {
    pub positions: Seq<u64>,
    pub triangles: Seq<u32>,
    pub normals: Option<NormalsModel>,
}

/// Whether a record's name bytes spell `tag`.
pub open spec fn is_named(name: Seq<u8>, tag: Seq<char>) -> bool {
    name == encode_utf8(tag)
}

/// The last f64 array of at least `min` values among `ps`, else `acc`.
pub open spec fn pick_doubles(ps: Seq<PropModel>, min: nat, acc: Option<Seq<u64>>) -> Option<
    Seq<u64>,
>
    decreases ps.len(),
{
    if ps.len() == 0 {
        acc
    } else {
        let next = match ps[0] {
            PropModel::Doubles(a) => if a.len() >= min {
                Some(a)
            } else {
                acc
            },
            _ => acc,
        };
        pick_doubles(ps.drop_first(), min, next)
    }
}

/// The last i32 array of at least `min` values among `ps`, else `acc`.
pub open spec fn pick_ints(ps: Seq<PropModel>, min: nat, acc: Option<Seq<i32>>) -> Option<
    Seq<i32>,
>
    decreases ps.len(),
{
    if ps.len() == 0 {
        acc
    } else {
        let next = match ps[0] {
            PropModel::Ints(a) => if a.len() >= min {
                Some(a)
            } else {
                acc
            },
            _ => acc,
        };
        pick_ints(ps.drop_first(), min, next)
    }
}

/// The last float array (f64 or f32) of at least three values among `ps`,
/// else `acc`.
pub open spec fn pick_normals(ps: Seq<PropModel>, acc: Option<NormalsModel>) -> Option<
    NormalsModel,
>
    decreases ps.len(),
{
    if ps.len() == 0 {
        acc
    } else {
        let next = match ps[0] {
            PropModel::Doubles(a) => if a.len() >= 3 {
                Some(NormalsModel::Double(a))
            } else {
                acc
            },
            PropModel::Floats(a) => if a.len() >= 3 {
                Some(NormalsModel::Single(a))
            } else {
                acc
            },
            _ => acc,
        };
        pick_normals(ps.drop_first(), next)
    }
}

/// Normals found in the `Normals` records among `subs`, the last one winning.
pub open spec fn scan_normals(subs: Seq<RecordModel>, acc: Option<NormalsModel>) -> Option<
    NormalsModel,
>
    decreases subs.len(),
{
    if subs.len() == 0 {
        acc
    } else {
        let next = if is_named(subs[0].name, "Normals"@) {
            pick_normals(subs[0].props, acc)
        } else {
            acc
        };
        scan_normals(subs.drop_first(), next)
    }
}

/// What geometry reading has gathered: positions, polygon indices, normals.
pub type ScanState = (Option<Seq<u64>>, Option<Seq<i32>>, Option<NormalsModel>);

/// Folds one child of a `Geometry` record into the scan.
pub open spec fn scan_child(c: RecordModel, acc: ScanState) -> ScanState {
    if is_named(c.name, "Vertices"@) {
        (pick_doubles(c.props, 9, acc.0), acc.1, acc.2)
    } else if is_named(c.name, "PolygonVertexIndex"@) {
        (acc.0, pick_ints(c.props, 3, acc.1), acc.2)
    } else if is_named(c.name, "LayerElementNormal"@) {
        (acc.0, acc.1, scan_normals(c.children, acc.2))
    } else {
        acc
    }
}

pub open spec fn scan_children(cs: Seq<RecordModel>, acc: ScanState) -> ScanState
    decreases cs.len(),
{
    if cs.len() == 0 {
        acc
    } else {
        scan_children(cs.drop_first(), scan_child(cs[0], acc))
    }
}

/// Normals are kept when they give exactly one triple per vertex.
pub open spec fn per_vertex_normals(n: Option<NormalsModel>, vertex_count: nat) -> Option<
    NormalsModel,
> {
    match n {
        Some(NormalsModel::Single(a)) => if a.len() / 3 == vertex_count {
            Some(NormalsModel::Single(a.subrange(0, 3 * vertex_count as int)))
        } else {
            None
        },
        Some(NormalsModel::Double(a)) => if a.len() / 3 == vertex_count {
            Some(NormalsModel::Double(a.subrange(0, 3 * vertex_count as int)))
        } else {
            None
        },
        None => None,
    }
}

/// The geometry of a `Geometry` record: it needs positions and polygon
/// indices that give at least one triangle.
pub open spec fn geometry_of(r: RecordModel) -> Option<GeometryModel> {
    let (pos, idx, nrm) = scan_children(r.children, (None, None, None));
    match (pos, idx) {
        (Some(p), Some(ix)) => {
            let n = p.len() / 3;
            let tris = triangulate(ix);
            if tris.len() == 0 {
                None
            } else {
                Some(
                    GeometryModel {
                        positions: p.subrange(0, 3 * n as int),
                        triangles: tris,
                        normals: per_vertex_normals(nrm, n),
                    },
                )
            }
        },
        _ => None,
    }
}

/// How many values a normal array holds.
pub open spec fn normals_len(n: NormalsModel) -> nat {
    match n {
        NormalsModel::Single(a) => a.len(),
        NormalsModel::Double(a) => a.len(),
    }
}

/// Whether `m` holds the first values of `src`, at the same precision.
pub open spec fn normals_prefix_of(m: NormalsModel, src: NormalsModel) -> bool {
    match (m, src) {
        (NormalsModel::Single(a), NormalsModel::Single(b)) => a.len() <= b.len() && a == b.subrange(
            0,
            a.len() as int,
        ),
        (NormalsModel::Double(a), NormalsModel::Double(b)) => a.len() <= b.len() && a == b.subrange(
            0,
            a.len() as int,
        ),
        _ => false,
    }
}

/// A geometry keeps the file's normals only when they are exactly one
/// triple per vertex: it has normals exactly when the `Normals` array read
/// from the record holds as many whole triples as there are vertices, and
/// then they are that array's values, three per vertex. Normals written
/// per polygon corner (more triples than vertices) are dropped.
pub proof fn law_kept_normals_are_one_per_vertex(r: RecordModel)
    ensures
        geometry_of(r) matches Some(g) ==> {
            let src = scan_children(r.children, (None, None, None)).2;
            &&& (g.normals is Some <==> (src matches Some(n) && normals_len(n) / 3 == g.positions.len()
                / 3))
            &&& (g.normals matches Some(m) ==> normals_len(m) == g.positions.len() && (src matches Some(
                n,
            ) && normals_prefix_of(m, n)))
        },
{
}

/// All geometries of the record tree, in pre-order.
pub open spec fn collect_geometries(rs: Seq<RecordModel>) -> Seq<GeometryModel>
    decreases rs,
{
    if rs.len() == 0 {
        Seq::empty()
    } else {
        let r = rs[0];
        let own = if is_named(r.name, "Geometry"@) && geometry_of(r) is Some {
            seq![geometry_of(r)->0]
        } else {
            Seq::empty()
        };
        own + collect_geometries(r.children) + collect_geometries(rs.drop_first())
    }
}

/// Per-vertex normals as read at run time (bit patterns).
#[derive(Debug, Clone, PartialEq, Eq)]
pub enum FbxNormals {
    Single(Vec<u32>),
    Double(Vec<u64>),
}

/// A geometry as read at run time: f64 position bit patterns (three per
/// vertex), triangle indices, and per-vertex normals when present.
#[derive(Debug, Clone, PartialEq, Eq)]
pub struct FbxGeometry {
    pub positions: Vec<u64>,
    pub triangles: Vec<u32>,
    pub normals: Option<FbxNormals>,
}

pub open spec fn normals_model(n: Option<FbxNormals>) -> Option<NormalsModel> {
    match n {
        Some(FbxNormals::Single(v)) => Some(NormalsModel::Single(v@)),
        Some(FbxNormals::Double(v)) => Some(NormalsModel::Double(v@)),
        None => None,
    }
}

impl View for FbxGeometry {
    type V = GeometryModel;

    open spec fn view(&self) -> GeometryModel {
        GeometryModel {
            positions: self.positions@,
            triangles: self.triangles@,
            normals: normals_model(self.normals),
        }
    }
}

pub open spec fn opt_view<T>(o: Option<Vec<T>>) -> Option<Seq<T>> {
    match o {
        Some(v) => Some(v@),
        None => None,
    }
}

/// Each record's model is the model of the record at the same place.
pub proof fn lemma_records_model_index(rs: Seq<FbxRecord>)
    ensures
        records_model(rs).len() == rs.len(),
        forall|i: int| 0 <= i < rs.len() ==> #[trigger] records_model(rs)[i] == record_model(rs[i]),
    decreases rs.len(),
{
    if rs.len() > 0 {
        lemma_records_model_index(rs.drop_last());
    }
}

/// Byte-wise equality.
pub fn bytes_eq(a: &[u8], b: &[u8]) -> (r: bool)
    ensures
        r == (a@ == b@),
{
    if a.len() != b.len() {
        return false;
    }
    let mut i: usize = 0;
    while i < a.len()
        invariant
            a@.len() == b@.len(),
            i <= a@.len(),
            forall|j: int| 0 <= j < i ==> a@[j] == b@[j],
        decreases a@.len() - i,
    {
        if a[i] != b[i] {
            assert(a@[i as int] != b@[i as int]);
            return false;
        }
        i = i + 1;
    }
    assert(a@ =~= b@);
    true
}

fn named(name: &Vec<u8>, tag: &str) -> (r: bool)
    ensures
        r == is_named(name@, tag@),
{
    bytes_eq(name.as_slice(), tag.as_bytes())
}

fn find_doubles(ps: &Vec<FbxProperty>, min: usize, init: Option<Vec<u64>>) -> (r: Option<Vec<u64>>)
    ensures
        opt_view(r) == pick_doubles(props_model(ps@), min as nat, opt_view(init)),
{
    let ghost pm = props_model(ps@);
    let mut acc = init;
    let mut i: usize = 0;
    assert(pm.skip(0) =~= pm);
    while i < ps.len()
        invariant
            pm == props_model(ps@),
            i <= ps@.len(),
            pick_doubles(pm, min as nat, opt_view(init)) == pick_doubles(
                pm.skip(i as int),
                min as nat,
                opt_view(acc),
            ),
        decreases ps@.len() - i,
    {
        assert(pm.skip(i as int).drop_first() =~= pm.skip(i + 1));
        match &ps[i] {
            FbxProperty::DoubleArray(a) => {
                if a.len() >= min {
                    acc = Some(copy_vec(a.as_slice()));
                }
            },
            _ => {},
        }
        i = i + 1;
    }
    acc
}

fn find_ints(ps: &Vec<FbxProperty>, min: usize, init: Option<Vec<i32>>) -> (r: Option<Vec<i32>>)
    ensures
        opt_view(r) == pick_ints(props_model(ps@), min as nat, opt_view(init)),
{
    let ghost pm = props_model(ps@);
    let mut acc = init;
    let mut i: usize = 0;
    assert(pm.skip(0) =~= pm);
    while i < ps.len()
        invariant
            pm == props_model(ps@),
            i <= ps@.len(),
            pick_ints(pm, min as nat, opt_view(init)) == pick_ints(
                pm.skip(i as int),
                min as nat,
                opt_view(acc),
            ),
        decreases ps@.len() - i,
    {
        assert(pm.skip(i as int).drop_first() =~= pm.skip(i + 1));
        match &ps[i] {
            FbxProperty::IntArray(a) => {
                if a.len() >= min {
                    acc = Some(copy_vec(a.as_slice()));
                }
            },
            _ => {},
        }
        i = i + 1;
    }
    acc
}

fn find_normals(ps: &Vec<FbxProperty>, init: Option<FbxNormals>) -> (r: Option<FbxNormals>)
    ensures
        normals_model(r) == pick_normals(props_model(ps@), normals_model(init)),
{
    let ghost pm = props_model(ps@);
    let mut acc = init;
    let mut i: usize = 0;
    assert(pm.skip(0) =~= pm);
    while i < ps.len()
        invariant
            pm == props_model(ps@),
            i <= ps@.len(),
            pick_normals(pm, normals_model(init)) == pick_normals(
                pm.skip(i as int),
                normals_model(acc),
            ),
        decreases ps@.len() - i,
    {
        assert(pm.skip(i as int).drop_first() =~= pm.skip(i + 1));
        match &ps[i] {
            FbxProperty::DoubleArray(a) => {
                if a.len() >= 3 {
                    acc = Some(FbxNormals::Double(copy_vec(a.as_slice())));
                }
            },
            FbxProperty::FloatArray(a) => {
                if a.len() >= 3 {
                    acc = Some(FbxNormals::Single(copy_vec(a.as_slice())));
                }
            },
            _ => {},
        }
        i = i + 1;
    }
    acc
}

fn find_normal_records(subs: &Vec<FbxRecord>, init: Option<FbxNormals>) -> (r: Option<FbxNormals>)
    ensures
        normals_model(r) == scan_normals(records_model(subs@), normals_model(init)),
{
    let ghost rm = records_model(subs@);
    proof {
        lemma_records_model_index(subs@);
    }
    let mut acc = init;
    let mut i: usize = 0;
    assert(rm.skip(0) =~= rm);
    while i < subs.len()
        invariant
            rm == records_model(subs@),
            rm.len() == subs@.len(),
            forall|j: int| 0 <= j < subs@.len() ==> #[trigger] rm[j] == record_model(subs@[j]),
            i <= subs@.len(),
            scan_normals(rm, normals_model(init)) == scan_normals(
                rm.skip(i as int),
                normals_model(acc),
            ),
        decreases subs@.len() - i,
    {
        assert(rm.skip(i as int).drop_first() =~= rm.skip(i + 1));
        assert(rm.skip(i as int)[0] == rm[i as int]);
        let sub = &subs[i];
        if named(&sub.name, "Normals") {
            acc = find_normals(&sub.properties, acc);
        }
        i = i + 1;
    }
    acc
}

struct Scan {
    positions: Option<Vec<u64>>,
    indices: Option<Vec<i32>>,
    normals: Option<FbxNormals>,
}

spec fn scan_model(s: Scan) -> ScanState {
    (opt_view(s.positions), opt_view(s.indices), normals_model(s.normals))
}

fn scan_geometry_children(children: &Vec<FbxRecord>) -> (r: Scan)
    ensures
        scan_model(r) == scan_children(records_model(children@), (None, None, None)),
{
    let ghost rm = records_model(children@);
    proof {
        lemma_records_model_index(children@);
    }
    let mut acc = Scan { positions: None, indices: None, normals: None };
    let mut i: usize = 0;
    assert(rm.skip(0) =~= rm);
    while i < children.len()
        invariant
            rm == records_model(children@),
            rm.len() == children@.len(),
            forall|j: int|
                0 <= j < children@.len() ==> #[trigger] rm[j] == record_model(children@[j]),
            i <= children@.len(),
            scan_children(rm, (None, None, None)) == scan_children(
                rm.skip(i as int),
                scan_model(acc),
            ),
        decreases children@.len() - i,
    {
        assert(rm.skip(i as int).drop_first() =~= rm.skip(i + 1));
        assert(rm.skip(i as int)[0] == rm[i as int]);
        let c = &children[i];
        if named(&c.name, "Vertices") {
            let Scan { positions, indices, normals } = acc;
            acc = Scan { positions: find_doubles(&c.properties, 9, positions), indices, normals };
        } else if named(&c.name, "PolygonVertexIndex") {
            let Scan { positions, indices, normals } = acc;
            acc = Scan { positions, indices: find_ints(&c.properties, 3, indices), normals };
        } else if named(&c.name, "LayerElementNormal") {
            let Scan { positions, indices, normals } = acc;
            acc = Scan { positions, indices, normals: find_normal_records(&c.children, normals) };
        }
        i = i + 1;
    }
    acc
}

fn keep_per_vertex(n: Option<FbxNormals>, vertex_count: usize) -> (r: Option<FbxNormals>)
    ensures
        normals_model(r) == per_vertex_normals(normals_model(n), vertex_count as nat),
{
    match n {
        Some(FbxNormals::Single(mut v)) => {
            if v.len() / 3 == vertex_count {
                v.truncate(3 * vertex_count);
                Some(FbxNormals::Single(v))
            } else {
                None
            }
        },
        Some(FbxNormals::Double(mut v)) => {
            if v.len() / 3 == vertex_count {
                v.truncate(3 * vertex_count);
                Some(FbxNormals::Double(v))
            } else {
                None
            }
        },
        None => None,
    }
}

pub open spec fn geometry_opt_model(g: Option<FbxGeometry>) -> Option<GeometryModel> {
    match g {
        Some(x) => Some(x@),
        None => None,
    }
}

fn geometry_from(record: &FbxRecord) -> (r: Option<FbxGeometry>)
    ensures
        geometry_opt_model(r) == geometry_of(record_model(*record)),
{
    let scan = scan_geometry_children(&record.children);
    let Scan { positions, indices, normals } = scan;
    match (positions, indices) {
        (Some(mut p), Some(ix)) => {
            let n = p.len() / 3;
            let triangles = polygon_indices_to_triangles(ix.as_slice());
            if triangles.len() == 0 {
                return None;
            }
            p.truncate(3 * n);
            Some(FbxGeometry { positions: p, triangles, normals: keep_per_vertex(normals, n) })
        },
        _ => None,
    }
}

pub open spec fn geometries_model(gs: Seq<FbxGeometry>) -> Seq<GeometryModel> {
    gs.map_values(|g: FbxGeometry| g@)
}

fn collect_into(records: &Vec<FbxRecord>, out: &mut Vec<FbxGeometry>)
    ensures
        geometries_model(final(out)@) == geometries_model(old(out)@) + collect_geometries(
            records_model(records@),
        ),
    decreases records@,
{
    let ghost rm = records_model(records@);
    let ghost start = geometries_model(out@);
    proof {
        lemma_records_model_index(records@);
    }
    let mut i: usize = 0;
    assert(rm.skip(0) =~= rm);
    while i < records.len()
        invariant
            rm == records_model(records@),
            rm.len() == records@.len(),
            forall|j: int| 0 <= j < records@.len() ==> #[trigger] rm[j] == record_model(records@[j]),
            i <= records@.len(),
            geometries_model(out@) + collect_geometries(rm.skip(i as int)) == start
                + collect_geometries(rm),
        decreases records@.len() - i,
    {
        let ghost here = rm.skip(i as int);
        assert(here.drop_first() =~= rm.skip(i + 1));
        assert(here[0] == rm[i as int]);
        let rec = &records[i];
        let ghost before = geometries_model(out@);
        if named(&rec.name, "Geometry") {
            if let Some(g) = geometry_from(rec) {
                let ghost gm = g@;
                let ghost prev = out@;
                out.push(g);
                assert(geometries_model(out@) =~= geometries_model(prev).push(gm));
            }
        }
        let ghost mid = geometries_model(out@);
        proof {
            assert(decreases_to!(records@ => records@[i as int]));
            assert(decreases_to!(records@[i as int] => records@[i as int].children));
        }
        collect_into(&rec.children, out);
        assert(geometries_model(out@) + collect_geometries(rm.skip(i + 1)) =~= before
            + collect_geometries(here));
        i = i + 1;
    }
    assert(rm.skip(records@.len() as int) =~= Seq::<RecordModel>::empty());
    assert(geometries_model(out@) + Seq::<GeometryModel>::empty() =~= geometries_model(out@));
}

// ---------------------------------------------------------------------------
// Whole files
// ---------------------------------------------------------------------------

/// The 21 bytes that open a binary FBX file.
pub open spec fn fbx_magic() -> Seq<u8> {
    encode_utf8("Kaydara FBX Binary  \x00"@)
}

/// `b` as a comma-separated list of decimal numbers.
pub open spec fn decimal_list(b: Seq<u8>) -> Seq<char>
    decreases b.len(),
{
    if b.len() == 0 {
        Seq::empty()
    } else if b.len() == 1 {
        decimal(b[0] as nat)
    } else {
        decimal_list(b.drop_last()) + ", "@ + decimal(b.last() as nat)
    }
}

/// The complaint about a wrong magic, quoting the bytes found.
pub open spec fn magic_message(found: Seq<u8>) -> Seq<char> {
    "invalid FBX magic: expected 'Kaydara FBX Binary', got ["@ + decimal_list(found) + "]"@
}

/// Reads an FBX file: a 27-byte header (magic, two marker bytes, version
/// as a little-endian u32 at offset 23), then the records; version 7500 and
/// later use 64-bit record headers. Gives every geometry of the file.
pub open spec fn fbx_geometries(d: Seq<u8>) -> Result<Seq<GeometryModel>, FbxFault> {
    if d.len() < 27 {
        Err(FbxFault::Malformed("FBX file too short"@))
    } else if d.subrange(0, 21) != fbx_magic() {
        Err(FbxFault::Malformed(magic_message(d.subrange(0, 21))))
    } else {
        match parse_records(d, 27, d.len() as int, u32_of_le(d.subrange(23, 27)) >= 7500) {
            Err(e) => Err(e),
            Ok(rs) => Ok(collect_geometries(rs)),
        }
    }
}

pub open spec fn geometries_result(r: Result<Vec<FbxGeometry>, FbxError>) -> Result<
    Seq<GeometryModel>,
    FbxFault,
> {
    match r {
        Ok(v) => Ok(geometries_model(v@)),
        Err(e) => Err(e@),
    }
}

fn magic_error(found: &[u8]) -> (r: FbxError)
    ensures
        r@ == FbxFault::Malformed(magic_message(found@)),
{
    let mut s = String::new();
    push_str(&mut s, "invalid FBX magic: expected 'Kaydara FBX Binary', got [");
    let ghost head = s@;
    let mut i: usize = 0;
    while i < found.len()
        invariant
            i <= found@.len(),
            s@ == head + decimal_list(found@.subrange(0, i as int)),
        decreases found@.len() - i,
    {
        let ghost prev = found@.subrange(0, i as int);
        let ghost next = found@.subrange(0, i + 1);
        assert(next.drop_last() =~= prev);
        if i > 0 {
            push_str(&mut s, ", ");
        }
        push_decimal(&mut s, found[i] as u64);
        proof {
            if i == 0 {
                assert(s@ =~= head + decimal_list(next));
            } else {
                assert(s@ =~= head + decimal_list(next));
            }
        }
        i = i + 1;
    }
    assert(found@.subrange(0, found@.len() as int) =~= found@);
    push_str(&mut s, "]");
    FbxError::Malformed(s)
}

/// Reads every geometry of a binary FBX file, in the order of a pre-order
/// walk of its records.
pub fn parse_fbx_geometries(data: &[u8]) -> (r: Result<Vec<FbxGeometry>, FbxError>)
    requires
        data@.len() <= isize::MAX,
    ensures
        geometries_result(r) == fbx_geometries(data@),
{
    if data.len() < 27 {
        return Err(malformed("FBX file too short"));
    }
    let head = copy_range(data, 0, 21);
    if !bytes_eq(head.as_slice(), "Kaydara FBX Binary  \x00".as_bytes()) {
        return Err(magic_error(head.as_slice()));
    }
    let version = read_u32_le(data, 23);
    let records = match read_records(data, 27, data.len(), version >= 7500) {
        Err(e) => {
            return Err(e);
        },
        Ok(rs) => rs,
    };
    let mut out: Vec<FbxGeometry> = Vec::new();
    assert(geometries_model(out@) =~= Seq::<GeometryModel>::empty());
    collect_into(&records, &mut out);
    assert(geometries_model(out@) =~= collect_geometries(records_model(records@)));
    Ok(out)
}

proof fn lemma_fan_from(poly: Seq<u32>, k: int)
    ensures
        fan_from(poly, k).len() % 3 == 0,
        forall|x: u32| fan_from(poly, k).contains(x) ==> poly.contains(x),
    decreases poly.len() - k,
{
    if !(k < 1 || k + 1 >= poly.len()) {
        lemma_fan_from(poly, k + 1);
        let head = seq![poly[0], poly[k], poly[k + 1]];
        let rest = fan_from(poly, k + 1);
        assert forall|x: u32| (head + rest).contains(x) implies poly.contains(x) by {
            let i = choose|i: int| 0 <= i < (head + rest).len() && (head + rest)[i] == x;
            if i < 3 {
                assert(head[i] == x);
                if i == 0 {
                    assert(poly[0] == x);
                } else if i == 1 {
                    assert(poly[k] == x);
                } else {
                    assert(poly[k + 1] == x);
                }
            } else {
                assert(rest[i - 3] == x);
                assert(rest.contains(x));
            }
        }
    }
}

proof fn lemma_triangulate_from(raw: Seq<i32>, open: Seq<u32>)
    ensures
        triangulate_from(raw, open).len() % 3 == 0,
        forall|x: u32|
            triangulate_from(raw, open).contains(x) ==> open.contains(x) || exists|j: int|
                0 <= j < raw.len() && x == polygon_vertex(#[trigger] raw[j]),
    decreases raw.len(),
{
    if raw.len() == 0 {
        lemma_fan_from(open, 1);
    } else {
        let poly = open.push(polygon_vertex(raw[0]));
        let rest = raw.drop_first();
        assert forall|x: u32| poly.contains(x) implies open.contains(x) || x == polygon_vertex(raw[0]) by {
            let i = choose|i: int| 0 <= i < poly.len() && poly[i] == x;
            if i < open.len() {
                assert(open[i] == x);
            }
        }
        if raw[0] < 0 {
            lemma_fan_from(poly, 1);
            lemma_triangulate_from(rest, Seq::empty());
            let a = fan(poly);
            let b = triangulate_from(rest, Seq::empty());
            assert forall|x: u32| (a + b).contains(x) implies open.contains(x) || exists|j: int|
                0 <= j < raw.len() && x == polygon_vertex(#[trigger] raw[j]) by {
                let i = choose|i: int| 0 <= i < (a + b).len() && (a + b)[i] == x;
                if i < a.len() {
                    assert(a[i] == x);
                    assert(a.contains(x));
                    assert(poly.contains(x));
                    if !open.contains(x) {
                        assert(x == polygon_vertex(raw[0]));
                    }
                } else {
                    assert(b[i - a.len()] == x);
                    assert(b.contains(x));
                    assert(!Seq::<u32>::empty().contains(x));
                    let j = choose|j: int| 0 <= j < rest.len() && x == polygon_vertex(#[trigger] rest[j]);
                    assert(rest[j] == raw[j + 1]);
                }
            }
        } else {
            lemma_triangulate_from(rest, poly);
            let b = triangulate_from(rest, poly);
            assert forall|x: u32| b.contains(x) implies open.contains(x) || exists|j: int|
                0 <= j < raw.len() && x == polygon_vertex(#[trigger] raw[j]) by {
                if poly.contains(x) {
                    if !open.contains(x) {
                        assert(x == polygon_vertex(raw[0]));
                    }
                } else {
                    let j = choose|j: int| 0 <= j < rest.len() && x == polygon_vertex(#[trigger] rest[j]);
                    assert(rest[j] == raw[j + 1]);
                }
            }
        }
    }
}

/// Triangulating polygon indices gives whole triangles, and every vertex
/// index in them is one the input names.
pub proof fn law_triangulation_uses_input_vertices(raw: Seq<i32>)
    ensures
        triangulate(raw).len() % 3 == 0,
        forall|x: u32|
            triangulate(raw).contains(x) ==> exists|j: int|
                0 <= j < raw.len() && x == polygon_vertex(#[trigger] raw[j]),
{
    lemma_triangulate_from(raw, Seq::empty());
    assert forall|x: u32| triangulate(raw).contains(x) implies exists|j: int|
        0 <= j < raw.len() && x == polygon_vertex(#[trigger] raw[j]) by {
        assert(!Seq::<u32>::empty().contains(x));
    }
}

} // verus!
