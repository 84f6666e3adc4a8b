//! The `.pak` container of cooked assets.
//!
//! Layout, all integers little-endian:
//!
//! ```text
//! [magic: "PIE\0"][version: u32][asset_count: u32]
//! per asset: [kind: u8][name_len: u32][name: UTF-8 bytes][data_len: u64][data]
//! ```
use crate::bytes::{
    copy_range, le_u32, le_u64, lemma_le_u32_roundtrip, lemma_le_u64_roundtrip, push_bytes,
    push_u32_le, push_u64_le, read_u32_le, read_u64_le, u32_of_le, u64_of_le,
};
use crate::text::{decimal, push_decimal, push_str};
use vstd::prelude::*;
use vstd::utf8::{decode_utf8, encode_utf8, valid_utf8};

verus! {

/// Cooked asset types stored in a `.pak` file.
#[derive(Debug, Clone, Copy, PartialEq, Eq, Structural)]
pub enum CookedAssetKind {
    Mesh,
    Texture,
    Shader,
    Material,
}

/// The byte that tags an asset kind in the container.
pub open spec fn kind_byte(kind: CookedAssetKind) -> u8 {
    match kind {
        CookedAssetKind::Mesh => 0x01,
        CookedAssetKind::Texture => 0x02,
        CookedAssetKind::Shader => 0x03,
        CookedAssetKind::Material => 0x04,
    }
}

/// The asset kind a tag byte stands for, if any.
pub open spec fn kind_from_byte(value: u8) -> Option<CookedAssetKind> {
    if value == 0x01 {
        Some(CookedAssetKind::Mesh)
    } else if value == 0x02 {
        Some(CookedAssetKind::Texture)
    } else if value == 0x03 {
        Some(CookedAssetKind::Shader)
    } else if value == 0x04 {
        Some(CookedAssetKind::Material)
    } else {
        None
    }
}

impl CookedAssetKind {
    pub fn from_u8(value: u8) -> (r: Option<CookedAssetKind>)
        ensures
            r == kind_from_byte(value),
    {
        match value {
            0x01 => Some(CookedAssetKind::Mesh),
            0x02 => Some(CookedAssetKind::Texture),
            0x03 => Some(CookedAssetKind::Shader),
            0x04 => Some(CookedAssetKind::Material),
            _ => None,
        }
    }

    /// The tag byte of this kind.
    pub fn to_u8(self) -> (r: u8)
        ensures
            r == kind_byte(self),
    {
        match self {
            CookedAssetKind::Mesh => 0x01,
            CookedAssetKind::Texture => 0x02,
            CookedAssetKind::Shader => 0x03,
            CookedAssetKind::Material => 0x04,
        }
    }
}

/// Reading back the tag byte of a kind gives that kind.
pub proof fn lemma_kind_byte_roundtrip(kind: CookedAssetKind)
    ensures
        kind_from_byte(kind_byte(kind)) == Some(kind),
{
}

pub const PAK_VERSION: u32 = 1;

/// Upper bound on the asset count; larger counts are corrupt or malicious.
pub const MAX_ASSET_COUNT: u32 = 100_000;

/// Upper bound on an asset name's length in bytes.
pub const MAX_NAME_LEN: u32 = 4096;

/// Upper bound on a single asset's data (1 GiB).
pub const MAX_DATA_LEN: u64 = 1_073_741_824;

/// The four magic bytes `PIE\0` that open every container.
pub open spec fn pak_magic() -> Seq<u8> {
    seq![0x50u8, 0x49u8, 0x45u8, 0x00u8]
}

/// Why a container could not be read.
#[derive(Debug, Clone, PartialEq, Eq)]
pub enum PakError {
    /// The input ended before a field was complete.
    UnexpectedEof,
    /// The first four bytes are not `PIE\0`; carries the bytes found.
    InvalidMagic(u8, u8, u8, u8),
    UnsupportedVersion(u32),
    TooManyAssets(u32),
    UnknownAssetKind(u8),
    NameTooLong(u32),
    /// An asset name is not UTF-8; carries the decoder's error text.
    InvalidNameUtf8(String),
    DataTooLong(u64),
}

/// The content of a [`PakError`], with its text as a character sequence.
pub enum PakFault {
    UnexpectedEof,
    InvalidMagic(u8, u8, u8, u8),
    UnsupportedVersion(u32),
    TooManyAssets(u32),
    UnknownAssetKind(u8),
    NameTooLong(u32),
    InvalidNameUtf8(Seq<char>),
    DataTooLong(u64),
}

impl View for PakError {
    type V = PakFault;

    open spec fn view(&self) -> PakFault {
        match self {
            PakError::UnexpectedEof => PakFault::UnexpectedEof,
            PakError::InvalidMagic(a, b, c, d) => PakFault::InvalidMagic(*a, *b, *c, *d),
            PakError::UnsupportedVersion(v) => PakFault::UnsupportedVersion(*v),
            PakError::TooManyAssets(n) => PakFault::TooManyAssets(*n),
            PakError::UnknownAssetKind(k) => PakFault::UnknownAssetKind(*k),
            PakError::NameTooLong(n) => PakFault::NameTooLong(*n),
            PakError::InvalidNameUtf8(t) => PakFault::InvalidNameUtf8(t@),
            PakError::DataTooLong(n) => PakFault::DataTooLong(*n),
        }
    }
}

/// The text a `PakError` reads as.
pub open spec fn pak_error_message(e: PakFault) -> Seq<char> {
    match e {
        PakFault::UnexpectedEof => "failed to fill whole buffer"@,
        PakFault::InvalidMagic(a, b, c, d) => "invalid pak magic: expected PIE\\0, got ["@ + decimal(
            a as nat,
        ) + ", "@ + decimal(b as nat) + ", "@ + decimal(c as nat) + ", "@ + decimal(d as nat)
            + "]"@,
        PakFault::UnsupportedVersion(v) => "unsupported pak version: "@ + decimal(v as nat),
        PakFault::TooManyAssets(n) => "pak asset count "@ + decimal(n as nat)
            + " exceeds sane maximum 100000"@,
        PakFault::UnknownAssetKind(k) => "unknown asset kind: "@ + decimal(k as nat),
        PakFault::NameTooLong(n) => "asset name length "@ + decimal(n as nat)
            + " exceeds sane maximum 4096"@,
        PakFault::InvalidNameUtf8(t) => "invalid asset name UTF-8: "@ + t,
        PakFault::DataTooLong(n) => "asset data length "@ + decimal(n as nat)
            + " exceeds sane maximum 1073741824"@,
    }
}

impl PakError {
    /// Human-readable description of the error.
    pub fn to_string(&self) -> (r: String)
        ensures
            r@ == pak_error_message(self@),
    {
        let mut s = String::new();
        match self {
            PakError::UnexpectedEof => push_str(&mut s, "failed to fill whole buffer"),
            PakError::InvalidMagic(a, b, c, d) => {
                push_str(&mut s, "invalid pak magic: expected PIE\\0, got [");
                push_decimal(&mut s, *a as u64);
                push_str(&mut s, ", ");
                push_decimal(&mut s, *b as u64);
                push_str(&mut s, ", ");
                push_decimal(&mut s, *c as u64);
                push_str(&mut s, ", ");
                push_decimal(&mut s, *d as u64);
                push_str(&mut s, "]");
            },
            PakError::UnsupportedVersion(v) => {
                push_str(&mut s, "unsupported pak version: ");
                push_decimal(&mut s, *v as u64);
            },
            PakError::TooManyAssets(n) => {
                push_str(&mut s, "pak asset count ");
                push_decimal(&mut s, *n as u64);
                push_str(&mut s, " exceeds sane maximum 100000");
            },
            PakError::UnknownAssetKind(k) => {
                push_str(&mut s, "unknown asset kind: ");
                push_decimal(&mut s, *k as u64);
            },
            PakError::NameTooLong(n) => {
                push_str(&mut s, "asset name length ");
                push_decimal(&mut s, *n as u64);
                push_str(&mut s, " exceeds sane maximum 4096");
            },
            PakError::InvalidNameUtf8(t) => {
                push_str(&mut s, "invalid asset name UTF-8: ");
                push_str(&mut s, t.as_str());
            },
            PakError::DataTooLong(n) => {
                push_str(&mut s, "asset data length ");
                push_decimal(&mut s, *n);
                push_str(&mut s, " exceeds sane maximum 1073741824");
            },
        }
        assert(s@ =~= pak_error_message(self@));
        s
    }
}

/// One cooked asset.
#[derive(Debug, Clone, PartialEq)]
pub struct PakAsset {
    pub kind: CookedAssetKind,
    pub name: String,
    pub data: Vec<u8>,
}

/// An asset as a value: kind, name characters, data bytes.
pub type AssetView = (CookedAssetKind, Seq<char>, Seq<u8>);

impl View for PakAsset {
    type V = AssetView;

    open spec fn view(&self) -> AssetView {
        (self.kind, self.name@, self.data@)
    }
}

/// A whole container: its assets in order.
#[derive(Debug, Clone, PartialEq)]
pub struct PakFile {
    pub assets: Vec<PakAsset>,
}

impl View for PakFile {
    type V = Seq<AssetView>;

    open spec fn view(&self) -> Seq<AssetView> {
        self.assets@.map_values(|a: PakAsset| a@)
    }
}

// ---------------------------------------------------------------------------
// The encoding
// ---------------------------------------------------------------------------

/// The bytes of one asset record. The name length field holds the UTF-8
/// byte length modulo 2^32.
pub open spec fn encode_asset(a: AssetView) -> Seq<u8> {
    let name = encode_utf8(a.1);
    seq![kind_byte(a.0)] + le_u32((name.len() % 0x1_0000_0000) as u32) + name + le_u64(
        a.2.len() as u64,
    ) + a.2
}

/// The bytes of consecutive asset records.
pub open spec fn encode_assets(s: Seq<AssetView>) -> Seq<u8>
    decreases s.len(),
{
    if s.len() == 0 {
        Seq::empty()
    } else {
        encode_asset(s[0]) + encode_assets(s.drop_first())
    }
}

/// The bytes of a container. The count field holds the asset count modulo
/// 2^32.
pub open spec fn encode_pak(s: Seq<AssetView>) -> Seq<u8> {
    pak_magic() + le_u32(PAK_VERSION) + le_u32((s.len() % 0x1_0000_0000) as u32) + encode_assets(
        s,
    )
}

pub proof fn lemma_encode_assets_push(s: Seq<AssetView>, a: AssetView)
    ensures
        encode_assets(s.push(a)) == encode_assets(s) + encode_asset(a),
    decreases s.len(),
{
    if s.len() == 0 {
        assert(s.push(a).drop_first() =~= Seq::<AssetView>::empty());
        assert(encode_assets(Seq::<AssetView>::empty()) == Seq::<u8>::empty());
        assert(s.push(a)[0] == a);
        assert(encode_assets(s.push(a)) =~= encode_asset(a));
        assert(encode_assets(s) == Seq::<u8>::empty());
    } else {
        lemma_encode_assets_push(s.drop_first(), a);
        assert(s.push(a).drop_first() =~= s.drop_first().push(a));
        assert(encode_assets(s.push(a)) =~= encode_assets(s) + encode_asset(a));
    }
}

// ---------------------------------------------------------------------------
// The decoding
// ---------------------------------------------------------------------------

/// Reads one asset record starting at `pos`; on success also gives the
/// position just past it. Fields are checked in order: kind, name length,
/// name bytes, UTF-8, data length, data bytes.
pub open spec fn parse_asset(b: Seq<u8>, pos: int) -> Result<(AssetView, int), PakFault> {
    if pos + 1 > b.len() {
        Err(PakFault::UnexpectedEof)
    } else {
        match kind_from_byte(b[pos]) {
            None => Err(PakFault::UnknownAssetKind(b[pos])),
            Some(kind) => {
                let p1 = pos + 1;
                if p1 + 4 > b.len() {
                    Err(PakFault::UnexpectedEof)
                } else {
                    let name_len = u32_of_le(b.subrange(p1, p1 + 4));
                    let p2 = p1 + 4;
                    if name_len > MAX_NAME_LEN {
                        Err(PakFault::NameTooLong(name_len))
                    } else if p2 + name_len > b.len() {
                        Err(PakFault::UnexpectedEof)
                    } else {
                        let name = b.subrange(p2, p2 + name_len);
                        let p3 = p2 + name_len;
                        if !valid_utf8(name) {
                            Err(PakFault::InvalidNameUtf8(utf8_error_text(name)))
                        } else if p3 + 8 > b.len() {
                            Err(PakFault::UnexpectedEof)
                        } else {
                            let data_len = u64_of_le(b.subrange(p3, p3 + 8));
                            let p4 = p3 + 8;
                            if data_len > MAX_DATA_LEN {
                                Err(PakFault::DataTooLong(data_len))
                            } else if p4 + data_len > b.len() {
                                Err(PakFault::UnexpectedEof)
                            } else {
                                Ok(
                                    (
                                        (kind, decode_utf8(name), b.subrange(p4, p4 + data_len)),
                                        p4 + data_len,
                                    ),
                                )
                            }
                        }
                    }
                }
            },
        }
    }
}

/// Reads `n` consecutive asset records starting at `pos`.
pub open spec fn parse_assets(b: Seq<u8>, pos: int, n: nat) -> Result<(Seq<AssetView>, int), PakFault>
    decreases n,
{
    if n == 0 {
        Ok((Seq::empty(), pos))
    } else {
        match parse_asset(b, pos) {
            Err(e) => Err(e),
            Ok((a, next)) => match parse_assets(b, next, (n - 1) as nat) {
                Err(e) => Err(e),
                Ok((rest, end)) => Ok((seq![a] + rest, end)),
            },
        }
    }
}

/// Reads a container from the start of `b`; bytes after the last asset are
/// not looked at.
pub open spec fn parse_pak(b: Seq<u8>) -> Result<Seq<AssetView>, PakFault> {
    if b.len() < 4 {
        Err(PakFault::UnexpectedEof)
    } else if b.subrange(0, 4) != pak_magic() {
        Err(PakFault::InvalidMagic(b[0], b[1], b[2], b[3]))
    } else if b.len() < 8 {
        Err(PakFault::UnexpectedEof)
    } else if u32_of_le(b.subrange(4, 8)) != PAK_VERSION {
        Err(PakFault::UnsupportedVersion(u32_of_le(b.subrange(4, 8))))
    } else if b.len() < 12 {
        Err(PakFault::UnexpectedEof)
    } else if u32_of_le(b.subrange(8, 12)) > MAX_ASSET_COUNT {
        Err(PakFault::TooManyAssets(u32_of_le(b.subrange(8, 12))))
    } else {
        match parse_assets(b, 12, u32_of_le(b.subrange(8, 12)) as nat) {
            Err(e) => Err(e),
            Ok((s, _)) => Ok(s),
        }
    }
}

/// What a read gives back, with the container taken as its assets.
pub open spec fn read_result_view(r: Result<PakFile, PakError>) -> Result<Seq<AssetView>, PakFault> {
    match r {
        Ok(p) => Ok(p@),
        Err(e) => Err(e@),
    }
}

/// The text `String::from_utf8`'s error displays for `bytes` that are not
/// UTF-8 (where the valid prefix ends and how long the bad sequence is).
pub uninterp spec fn utf8_error_text(bytes: Seq<u8>) -> Seq<char>;

/// `String::from_utf8`: the bytes as a string when they are valid UTF-8,
/// whose characters are the bytes decoded; otherwise the error's display
/// text, which depends on the bytes alone and is only named.
#[verifier::external_body]
pub(crate) fn string_from_utf8(bytes: Vec<u8>) -> (r: Result<String, String>)
    ensures
        r is Ok <==> valid_utf8(bytes@),
        r matches Ok(s) ==> s@ == decode_utf8(bytes@),
        r matches Err(e) ==> e@ == utf8_error_text(bytes@),
{
    String::from_utf8(bytes).map_err(|error| error.to_string())
}

impl PakFile {
    /// Serializes the container, appending its bytes to `writer`. Appending
    /// to a vector cannot fail, so the result is always `Ok`.
    pub fn write(&self, writer: &mut Vec<u8>) -> (r: Result<(), PakError>)
        ensures
            r is Ok,
            final(writer)@ == old(writer)@ + encode_pak(self@),
    {
        let ghost start = writer@;
        writer.push(0x50u8);
        writer.push(0x49u8);
        writer.push(0x45u8);
        writer.push(0x00u8);
        push_u32_le(writer, PAK_VERSION);
        let n = self.assets.len();
        push_u32_le(writer, ((n as u64) % 0x1_0000_0000) as u32);
        let ghost header = writer@;
        assert(header =~= start + pak_magic() + le_u32(PAK_VERSION) + le_u32(
            (n as int % 0x1_0000_0000) as u32,
        ));
        let mut i: usize = 0;
        while i < n
            invariant
                n == self.assets@.len(),
                i <= n,
                writer@ == header + encode_assets(self@.take(i as int)),
            decreases n - i,
        {
            let asset = &self.assets[i];
            let ghost before = writer@;
            writer.push(asset.kind.to_u8());
            let name = asset.name.as_str().as_bytes();
            push_u32_le(writer, ((name.len() as u64) % 0x1_0000_0000) as u32);
            push_bytes(writer, name);
            push_u64_le(writer, asset.data.len() as u64);
            push_bytes(writer, asset.data.as_slice());
            proof {
                assert(self@[i as int] == asset@);
                assert(writer@ =~= before + encode_asset(asset@));
                lemma_encode_assets_push(self@.take(i as int), asset@);
                assert(self@.take(i + 1) =~= self@.take(i as int).push(asset@));
            }
            i = i + 1;
        }
        proof {
            assert(self@.take(n as int) =~= self@);
        }
        Ok(())
    }

    /// Deserializes a container from the start of `reader`. Bytes after the
    /// last asset are ignored.
    pub fn read(reader: &[u8]) -> (r: Result<PakFile, PakError>)
        ensures
            read_result_view(r) == parse_pak(reader@),
    {
        let len = reader.len();
        if len < 4 {
            return Err(PakError::UnexpectedEof);
        }
        if !(reader[0] == 0x50 && reader[1] == 0x49 && reader[2] == 0x45 && reader[3] == 0x00) {
            proof {
                if reader@.subrange(0, 4) == pak_magic() {
                    assert(reader@.subrange(0, 4)[0] == reader@[0]);
                    assert(reader@.subrange(0, 4)[1] == reader@[1]);
                    assert(reader@.subrange(0, 4)[2] == reader@[2]);
                    assert(reader@.subrange(0, 4)[3] == reader@[3]);
                }
            }
            return Err(PakError::InvalidMagic(reader[0], reader[1], reader[2], reader[3]));
        }
        assert(reader@.subrange(0, 4) =~= pak_magic());
        if len < 8 {
            return Err(PakError::UnexpectedEof);
        }
        let version = read_u32_le(reader, 4);
        if version != PAK_VERSION {
            return Err(PakError::UnsupportedVersion(version));
        }
        if len < 12 {
            return Err(PakError::UnexpectedEof);
        }
        let count = read_u32_le(reader, 8);
        if count > MAX_ASSET_COUNT {
            return Err(PakError::TooManyAssets(count));
        }
        let mut assets: Vec<PakAsset> = Vec::new();
        let mut pos: usize = 12;
        let mut i: u32 = 0;
        while i < count
            invariant
                len == reader@.len(),
                12 <= pos <= len,
                i <= count,
                parse_pak(reader@) == match parse_assets(reader@, 12, count as nat) {
                    Err(e) => Err(e),
                    Ok((s, _)) => Ok(s),
                },
                parse_assets(reader@, 12, count as nat) == match parse_assets(
                    reader@,
                    pos as int,
                    (count - i) as nat,
                ) {
                    Err(e) => Err(e),
                    Ok((rest, end)) => Ok((assets@.map_values(|a: PakAsset| a@) + rest, end)),
                },
            decreases count - i,
        {
            match parse_one_asset(reader, pos) {
                Err(e) => {
                    return Err(e);
                },
                Ok((asset, next)) => {
                    let ghost old_assets = assets@;
                    let ghost a = asset@;
                    assets.push(asset);
                    proof {
                        assert(assets@.map_values(|x: PakAsset| x@) =~= old_assets.map_values(
                            |x: PakAsset| x@,
                        ) + seq![a]);
                        match parse_assets(reader@, next as int, (count - i - 1) as nat) {
                            Err(e) => {},
                            Ok((rest, end)) => {
                                assert(old_assets.map_values(|x: PakAsset| x@) + (seq![a] + rest)
                                    =~= assets@.map_values(|x: PakAsset| x@) + rest);
                            },
                        }
                    }
                    pos = next;
                    i = i + 1;
                },
            }
        }
        proof {
            assert(assets@.map_values(|a: PakAsset| a@) + Seq::<AssetView>::empty()
                =~= assets@.map_values(|a: PakAsset| a@));
        }
        Ok(PakFile { assets })
    }
}

/// Reads one asset record at `pos`, giving the asset and the position just
/// past it.
fn parse_one_asset(data: &[u8], pos: usize) -> (r: Result<(PakAsset, usize), PakError>)
    requires
        pos <= data@.len(),
    ensures
        match r {
            Ok((a, next)) => parse_asset(data@, pos as int) == Ok::<(AssetView, int), PakFault>(
                (a@, next as int),
            ) && next <= data@.len(),
            Err(e) => parse_asset(data@, pos as int) == Err::<(AssetView, int), PakFault>(e@),
        },
{
    let len = data.len();
    if len - pos < 1 {
        return Err(PakError::UnexpectedEof);
    }
    let kind = match CookedAssetKind::from_u8(data[pos]) {
        None => {
            return Err(PakError::UnknownAssetKind(data[pos]));
        },
        Some(k) => k,
    };
    let p1 = pos + 1;
    if len - p1 < 4 {
        return Err(PakError::UnexpectedEof);
    }
    let name_len = read_u32_le(data, p1);
    let p2 = p1 + 4;
    if name_len > MAX_NAME_LEN {
        return Err(PakError::NameTooLong(name_len));
    }
    if len - p2 < name_len as usize {
        return Err(PakError::UnexpectedEof);
    }
    let p3 = p2 + name_len as usize;
    let name_bytes = copy_range(data, p2, p3);
    let name = match string_from_utf8(name_bytes) {
        Err(text) => {
            return Err(PakError::InvalidNameUtf8(text));
        },
        Ok(s) => s,
    };
    if len - p3 < 8 {
        return Err(PakError::UnexpectedEof);
    }
    let data_len = read_u64_le(data, p3);
    let p4 = p3 + 8;
    if data_len > MAX_DATA_LEN {
        return Err(PakError::DataTooLong(data_len));
    }
    if len - p4 < data_len as usize {
        return Err(PakError::UnexpectedEof);
    }
    let end = p4 + data_len as usize;
    let bytes = copy_range(data, p4, end);
    Ok((PakAsset { kind, name, data: bytes }, end))
}

// ---------------------------------------------------------------------------
// Laws
// ---------------------------------------------------------------------------

/// An asset the reader accepts back: its name is at most `MAX_NAME_LEN`
/// bytes and its data at most `MAX_DATA_LEN` bytes.
pub open spec fn asset_within_limits(a: AssetView) -> bool {
    &&& encode_utf8(a.1).len() <= MAX_NAME_LEN
    &&& a.2.len() <= MAX_DATA_LEN
}

/// A container the reader accepts back: at most `MAX_ASSET_COUNT` assets,
/// each within the limits.
pub open spec fn pak_within_limits(s: Seq<AssetView>) -> bool {
    &&& s.len() <= MAX_ASSET_COUNT
    &&& forall|i: int| 0 <= i < s.len() ==> asset_within_limits(#[trigger] s[i])
}

proof fn lemma_parse_asset_of_encoding(b: Seq<u8>, pos: int, a: AssetView)
    requires
        0 <= pos,
        pos + encode_asset(a).len() <= b.len(),
        b.subrange(pos, pos + encode_asset(a).len()) == encode_asset(a),
        asset_within_limits(a),
    ensures
        parse_asset(b, pos) == Ok::<(AssetView, int), PakFault>(
            (a, pos + encode_asset(a).len()),
        ),
{
    let name = encode_utf8(a.1);
    let nl = name.len() as int;
    let dl = a.2.len() as int;
    let e = encode_asset(a);
    lemma_le_u32_roundtrip((nl % 0x1_0000_0000) as u32);
    lemma_le_u64_roundtrip(a.2.len() as u64);
    vstd::utf8::encode_utf8_valid_utf8(a.1);
    vstd::utf8::encode_utf8_decode_utf8(a.1);
    lemma_kind_byte_roundtrip(a.0);
    assert(e[0] == kind_byte(a.0));
    assert(b[pos] == e[0]);
    assert(b.subrange(pos + 1, pos + 5) =~= e.subrange(1, 5));
    assert(e.subrange(1, 5) =~= le_u32((nl % 0x1_0000_0000) as u32));
    assert(nl % 0x1_0000_0000 == nl);
    assert(b.subrange(pos + 5, pos + 5 + nl) =~= e.subrange(5, 5 + nl));
    assert(e.subrange(5, 5 + nl) =~= name);
    assert(b.subrange(pos + 5 + nl, pos + 13 + nl) =~= e.subrange(5 + nl, 13 + nl));
    assert(e.subrange(5 + nl, 13 + nl) =~= le_u64(a.2.len() as u64));
    assert(b.subrange(pos + 13 + nl, pos + 13 + nl + dl) =~= e.subrange(13 + nl, 13 + nl + dl));
    assert(e.subrange(13 + nl, 13 + nl + dl) =~= a.2);
}

proof fn lemma_parse_assets_of_encoding(b: Seq<u8>, pos: int, s: Seq<AssetView>)
    requires
        0 <= pos,
        pos + encode_assets(s).len() <= b.len(),
        b.subrange(pos, pos + encode_assets(s).len()) == encode_assets(s),
        forall|i: int| 0 <= i < s.len() ==> asset_within_limits(#[trigger] s[i]),
    ensures
        parse_assets(b, pos, s.len()) == Ok::<(Seq<AssetView>, int), PakFault>(
            (s, pos + encode_assets(s).len()),
        ),
    decreases s.len(),
{
    if s.len() == 0 {
        assert(s =~= Seq::<AssetView>::empty());
    } else {
        let e0 = encode_asset(s[0]);
        let rest = s.drop_first();
        let er = encode_assets(rest);
        let l0 = e0.len() as int;
        let lr = er.len() as int;
        assert(encode_assets(s) == e0 + er);
        assert(b.subrange(pos, pos + e0.len()) =~= (e0 + er).subrange(0, e0.len() as int));
        assert((e0 + er).subrange(0, e0.len() as int) =~= e0);
        assert(asset_within_limits(s[0]));
        lemma_parse_asset_of_encoding(b, pos, s[0]);
        assert(b.subrange(pos + l0, pos + l0 + lr) =~= (e0 + er).subrange(l0, l0 + lr));
        assert((e0 + er).subrange(l0, l0 + lr) =~= er);
        assert forall|i: int| 0 <= i < rest.len() implies asset_within_limits(#[trigger] rest[i]) by {
            assert(rest[i] == s[i + 1]);
        }
        lemma_parse_assets_of_encoding(b, pos + e0.len(), rest);
        assert(seq![s[0]] + rest =~= s);
    }
}

/// Reading back what was written gives the same assets: for every container
/// within the reader's limits, decoding its encoding (followed by any
/// further bytes) yields exactly its assets, in order.
#[verifier::rlimit(40)]
pub proof fn law_pak_read_after_write(s: Seq<AssetView>, trailing: Seq<u8>)
    requires
        pak_within_limits(s),
    ensures
        parse_pak(encode_pak(s) + trailing) == Ok::<Seq<AssetView>, PakFault>(s),
{
    let b = encode_pak(s) + trailing;
    let body = encode_assets(s);
    let count = (s.len() % 0x1_0000_0000) as u32;
    lemma_le_u32_roundtrip(PAK_VERSION);
    lemma_le_u32_roundtrip(count);
    assert(b.len() >= 12);
    assert(b.subrange(0, 4) =~= pak_magic());
    assert(b.subrange(4, 8) =~= le_u32(PAK_VERSION));
    assert(u32_of_le(b.subrange(4, 8)) == PAK_VERSION);
    assert(b.subrange(8, 12) =~= le_u32(count));
    assert(s.len() % 0x1_0000_0000 == s.len());
    assert(u32_of_le(b.subrange(8, 12)) == s.len());
    assert(b.subrange(12, 12 + body.len() as int) =~= body);
    lemma_parse_assets_of_encoding(b, 12, s);
}

} // verus!
