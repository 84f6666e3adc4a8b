use pie_runtime::pak::{CookedAssetKind, PakAsset, PakError, PakFile};

#[test]
fn pak_round_trip_empty() {
    let pak = PakFile { assets: Vec::new() };
    let mut buf = Vec::new();
    pak.write(&mut buf).expect("write should succeed");
    let read_back = PakFile::read(&mut buf.as_slice()).expect("read should succeed");
    assert_eq!(read_back.assets.len(), 0);
}

#[test]
fn pak_round_trip_multiple_assets() {
    let pak = PakFile {
        assets: vec![
            PakAsset { kind: CookedAssetKind::Mesh, name: "cube".to_string(), data: vec![0xAA; 1024] },
            PakAsset {
                kind: CookedAssetKind::Texture,
                name: "albedo".to_string(),
                data: vec![0xBB; 2048],
            },
            PakAsset {
                kind: CookedAssetKind::Shader,
                name: "debug_line".to_string(),
                data: b"shader source".to_vec(),
            },
            PakAsset {
                kind: CookedAssetKind::Material,
                name: "default".to_string(),
                data: vec![0xCC; 64],
            },
        ],
    };
    let mut buf = Vec::new();
    pak.write(&mut buf).expect("write should succeed");
    let read_back = PakFile::read(&mut buf.as_slice()).expect("read should succeed");
    assert_eq!(read_back.assets.len(), 4);
    assert_eq!(read_back.assets[0].kind, CookedAssetKind::Mesh);
    assert_eq!(read_back.assets[0].name, "cube");
    assert_eq!(read_back.assets[0].data.len(), 1024);
}

#[test]
fn pak_rejects_invalid_magic() {
    let mut buf = b"NOTPAK".to_vec();
    buf.extend_from_slice(&1u32.to_le_bytes());
    buf.extend_from_slice(&0u32.to_le_bytes());
    let error = PakFile::read(&mut buf.as_slice()).expect_err("should fail");
    assert!(error.to_string().contains("invalid pak magic"));
}

#[test]
fn pak_rejects_wrong_version() {
    let mut buf = b"PIE\0".to_vec();
    buf.extend_from_slice(&999u32.to_le_bytes());
    buf.extend_from_slice(&0u32.to_le_bytes());
    let error = PakFile::read(&mut buf.as_slice()).expect_err("should fail");
    assert!(error.to_string().contains("unsupported pak version"));
}

#[test]
fn pak_rejects_unknown_asset_kind() {
    let mut buf = b"PIE\0".to_vec();
    buf.extend_from_slice(&1u32.to_le_bytes());
    buf.extend_from_slice(&1u32.to_le_bytes());
    buf.push(0xFF);
    buf.extend_from_slice(&4u32.to_le_bytes());
    buf.extend_from_slice(b"test");
    buf.extend_from_slice(&0u64.to_le_bytes());
    let error = PakFile::read(&mut buf.as_slice()).expect_err("should fail");
    assert!(error.to_string().contains("unknown asset kind"));
}

#[test]
fn pak_read_after_write_gives_back_every_asset() {
    let pak = PakFile {
        assets: vec![
            PakAsset { kind: CookedAssetKind::Shader, name: "s".to_string(), data: vec![1, 2, 3] },
            PakAsset { kind: CookedAssetKind::Mesh, name: "".to_string(), data: vec![] },
        ],
    };
    let mut buf = Vec::new();
    pak.write(&mut buf).unwrap();
    let back = PakFile::read(&buf).unwrap();
    assert_eq!(back, pak);
}

#[test]
fn pak_reports_truncation_and_limits() {
    assert_eq!(PakFile::read(&[0u8; 3]), Err(PakError::UnexpectedEof));
    let mut buf = b"PIE\0".to_vec();
    buf.extend_from_slice(&1u32.to_le_bytes());
    buf.extend_from_slice(&100_001u32.to_le_bytes());
    assert_eq!(PakFile::read(&buf), Err(PakError::TooManyAssets(100_001)));
    let mut buf = b"PIE\0".to_vec();
    buf.extend_from_slice(&1u32.to_le_bytes());
    buf.extend_from_slice(&1u32.to_le_bytes());
    buf.push(1);
    buf.extend_from_slice(&4097u32.to_le_bytes());
    assert_eq!(PakFile::read(&buf), Err(PakError::NameTooLong(4097)));
}

#[test]
fn pak_magic_error_names_the_bytes() {
    let buf = b"NOTPAK\x01\x00\x00\x00\x00\x00".to_vec();
    let error = PakFile::read(&buf).unwrap_err();
    assert_eq!(error, PakError::InvalidMagic(b'N', b'O', b'T', b'P'));
}

#[test]
fn cooked_asset_kind_bytes_round_trip() {
    for kind in [CookedAssetKind::Mesh, CookedAssetKind::Texture, CookedAssetKind::Shader, CookedAssetKind::Material] {
        assert_eq!(CookedAssetKind::from_u8(kind.to_u8()), Some(kind));
    }
    assert_eq!(CookedAssetKind::from_u8(0), None);
    assert_eq!(CookedAssetKind::from_u8(0xFF), None);
}

fn pak_with_raw_name(name: &[u8]) -> Vec<u8> {
    let mut buf = b"PIE\0".to_vec();
    buf.extend_from_slice(&1u32.to_le_bytes());
    buf.extend_from_slice(&1u32.to_le_bytes());
    buf.push(3);
    buf.extend_from_slice(&(name.len() as u32).to_le_bytes());
    buf.extend_from_slice(name);
    buf.extend_from_slice(&0u64.to_le_bytes());
    buf
}

#[test]
fn pak_reports_invalid_name_utf8_with_decoder_detail() {
    let error = PakFile::read(&pak_with_raw_name(&[b'a', 0xff])).unwrap_err();
    assert_eq!(error, PakError::InvalidNameUtf8("invalid utf-8 sequence of 1 bytes from index 1".to_string()));
    assert_eq!(error.to_string(), "invalid asset name UTF-8: invalid utf-8 sequence of 1 bytes from index 1");
    let error = PakFile::read(&pak_with_raw_name(&[0xe2, 0x82])).unwrap_err();
    assert_eq!(error.to_string(), "invalid asset name UTF-8: incomplete utf-8 byte sequence from index 0");
}

#[test]
fn load_pak_reports_invalid_name_utf8_with_decoder_detail() {
    let error = pie_runtime::pak_loader::load_pak_bytes(&pak_with_raw_name(&[b'a', 0xff]), "x.pak").unwrap_err();
    assert_eq!(
        error.to_string(),
        "failed to read asset at x.pak: invalid asset name UTF-8: invalid utf-8 sequence of 1 bytes from index 1"
    );
}
