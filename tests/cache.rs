use vox::cache::{decode_record, encode_record, local_path, Format, CACHE_EXT};
use vox::chunk::{ChunkKind, ChunkStorage};
use vox::terrain::terrain;
use vox::voxel::{IVec3, Kind};

#[test]
fn local_path_test() {
    let path = local_path(IVec3::new(0, 0, 0));
    assert!(path.ends_with(&format!("0_0_0{}", CACHE_EXT)));

    let path = local_path(IVec3::new(-1, 0, 0));
    assert!(path.ends_with(&format!("-1_0_0{}", CACHE_EXT)));

    let path = local_path(IVec3::new(-1, 3333, -461));
    assert!(path.ends_with(&format!("-1_3333_-461{}", CACHE_EXT)));
}

#[test]
fn format_local() {
    assert_eq!("-234_22_1", vox::cache::format_local(IVec3::new(-234, 22, 1)));
    assert_eq!("-9999_-9999_-9999", vox::cache::format_local(IVec3::new(-9999, -9999, -9999)));
    assert_eq!("9999_-9999_9999", vox::cache::format_local(IVec3::new(9999, -9999, 9999)));
    assert_eq!("0_0_0", vox::cache::format_local(IVec3::new(0, 0, 0)));
}

#[test]
fn format_local_extremes() {
    assert_eq!(
        vox::cache::format_local(IVec3::new(i32::MIN, i32::MAX, 10)),
        "-2147483648_2147483647_10"
    );
    assert_eq!(local_path(IVec3::new(7, -8, 90)), "cache/chunks/7_-8_90.bin");
}

fn sample_layer() -> ChunkKind {
    let mut layer: ChunkKind = ChunkStorage::new(Kind(0));
    layer.set(IVec3::new(1, 2, 3), Kind(7));
    layer.set(IVec3::new(15, 15, 15), Kind(65535));
    layer
}

#[test]
fn test_ser_de() {
    for format in [Format::Binary, Format::Text] {
        let layer: ChunkKind = ChunkStorage::new(Kind(0));
        let bytes = encode_record(format, IVec3::new(0, 0, 0), &layer);
        let (local, loaded) = decode_record(format, &bytes).unwrap();
        assert_eq!(local, IVec3::new(0, 0, 0));
        assert_eq!(loaded.as_slice(), layer.as_slice());
    }
}

#[test]
fn record_round_trip_keeps_coordinate_and_layer() {
    let layer = sample_layer();
    for format in [Format::Binary, Format::Text] {
        let c = IVec3::new(-921, 0, 2319);
        let bytes = encode_record(format, c, &layer);
        let (local, loaded) = decode_record(format, &bytes).unwrap();
        assert_eq!(local, c);
        assert_eq!(loaded.as_slice(), layer.as_slice());
        assert_eq!(loaded.get(IVec3::new(1, 2, 3)), Kind(7));
    }
}

#[test]
fn binary_record_layout() {
    let bytes = encode_record(Format::Binary, IVec3::new(1, -1, 2), &sample_layer());
    assert_eq!(bytes.len(), 12 + 8 + 2 * 4096);
    assert_eq!(&bytes[0..4], &[1, 0, 0, 0]);
    assert_eq!(&bytes[4..8], &[255, 255, 255, 255]);
    assert_eq!(&bytes[12..20], &[0, 16, 0, 0, 0, 0, 0, 0]);
}

#[test]
fn text_record_is_readable() {
    let bytes = encode_record(Format::Text, IVec3::new(1, -1, 2), &sample_layer());
    let text = String::from_utf8(bytes).unwrap();
    assert!(text.starts_with("(1,-1,2,[0,"));
}

#[test]
fn malformed_records_are_rejected() {
    assert!(decode_record(Format::Binary, &[1, 2, 3]).is_none());
    assert!(decode_record(Format::Text, b"(1,2,3,[0,0])").is_none());
    assert!(decode_record(Format::Text, b"not a record").is_none());
}

#[test]
fn terrain_fills_columns_up_to_their_height() {
    let mut heights = vec![0i32; 256];
    heights[0] = 5;
    heights[17] = 40;
    heights[255] = 20;
    let low = terrain(IVec3::new(0, 0, 0), &heights);
    assert_eq!(low.get(IVec3::new(0, 4, 0)), Kind(1));
    assert_eq!(low.get(IVec3::new(0, 5, 0)), Kind(0));
    assert_eq!(low.get(IVec3::new(1, 15, 1)), Kind(1));
    assert_eq!(low.get(IVec3::new(15, 15, 15)), Kind(1));
    assert_eq!(low.get(IVec3::new(3, 0, 3)), Kind(0));

    let high = terrain(IVec3::new(0, 1, 0), &heights);
    assert_eq!(high.get(IVec3::new(0, 0, 0)), Kind(0));
    assert_eq!(high.get(IVec3::new(1, 15, 1)), Kind(1));
    assert_eq!(high.get(IVec3::new(15, 3, 15)), Kind(1));
    assert_eq!(high.get(IVec3::new(15, 4, 15)), Kind(0));

    let below = terrain(IVec3::new(0, -1, 0), &heights);
    assert_eq!(below.get(IVec3::new(3, 15, 3)), Kind(1));
}

#[test]
fn terrain_is_deterministic() {
    let heights: Vec<i32> = (0..256).map(|i| (i * 7 % 40) as i32).collect();
    let a = terrain(IVec3::new(2, 1, -3), &heights);
    let b = terrain(IVec3::new(2, 1, -3), &heights);
    assert_eq!(a.as_slice(), b.as_slice());
}

#[test]
fn binary_record_matches_fixed_width_layout() {
    let layer = sample_layer();
    let c = IVec3::new(-921, 0, i32::MIN);
    let bytes = encode_record(Format::Binary, c, &layer);
    let mut expected = Vec::new();
    expected.extend_from_slice(&(-921i32).to_le_bytes());
    expected.extend_from_slice(&0i32.to_le_bytes());
    expected.extend_from_slice(&i32::MIN.to_le_bytes());
    expected.extend_from_slice(&4096u64.to_le_bytes());
    for k in layer.as_slice() {
        expected.extend_from_slice(&k.0.to_le_bytes());
    }
    assert_eq!(bytes, expected);
}

#[test]
fn text_record_matches_compact_layout() {
    let layer = sample_layer();
    let bytes = encode_record(Format::Text, IVec3::new(i32::MIN, -1, 2319), &layer);
    let kinds: Vec<String> = layer.as_slice().iter().map(|k| k.0.to_string()).collect();
    let expected = format!("({},{},{},[{}])", i32::MIN, -1, 2319, kinds.join(","));
    assert_eq!(String::from_utf8(bytes).unwrap(), expected);
}
