use rebone::bytes::read_u64;
use rebone::error::FormatError;
use rebone::sidecar::{
    find_folded, find_sidecar, patch_binary_meta, retarget_binary_meta, HashDepend, Meta,
    BINARY_SIDECAR_SUFFIX, JSON_SIDECAR_SUFFIX,
};

fn meta_with(hashes: &[&str]) -> Meta {
    Meta {
        hash_value: "00F1E2D3C4B5A697".to_string(),
        hash_path: "assets/model.prim".to_string(),
        hash_offset: 16,
        hash_size: 1024,
        hash_resource_type: "PRIM".to_string(),
        hash_reference_table_size: 13,
        hash_reference_table_dummy: 0,
        hash_size_final: 1024,
        hash_size_in_memory: 2048,
        hash_size_in_video_memory: 4096,
        hash_reference_data: hashes
            .iter()
            .map(|h| HashDepend { hash: h.to_string(), flag: "1F".to_string() })
            .collect(),
    }
}

#[test]
fn sidecar_hash_update_scenario() {
    let mut meta = meta_with(&["0011223344556677"]);
    meta.retarget(&"00abcdef01234567".to_string());
    assert_eq!(meta.hash_reference_data.len(), 1);
    assert_eq!(meta.hash_reference_data[0].hash, "00abcdef01234567");
    assert_eq!(meta.hash_reference_data[0].flag, "1F");
    assert_eq!(meta.hash_value, "00F1E2D3C4B5A697");
    assert_eq!(meta.hash_size_in_video_memory, 4096);
}

#[test]
fn sidecar_hash_kept_for_short_stem() {
    let mut meta = meta_with(&["0011223344556677"]);
    meta.retarget(&"00abcdef0123456".to_string());
    assert_eq!(meta.hash_reference_data[0].hash, "0011223344556677");
}

#[test]
fn sidecar_hash_kept_without_leading_zeros() {
    let mut meta = meta_with(&["0011223344556677"]);
    meta.retarget(&"01abcdef01234567".to_string());
    assert_eq!(meta.hash_reference_data[0].hash, "0011223344556677");
    meta.retarget(&"skeleton_example".to_string());
    assert_eq!(meta.hash_reference_data[0].hash, "0011223344556677");
}

#[test]
fn sidecar_only_first_dependency_changes() {
    let mut meta = meta_with(&["0011223344556677", "0099887766554433"]);
    meta.retarget(&"00abcdef01234567".to_string());
    assert_eq!(meta.hash_reference_data[0].hash, "00abcdef01234567");
    assert_eq!(meta.hash_reference_data[1].hash, "0099887766554433");
}

#[test]
fn sidecar_without_dependencies() {
    let mut meta = meta_with(&[]);
    meta.retarget(&"00abcdef01234567".to_string());
    assert!(meta.hash_reference_data.is_empty());
}

fn binary_meta(depends_size: u32, count_word: u32, len: usize) -> Vec<u8> {
    let mut b: Vec<u8> = (0..len).map(|i| i as u8).collect();
    b[0x18..0x1C].copy_from_slice(&depends_size.to_le_bytes());
    b[0x2C..0x30].copy_from_slice(&count_word.to_le_bytes());
    b
}

#[test]
fn binary_sidecar_hash_slot() {
    let input = binary_meta(4, 0xC000_0002, 0x40);
    let out = patch_binary_meta(input.clone(), 0x0123_4567_89AB_CDEF).unwrap().unwrap();
    assert_eq!(read_u64(&out, 0x32), 0x0123_4567_89AB_CDEF);
    assert_eq!(out[0x32], 0xEF);
    assert_eq!(out[0x39], 0x01);
    for at in (0..0x32).chain(0x3A..0x40) {
        assert_eq!(out[at], input[at]);
    }
}

#[test]
fn binary_sidecar_from_rig_stem() {
    let input = binary_meta(1, 0, 0x38);
    let out = retarget_binary_meta(input, "00ABCDEF01234567").unwrap().unwrap();
    assert_eq!(read_u64(&out, 0x30), 0x00AB_CDEF_0123_4567);
    let input = binary_meta(1, 0, 0x38);
    let out = retarget_binary_meta(input, "+ff").unwrap().unwrap();
    assert_eq!(read_u64(&out, 0x30), 0xFF);
}

#[test]
fn binary_sidecar_without_dependency_block() {
    let input = binary_meta(0, 5, 0x40);
    assert_eq!(patch_binary_meta(input.clone(), 7), Ok(None));
    assert_eq!(retarget_binary_meta(input, "not hex"), Ok(None));
}

#[test]
fn binary_sidecar_invalid_stem() {
    for stem in ["", "+", "-1", "xyz", "1ffffffffffffffff", "0x10", "12 34"] {
        let input = binary_meta(1, 0, 0x40);
        assert_eq!(retarget_binary_meta(input, stem), Err(FormatError::InvalidHash), "{}", stem);
    }
}

#[test]
fn binary_sidecar_out_of_bounds() {
    assert_eq!(patch_binary_meta(vec![0; 0x1B], 1), Err(FormatError::OutOfBounds));
    let mut short = vec![0u8; 0x20];
    short[0x18] = 1;
    assert_eq!(patch_binary_meta(short.clone(), 1), Err(FormatError::OutOfBounds));
    assert_eq!(retarget_binary_meta(short, "zz"), Err(FormatError::OutOfBounds));
    let input = binary_meta(1, 9, 0x40);
    assert_eq!(patch_binary_meta(input.clone(), 1), Err(FormatError::OutOfBounds));
    assert_eq!(retarget_binary_meta(input, "1"), Err(FormatError::OutOfBounds));
    assert!(patch_binary_meta(binary_meta(1, 8, 0x40), 1).unwrap().is_some());
}

#[test]
fn sidecar_found_ignoring_case() {
    let names: Vec<String> = ["model.prim", "MODEL.PRIM.META", "Model.Prim.Meta.Json", "other"]
        .iter()
        .map(|s| s.to_string())
        .collect();
    assert_eq!(find_sidecar(&names, "Model.PRIM", JSON_SIDECAR_SUFFIX), Some(2));
    assert_eq!(find_sidecar(&names, "model.prim", BINARY_SIDECAR_SUFFIX), Some(1));
    assert_eq!(find_sidecar(&names, "another.prim", BINARY_SIDECAR_SUFFIX), None);
    assert_eq!(find_sidecar(&Vec::new(), "model.prim", BINARY_SIDECAR_SUFFIX), None);
}

#[test]
fn folded_names_first_match() {
    let names: Vec<String> = ["a", "b", "a"].iter().map(|s| s.to_string()).collect();
    assert_eq!(find_folded(&names, &"a".to_string()), Some(0));
    assert_eq!(find_folded(&names, &"b".to_string()), Some(1));
    assert_eq!(find_folded(&names, &"A".to_string()), None);
}
