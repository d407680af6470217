use rebone::error::FormatError;
use rebone::model::{Mesh, Prim};

fn put_u32(buffer: &mut Vec<u8>, at: usize, value: u32) {
    buffer[at..at + 4].copy_from_slice(&value.to_le_bytes());
}

/// One weighted mesh of two vertices: header 0x10, mesh table 0x30, mesh
/// 0x40, sub-descriptor pointer 0x80, sub-descriptor 0x90, vertices 0xD0.
fn prim_bytes(properties: u8) -> Vec<u8> {
    let mut b = vec![0u8; 0x100];
    put_u32(&mut b, 0, 0x10);
    put_u32(&mut b, 0x14, 8);
    put_u32(&mut b, 0x1C, 1);
    put_u32(&mut b, 0x20, 0x30);
    put_u32(&mut b, 0x30, 0x40);
    b[0x42] = 2;
    b[0x44] = 2;
    put_u32(&mut b, 0x40 + 0x2C, 0x80);
    put_u32(&mut b, 0x80, 0x90);
    b[0x95] = properties;
    put_u32(&mut b, 0x90 + 0x2C, 2);
    put_u32(&mut b, 0x90 + 0x30, 0xD0);
    b
}

#[test]
fn mesh_descriptor_fields() {
    let b = prim_bytes(0);
    let mesh = Mesh::from_buffer(&b, 0x40).unwrap();
    assert_eq!(mesh.main_type, 2);
    assert_eq!(mesh.sub_type, 2);
    assert_eq!(mesh.sub_offset, 0x90);
    assert_eq!(mesh.properties, 0);
    assert_eq!(mesh.vertex_count, 2);
    assert_eq!(mesh.vertex_offset, 0xD0);
    assert_eq!(mesh.weights_offset, 0xD0 + 2 * 8);
    assert!(mesh.is_weighted_mesh());
    assert!(!mesh.is_high_resolution());
}

#[test]
fn mesh_high_resolution_stride() {
    let b = prim_bytes(0x08 | 0x01);
    let mesh = Mesh::from_buffer(&b, 0x40).unwrap();
    assert!(mesh.is_high_resolution());
    assert_eq!(mesh.weights_offset, 0xD0 + 2 * 12);
}

#[test]
fn mesh_out_of_bounds() {
    let b = prim_bytes(0);
    assert_eq!(Mesh::from_buffer(&b, 0xD1).err(), Some(FormatError::OutOfBounds));
    let mut bad_pointer = b.clone();
    put_u32(&mut bad_pointer, 0x40 + 0x2C, 0xFE);
    assert_eq!(Mesh::from_buffer(&bad_pointer, 0x40).err(), Some(FormatError::OutOfBounds));
    let mut bad_sub = b.clone();
    put_u32(&mut bad_sub, 0x80, 0xD0);
    assert_eq!(Mesh::from_buffer(&bad_sub, 0x40).err(), Some(FormatError::OutOfBounds));
}

#[test]
fn mesh_new_is_zeroed() {
    let mesh = Mesh::new();
    assert_eq!(mesh.vertex_count, 0);
    assert_eq!(mesh.weights_offset, 0);
    assert!(!mesh.is_weighted_mesh());
}

#[test]
fn prim_reads_header_and_meshes() {
    let prim = Prim::from_bytes(prim_bytes(0)).unwrap();
    assert_eq!(prim.header, 0x10);
    assert_eq!(prim.property_flags, 8);
    assert!(prim.is_weighted());
    assert_eq!(prim.mesh.len(), 1);
    assert_eq!(prim.mesh[0].weights_offset, 0xE0);
    assert_eq!(prim.buffer, prim_bytes(0));
}

#[test]
fn prim_not_weighted_asset_flag() {
    let mut b = prim_bytes(0);
    put_u32(&mut b, 0x14, 0x7);
    let prim = Prim::from_bytes(b).unwrap();
    assert!(!prim.is_weighted());
}

#[test]
fn prim_rejects_unweighted_mesh() {
    let mut b = prim_bytes(0);
    b[0x44] = 1;
    assert_eq!(Prim::from_bytes(b).err(), Some(FormatError::NotWeightedMesh(0)));
    let mut b = prim_bytes(0);
    b[0x42] = 3;
    assert_eq!(Prim::from_bytes(b).err(), Some(FormatError::NotWeightedMesh(0)));
}

#[test]
fn prim_reports_first_bad_mesh() {
    let mut b = prim_bytes(0);
    put_u32(&mut b, 0x1C, 2);
    put_u32(&mut b, 0x34, 0x00);
    assert_eq!(Prim::from_bytes(b).err(), Some(FormatError::NotWeightedMesh(1)));
}

#[test]
fn prim_rejects_weights_past_the_end() {
    let mut b = prim_bytes(0);
    put_u32(&mut b, 0x90 + 0x2C, 20);
    assert_eq!(Prim::from_bytes(b).err(), Some(FormatError::OutOfBounds));
    let mut b = prim_bytes(0);
    b.truncate(0xF7);
    assert_eq!(Prim::from_bytes(b).err(), Some(FormatError::OutOfBounds));
}

#[test]
fn prim_truncated_header() {
    assert_eq!(Prim::from_bytes(vec![0x10, 0]).err(), Some(FormatError::OutOfBounds));
    let mut b = prim_bytes(0);
    b.truncate(0x23);
    assert_eq!(Prim::from_bytes(b).err(), Some(FormatError::OutOfBounds));
}

#[test]
fn prim_new_is_empty() {
    let prim = Prim::new();
    assert!(prim.buffer.is_empty());
    assert!(prim.mesh.is_empty());
    assert!(!prim.is_weighted());
}
