use rdm4lib::cursor::ByteCursor;
use rdm4lib::model::{JointTransform, RDModell};
use rdm4lib::submesh::{sort_by_mesh, MeshInstance};
use rdm4lib::vertex::{I4b, N4b, P4h, T2h, UniqueIdentifier, W4b};
use rdm4lib::{Malformed, Missing, RdmError};

fn put_u32(v: &mut Vec<u8>, at: usize, x: u32) {
    v[at..at + 4].copy_from_slice(&x.to_le_bytes());
}

fn put_u16(v: &mut Vec<u8>, at: usize, x: u16) {
    v[at..at + 2].copy_from_slice(&x.to_le_bytes());
}

/// A file with the given submeshes (start, count, id), three vertices of
/// eight bytes and one triangle (0, 1, 2).
fn file_with_submeshes(submeshes: &[(u32, u32, u32)]) -> Vec<u8> {
    let n = submeshes.len();
    let table = 80;
    let vertex_header = table + 8 + 28 * n;
    let triangle_header = vertex_header + 8 + 24;
    let mut v = vec![0u8; triangle_header + 8 + 6];
    v[0..5].copy_from_slice(&[0x52, 0x44, 0x4D, 0x01, 0x14]);
    put_u32(&mut v, 32, 52);
    put_u32(&mut v, 44, 1);
    put_u32(&mut v, 48, 28);
    put_u32(&mut v, 52 + 12, (vertex_header + 8) as u32);
    put_u32(&mut v, 52 + 16, (triangle_header + 8) as u32);
    put_u32(&mut v, 52 + 20, (table + 8) as u32);
    put_u32(&mut v, table, n as u32);
    put_u32(&mut v, table + 4, 28);
    for (i, m) in submeshes.iter().enumerate() {
        let at = table + 8 + 28 * i;
        put_u32(&mut v, at, m.0);
        put_u32(&mut v, at + 4, m.1);
        put_u32(&mut v, at + 8, m.2);
    }
    put_u32(&mut v, vertex_header, 3);
    put_u32(&mut v, vertex_header + 4, 8);
    for k in 0..12 {
        put_u16(&mut v, vertex_header + 8 + 2 * k, 0x3C00 + k as u16);
    }
    put_u32(&mut v, triangle_header, 3);
    put_u32(&mut v, triangle_header + 4, 2);
    put_u16(&mut v, triangle_header + 8, 0);
    put_u16(&mut v, triangle_header + 10, 1);
    put_u16(&mut v, triangle_header + 12, 2);
    v
}

fn minimal_file() -> Vec<u8> {
    file_with_submeshes(&[(0, 3, 0)])
}

/// The minimal file with a skeleton of the given joints (name, parent)
/// behind it. Joint number `i` has the translation (i, 2, 3) and the
/// stored rotation (0, 0, 0, -1).
fn file_with_joints(joints: &[(&[u8], u8)]) -> Vec<u8> {
    let mut v = minimal_file();
    while v.len() % 4 != 0 {
        v.push(0);
    }
    let skin = v.len();
    put_u32(&mut v, 40, skin as u32);
    let records = skin + 4 + 8;
    let names = records + 84 * joints.len();
    v.resize(names, 0);
    put_u32(&mut v, skin, records as u32);
    put_u32(&mut v, skin + 4, joints.len() as u32);
    put_u32(&mut v, skin + 8, 84);
    let mut name_at = names;
    for (i, j) in joints.iter().enumerate() {
        let at = records + 84 * i;
        put_u32(&mut v, at, (name_at + 8) as u32);
        put_u32(&mut v, at + 4, (i as f32).to_bits());
        put_u32(&mut v, at + 8, 2.0f32.to_bits());
        put_u32(&mut v, at + 12, 3.0f32.to_bits());
        put_u32(&mut v, at + 16, 0.0f32.to_bits());
        put_u32(&mut v, at + 20, 0.0f32.to_bits());
        put_u32(&mut v, at + 24, 0.0f32.to_bits());
        put_u32(&mut v, at + 28, (-1.0f32).to_bits());
        v[at + 32] = j.1;
        v.extend_from_slice(&(j.0.len() as u32).to_le_bytes());
        v.extend_from_slice(&1u32.to_le_bytes());
        v.extend_from_slice(j.0);
        name_at += 8 + j.0.len();
    }
    v
}

fn malformed<T: std::fmt::Debug>(r: Result<T, RdmError>) -> Malformed {
    match r {
        Err(RdmError::MalformedFormat(m)) => m,
        other => panic!("expected a malformed file, got {:?}", other.map(|_| ())),
    }
}

fn fishery() -> Vec<u8> {
    vec![
        0x52, 0x44, 0x4D, 0x01, 0x14, 0x00, 0x00, 0x00, 0x00, 0x00, 0x00, 0x00, 0x04, 0x00,
        0x00, 0x00, 0x1C, 0x00, 0x00, 0x00, 0x01, 0x00, 0x00, 0x00, 0x30, 0x00, 0x00, 0x00,
        0x54, 0x00, 0x00, 0x00, 0x29, 0x01, 0x00, 0x00, 0xE3, 0x03, 0x00, 0x00, 0x00, 0x00,
        0x00, 0x00, 0x00, 0x00, 0x00, 0x00, 0x00, 0x00, 0x00, 0x00, 0x00, 0x00, 0x00, 0x00,
        0x00, 0x00, 0x00, 0x00, 0x00, 0x00, 0x00, 0x00, 0x00, 0x00, 0x00, 0x00, 0x00, 0x00,
        0x00, 0x00, 0x00, 0x00, 0x00, 0x00, 0x01, 0x00, 0x00, 0x00, 0x48, 0x00, 0x00, 0x00,
        0xA4, 0x00, 0x00, 0x00, 0x17, 0x01, 0x00, 0x00, 0x00, 0x00, 0x00, 0x00, 0x00, 0x00,
        0x00, 0x00, 0x00, 0x00, 0x00, 0x00, 0x00, 0x00, 0x00, 0x00, 0x00, 0x00, 0x00, 0x00,
        0x00, 0x00, 0x00, 0x00, 0x00, 0x00, 0x00, 0x00, 0x00, 0x00, 0x00, 0x00, 0x00, 0x00,
        0x00, 0x00, 0x00, 0x00, 0x00, 0x00, 0x00, 0x00, 0x00, 0x00, 0x00, 0x00, 0x00, 0x00,
        0x00, 0x00, 0x00, 0x00, 0x00, 0x00, 0x00, 0x00, 0x00, 0x00, 0x00, 0x00, 0x00, 0x00,
        0x00, 0x00, 0x6B, 0x00, 0x00, 0x00, 0x01, 0x00, 0x00, 0x00, 0x47, 0x3A, 0x5C, 0x67,
        0x72, 0x61, 0x70, 0x68, 0x69, 0x63, 0x5F, 0x62, 0x61, 0x63, 0x6B, 0x75, 0x70, 0x5C,
        0x74, 0x6F, 0x62, 0x69, 0x61, 0x73, 0x5C, 0x61, 0x6E, 0x6E, 0x6F, 0x35, 0x5C, 0x61,
        0x73, 0x73, 0x65, 0x74, 0x73, 0x5C, 0x62, 0x75, 0x69, 0x6C, 0x64, 0x69, 0x6E, 0x67,
        0x73, 0x5C, 0x6F, 0x74, 0x68, 0x65, 0x72, 0x73, 0x5C, 0x66, 0x69, 0x73, 0x68, 0x65,
        0x72, 0x79, 0x5F, 0x6F, 0x74, 0x68, 0x65, 0x72, 0x73, 0x5C, 0x70, 0x6F, 0x6C, 0x69,
        0x73, 0x68, 0x5C, 0x75, 0x6D, 0x62, 0x61, 0x75, 0x5C, 0x66, 0x69, 0x73, 0x68, 0x65,
        0x72, 0x79, 0x5F, 0x75, 0x6D, 0x62, 0x61, 0x75, 0x5F, 0x62, 0x61, 0x6B, 0x69, 0x6E,
        0x67, 0x2E, 0x6D, 0x61, 0x78, 0x0A, 0x00, 0x00, 0x00, 0x01, 0x00, 0x00, 0x00, 0x43,
        0x75, 0x74, 0x6F, 0x75, 0x74, 0x2E, 0x72, 0x6D, 0x70, 0x01, 0x00, 0x00, 0x00, 0x5C,
        0x00, 0x00, 0x00, 0x8D, 0x01, 0x00, 0x00, 0xBF, 0x01, 0x00, 0x00, 0xF7, 0x01, 0x00,
        0x00, 0x37, 0x02, 0x00, 0x00, 0x3F, 0x03, 0x00, 0x00, 0x13, 0x02, 0x00, 0x00, 0xFF,
        0xFF, 0xFF, 0xFF, 0x00, 0x20, 0xBE, 0xBF, 0x00, 0x80, 0xE3, 0xBE, 0x00, 0xE0, 0x59,
        0xC0, 0x00, 0x00, 0xBA, 0x3F, 0x00, 0x80, 0xCF, 0xBE, 0x00, 0xC0, 0x03, 0xBF, 0x00,
        0x00, 0x00, 0x00, 0x00, 0x00, 0x00, 0x00, 0x00, 0x00, 0x00, 0x00, 0x00, 0x00, 0x00,
        0x00, 0x00, 0x00, 0x00, 0x00, 0x00, 0x00, 0x00, 0x00, 0x00, 0x00, 0x00, 0x00, 0x00,
        0x00, 0x00, 0x00, 0x00, 0x00, 0x00, 0x00, 0x00, 0x00, 0x00, 0x00, 0x01, 0x00, 0x00,
        0x00, 0x1C, 0x00, 0x00, 0x00, 0xB1, 0x01, 0x00, 0x00, 0x00, 0x00, 0x00, 0x00, 0x00,
        0x00, 0x00, 0x00, 0x00, 0x00, 0x00, 0x00, 0x00, 0x00, 0x00, 0x00, 0x00, 0x00, 0x00,
        0x00, 0x00, 0x00, 0x00, 0x00, 0x06, 0x00, 0x00, 0x00, 0x01, 0x00, 0x00, 0x00, 0x63,
        0x75, 0x74, 0x6F, 0x75, 0x74, 0x01, 0x00, 0x00, 0x00, 0x18, 0x00, 0x00, 0x00, 0xDF,
        0x01, 0x00, 0x00, 0x00, 0x00, 0x00, 0x00, 0x00, 0x00, 0x00, 0x00, 0x00, 0x00, 0x00,
        0x00, 0x00, 0x00, 0x00, 0x00, 0x00, 0x00, 0x00, 0x00, 0x01, 0x00, 0x00, 0x00, 0x10,
        0x00, 0x00, 0x00, 0x00, 0x00, 0x00, 0x00, 0x06, 0x00, 0x00, 0x00, 0x00, 0x00, 0x00,
        0x00, 0x04, 0x00, 0x00, 0x00, 0x01, 0x00, 0x00, 0x00, 0x14, 0x00, 0x00, 0x00, 0x03,
        0x00, 0x00, 0x00, 0x00, 0x00, 0x00, 0x00, 0x00, 0x00, 0x00, 0x00, 0x00, 0x00, 0x00,
        0x00, 0x00, 0x00, 0x00, 0x00, 0x01, 0x00, 0x00, 0x00, 0x1C, 0x00, 0x00, 0x00, 0x00,
        0x00, 0x00, 0x00, 0x4E, 0x00, 0x00, 0x00, 0x00, 0x00, 0x00, 0x00, 0x00, 0x00, 0x00,
        0x00, 0x00, 0x00, 0x00, 0x00, 0x00, 0x00, 0x00, 0x00, 0x00, 0x00, 0x00, 0x00, 0x20,
        0x00, 0x00, 0x00, 0x08, 0x00, 0x00, 0x00, 0xD0, 0x3D, 0x12, 0xB7, 0xDC, 0xBA, 0x00,
        0x00, 0xCC, 0x3D, 0x12, 0xB7, 0x3A, 0xBC, 0x00, 0x00, 0x25, 0x3D, 0x12, 0xB7, 0xF2,
        0xBC, 0x00, 0x00, 0x8D, 0x35, 0x12, 0xB7, 0xDC, 0xBA, 0x00, 0x00, 0x8D, 0x35, 0x12,
        0xB7, 0xEE, 0xBC, 0x00, 0x00, 0x9E, 0x32, 0x7C, 0xB6, 0x89, 0xBD, 0x00, 0x00, 0x9E,
        0x32, 0x7C, 0xB6, 0x24, 0xC0, 0x00, 0x00, 0x9E, 0x32, 0x7C, 0xB6, 0x07, 0xC1, 0x00,
        0x00, 0x9E, 0x32, 0x7C, 0xB6, 0xEA, 0xC1, 0x00, 0x00, 0x8D, 0x30, 0x7C, 0xB6, 0x89,
        0xBD, 0x00, 0x00, 0x8D, 0x30, 0x7C, 0xB6, 0x24, 0xC0, 0x00, 0x00, 0x8D, 0x30, 0x7C,
        0xB6, 0x07, 0xC1, 0x00, 0x00, 0x8D, 0x30, 0x7C, 0xB6, 0xEA, 0xC1, 0x00, 0x00, 0x14,
        0xAE, 0x7C, 0xB6, 0xCF, 0xC2, 0x00, 0x00, 0xB5, 0xAF, 0x7C, 0xB6, 0xAE, 0xC2, 0x00,
        0x00, 0x8B, 0xB4, 0x12, 0xB7, 0xDC, 0xBA, 0x00, 0x00, 0x90, 0xB4, 0x12, 0xB7, 0xB6,
        0xBF, 0x00, 0x00, 0x93, 0xB4, 0x16, 0xB7, 0xCD, 0xC1, 0x00, 0x00, 0x57, 0xB7, 0x1C,
        0xB7, 0x24, 0xC2, 0x00, 0x00, 0x45, 0xBC, 0x1C, 0xB7, 0x24, 0xC2, 0x00, 0x00, 0x9E,
        0xBC, 0x7C, 0xB6, 0xAE, 0xC2, 0x00, 0x00, 0xB8, 0xBC, 0x7C, 0xB6, 0xCF, 0xC2, 0x00,
        0x00, 0xF6, 0xBC, 0x16, 0xB7, 0xCD, 0xC1, 0x00, 0x00, 0xF7, 0xBC, 0x12, 0xB7, 0x62,
        0xBD, 0x00, 0x00, 0xAF, 0xBD, 0x7C, 0xB6, 0xDB, 0xC1, 0x00, 0x00, 0xAF, 0xBD, 0x7C,
        0xB6, 0x5D, 0xBE, 0x00, 0x00, 0xAF, 0xBD, 0x7C, 0xB6, 0xD9, 0xC0, 0x00, 0x00, 0xAF,
        0xBD, 0x7C, 0xB6, 0x55, 0xB8, 0x00, 0x00, 0xF1, 0xBD, 0x7C, 0xB6, 0xEA, 0xC1, 0x00,
        0x00, 0xF1, 0xBD, 0x7C, 0xB6, 0xD9, 0xC0, 0x00, 0x00, 0xF1, 0xBD, 0x7C, 0xB6, 0x5D,
        0xBE, 0x00, 0x00, 0xF1, 0xBD, 0x7C, 0xB6, 0x1E, 0xB8, 0x00, 0x00, 0x4E, 0x00, 0x00,
        0x00, 0x02, 0x00, 0x00, 0x00, 0x16, 0x00, 0x10, 0x00, 0x11, 0x00, 0x17, 0x00, 0x10,
        0x00, 0x16, 0x00, 0x17, 0x00, 0x0F, 0x00, 0x10, 0x00, 0x04, 0x00, 0x01, 0x00, 0x02,
        0x00, 0x03, 0x00, 0x01, 0x00, 0x04, 0x00, 0x03, 0x00, 0x00, 0x00, 0x01, 0x00, 0x1D,
        0x00, 0x19, 0x00, 0x1A, 0x00, 0x19, 0x00, 0x1D, 0x00, 0x1E, 0x00, 0x18, 0x00, 0x15,
        0x00, 0x1C, 0x00, 0x15, 0x00, 0x18, 0x00, 0x14, 0x00, 0x14, 0x00, 0x0D, 0x00, 0x15,
        0x00, 0x0D, 0x00, 0x14, 0x00, 0x0E, 0x00, 0x09, 0x00, 0x06, 0x00, 0x0A, 0x00, 0x06,
        0x00, 0x09, 0x00, 0x05, 0x00, 0x0C, 0x00, 0x0D, 0x00, 0x0E, 0x00, 0x0D, 0x00, 0x0C,
        0x00, 0x08, 0x00, 0x10, 0x00, 0x03, 0x00, 0x04, 0x00, 0x03, 0x00, 0x10, 0x00, 0x0F,
        0x00, 0x16, 0x00, 0x12, 0x00, 0x13, 0x00, 0x12, 0x00, 0x16, 0x00, 0x11, 0x00, 0x0C,
        0x00, 0x07, 0x00, 0x08, 0x00, 0x07, 0x00, 0x0C, 0x00, 0x0B, 0x00, 0x1D, 0x00, 0x18,
        0x00, 0x1C, 0x00, 0x18, 0x00, 0x1D, 0x00, 0x1A, 0x00, 0x1B, 0x00, 0x1E, 0x00, 0x1F,
        0x00, 0x1E, 0x00, 0x1B, 0x00, 0x19, 0x00, 0x01, 0x00, 0x00, 0x00, 0x1C, 0x00, 0x00,
        0x00, 0x07, 0x04, 0x00, 0x00, 0x00, 0x00, 0x00, 0x00, 0x00, 0x00, 0x00, 0x00, 0x00,
        0x00, 0x00, 0x00, 0x00, 0x00, 0x00, 0x00, 0x00, 0x00, 0x00, 0x00, 0x00, 0x00, 0x00,
        0x00, 0x01, 0x00, 0x00, 0x00, 0x30, 0x00, 0x00, 0x00, 0x3F, 0x04, 0x00, 0x00, 0x4E,
        0x04, 0x00, 0x00, 0x00, 0x00, 0x00, 0x00, 0x00, 0x00, 0x00, 0x00, 0x00, 0x00, 0x00,
        0x00, 0x00, 0x00, 0x00, 0x00, 0x00, 0x00, 0x00, 0x00, 0x00, 0x00, 0x00, 0x00, 0x00,
        0x00, 0x00, 0x00, 0x00, 0x00, 0x00, 0x00, 0x00, 0x00, 0x00, 0x00, 0x00, 0x00, 0x00,
        0x00, 0x07, 0x00, 0x00, 0x00, 0x01, 0x00, 0x00, 0x00, 0x66, 0x69, 0x73, 0x68, 0x65,
        0x72, 0x79, 0x5E, 0x00, 0x00, 0x00, 0x01, 0x00, 0x00, 0x00, 0x67, 0x3A, 0x2F, 0x67,
        0x72, 0x61, 0x70, 0x68, 0x69, 0x63, 0x5F, 0x62, 0x61, 0x63, 0x6B, 0x75, 0x70, 0x2F,
        0x74, 0x6F, 0x62, 0x69, 0x61, 0x73, 0x2F, 0x61, 0x6E, 0x6E, 0x6F, 0x35, 0x2F, 0x61,
        0x73, 0x73, 0x65, 0x74, 0x73, 0x2F, 0x62, 0x75, 0x69, 0x6C, 0x64, 0x69, 0x6E, 0x67,
        0x73, 0x2F, 0x6F, 0x74, 0x68, 0x65, 0x72, 0x73, 0x2F, 0x66, 0x69, 0x73, 0x68, 0x65,
        0x72, 0x79, 0x5F, 0x6F, 0x74, 0x68, 0x65, 0x72, 0x73, 0x2F, 0x70, 0x6F, 0x6C, 0x69,
        0x73, 0x68, 0x2F, 0x75, 0x6D, 0x62, 0x61, 0x75, 0x2F, 0x64, 0x69, 0x66, 0x66, 0x75,
        0x73, 0x65, 0x2E, 0x70, 0x73, 0x64,
    ]
}

#[test]
fn fishery_others_lod2() {
    let v = fishery();

    let rdm = RDModell::new(v).unwrap();
    assert_eq!(rdm.vertex.len(), 32);
    assert_eq!(rdm.vertex.get_size(), 8);
    assert_eq!(rdm.triangles_idx_count, 78);

    assert_eq!(
        rdm.triangles_idx_count as usize,
        rdm.triangle_indices.len() * 3
    );
}

#[test]
fn fishery_tables() {
    let rdm = RDModell::new(fishery()).unwrap();
    assert_eq!(rdm.meta, 297);
    assert_eq!(rdm.triangles_offset, 831);
    assert_eq!(rdm.triangles_idx_size, 2);
    assert_eq!(rdm.mesh_info.len(), 1);
    assert_eq!(rdm.mesh_info[0].start_index_location, 0);
    assert_eq!(rdm.mesh_info[0].index_count, 78);
    assert_eq!(rdm.mesh_info[0].mesh, 0);
    assert_eq!(rdm.triangle_indices[0].indices, [0x16, 0x10, 0x11]);
    assert_eq!(rdm.triangle_indices[25].indices, [0x1E, 0x1B, 0x19]);
    assert!(!rdm.has_skin());
    assert_eq!(rdm.read_skin().err(), Some(RdmError::MissingData(Missing::NoSkin)));
}

#[test]
fn fishery_positions() {
    let mut rdm = RDModell::new(fishery()).unwrap();
    assert!(rdm.vertex.iter::<P4h>(0).is_none());
    rdm.vertex.set_layout(vec![UniqueIdentifier::P4h]).unwrap();
    let positions = rdm.vertex.iter::<P4h>(0).unwrap();
    assert_eq!(positions.len(), 32);
    assert_eq!(positions[0].pos, [0x3DD0, 0xB712, 0xBADC, 0x0000]);
    assert_eq!(positions[31].pos, [0xBDF1, 0xB67C, 0xB81E, 0x0000]);
    assert!(rdm.vertex.iter::<N4b>(0).is_none());
    assert!(rdm.vertex.iter::<P4h>(1).is_none());
}

#[test]
fn magic_is_checked() {
    assert!(RDModell::check_has_magic_byte(&[0x52, 0x44, 0x4D, 0x01, 0x14]).is_ok());
    assert!(RDModell::check_has_magic_byte(&fishery()).is_ok());
    assert_eq!(
        RDModell::check_has_magic_byte(&[0x52, 0x44, 0x4D, 0x01]),
        Err(RdmError::MalformedFormat(Malformed::Magic))
    );
    assert_eq!(
        RDModell::check_has_magic_byte(&[]),
        Err(RdmError::MalformedFormat(Malformed::Magic))
    );
}

#[test]
fn wrong_magic_fails_whatever_follows() {
    for k in 0..5 {
        let mut v = fishery();
        v[k] ^= 0x80;
        assert_eq!(malformed(RDModell::new(v)), Malformed::Magic);
    }
    let mut garbage = vec![0xFFu8; 40];
    garbage[0] = 0x52;
    assert_eq!(malformed(RDModell::new(garbage)), Malformed::Magic);
    assert_eq!(malformed(RDModell::new(vec![])), Malformed::Magic);
}

#[test]
fn minimal_file_decodes() {
    let rdm = RDModell::new(minimal_file()).unwrap();
    assert_eq!(rdm.mesh_info.len(), 1);
    assert_eq!(rdm.triangle_indices.len(), 1);
    assert!(rdm.joints.is_none());
    assert!(rdm.anim.is_none());
    assert!(rdm.mat.is_none());
    assert_eq!(rdm.triangle_indices[0].indices, [0, 1, 2]);
    assert_eq!(rdm.triangles_idx_count, 3);
    assert_eq!(rdm.vertex.len(), 3);
    assert_eq!(rdm.vertex.get_size(), 8);
    assert_eq!(rdm.file.len(), 162);
}

#[test]
fn submeshes_are_sorted_by_id() {
    let v = file_with_submeshes(&[(6, 3, 2), (0, 3, 0), (3, 3, 1)]);
    let rdm = RDModell::new(v).unwrap();
    let ids: Vec<u32> = rdm.mesh_info.iter().map(|m| m.mesh).collect();
    assert_eq!(ids, vec![0, 1, 2]);
    let starts: Vec<u32> = rdm.mesh_info.iter().map(|m| m.start_index_location).collect();
    assert_eq!(starts, vec![0, 3, 6]);
    let sum: u32 = rdm.mesh_info.iter().map(|m| m.index_count).sum();
    assert_eq!(sum, 9);
}

#[test]
fn equal_ids_are_kept_in_file_order() {
    let v = file_with_submeshes(&[(6, 3, 1), (0, 3, 0), (3, 3, 1)]);
    let rdm = RDModell::new(v).unwrap();
    let got: Vec<(u32, u32)> =
        rdm.mesh_info.iter().map(|m| (m.mesh, m.start_index_location)).collect();
    assert_eq!(got, vec![(0, 0), (1, 6), (1, 3)]);
}

#[test]
fn sort_keeps_the_order_of_equal_ids() {
    let m = |s: u32, id: u32| MeshInstance { start_index_location: s, index_count: 1, mesh: id };
    let sorted = sort_by_mesh(vec![m(10, 5), m(11, 1), m(12, 5), m(13, 0), m(14, 1)]);
    let got: Vec<(u32, u32)> = sorted.iter().map(|x| (x.mesh, x.start_index_location)).collect();
    assert_eq!(got, vec![(0, 13), (1, 11), (1, 14), (5, 10), (5, 12)]);
    assert!(sort_by_mesh(vec![]).is_empty());
}

#[test]
fn submeshes_compare_by_id() {
    let a = MeshInstance { start_index_location: 1, index_count: 2, mesh: 3 };
    let b = MeshInstance { start_index_location: 9, index_count: 8, mesh: 3 };
    let c = MeshInstance { start_index_location: 1, index_count: 2, mesh: 4 };
    assert!(a == b);
    assert!(a != c);
    assert!(a < c);
    assert!(c > b);
    assert_eq!(a.partial_cmp(&b), Some(std::cmp::Ordering::Equal));
}

#[test]
fn empty_submesh_table_is_refused() {
    assert_eq!(malformed(RDModell::new(file_with_submeshes(&[]))), Malformed::NoSubmesh);
}

#[test]
fn wrong_strides_are_refused() {
    let mut v = minimal_file();
    put_u32(&mut v, 84, 27);
    assert_eq!(malformed(RDModell::new(v)), Malformed::SubmeshStride);

    let mut v = minimal_file();
    put_u32(&mut v, 152, 4);
    assert_eq!(malformed(RDModell::new(v)), Malformed::IndexStride);
}

#[test]
fn index_count_has_to_be_a_multiple_of_three() {
    let mut v = minimal_file();
    put_u32(&mut v, 148, 2);
    assert_eq!(malformed(RDModell::new(v)), Malformed::IndexCount);
}

#[test]
fn truncated_files_are_refused() {
    let mut v = minimal_file();
    v.truncate(161);
    assert_eq!(malformed(RDModell::new(v)), Malformed::Truncated);

    let mut v = minimal_file();
    v.truncate(20);
    assert_eq!(malformed(RDModell::new(v)), Malformed::Truncated);

    let mut v = minimal_file();
    put_u32(&mut v, 148, 6);
    assert_eq!(malformed(RDModell::new(v)), Malformed::Truncated);

    let mut v = minimal_file();
    put_u32(&mut v, 32, 1000);
    assert_eq!(malformed(RDModell::new(v)), Malformed::Truncated);
}

#[test]
fn backward_pointers_are_refused() {
    let mut v = minimal_file();
    put_u32(&mut v, 32, 40);
    assert_eq!(malformed(RDModell::new(v)), Malformed::InvalidOffset);

    let mut v = minimal_file();
    put_u32(&mut v, 52 + 20, 4);
    assert_eq!(malformed(RDModell::new(v)), Malformed::InvalidOffset);

    let mut v = minimal_file();
    put_u32(&mut v, 52 + 16, 60);
    assert_eq!(malformed(RDModell::new(v)), Malformed::InvalidOffset);

    // A meta pointer so large that the place of the submesh pointer does
    // not fit in 32 bits.
    let c = ByteCursor::new(minimal_file());
    assert_eq!(malformed(RDModell::check_multi_mesh(c, 0xFFFF_FFF0)), Malformed::InvalidOffset);
}

#[test]
fn submesh_table_is_read_with_a_cursor_of_its_own() {
    let mut c = ByteCursor::new(file_with_submeshes(&[(6, 3, 1), (0, 6, 0)]));
    c.skip(60).unwrap();
    let table = RDModell::check_multi_mesh(c, 52).unwrap();
    assert_eq!(table.len(), 2);
    assert_eq!(table[0].index_count, 6);
    assert_eq!(table[1].start_index_location, 6);

    // A cursor that is past the place of the pointer cannot go back.
    let mut c = ByteCursor::new(minimal_file());
    c.skip(73).unwrap();
    assert_eq!(malformed(RDModell::check_multi_mesh(c, 52)), Malformed::InvalidOffset);
}

#[test]
fn cursor_reads_little_endian() {
    let mut c = ByteCursor::new(vec![0x01, 0x02, 0x03, 0x04, 0x05, 0x06, 0x07, 0x08, 0x09]);
    assert_eq!(c.remaining(), 9);
    assert_eq!(c.read_u8(), Ok(0x01));
    assert_eq!(c.read_u16(), Ok(0x0302));
    assert_eq!(c.read_u32(), Ok(0x07060504));
    assert_eq!(c.position(), 7);
    assert_eq!(c.remaining(), 2);
    assert_eq!(c.read_u32(), Err(Malformed::Truncated));
    assert_eq!(c.position(), 7);
    assert_eq!(c.read_u16(), Ok(0x0908));
    assert_eq!(c.read_u8(), Err(Malformed::Truncated));
}

#[test]
fn cursor_reads_bit_patterns() {
    let mut bytes = Vec::new();
    bytes.extend_from_slice(&1.5f32.to_le_bytes());
    bytes.extend_from_slice(&(-0.25f32).to_le_bytes());
    let mut c = ByteCursor::new(bytes);
    assert_eq!(f32::from_bits(c.read_f32().unwrap()), 1.5);
    assert_eq!(f32::from_bits(c.read_f32().unwrap()), -0.25);
    assert_eq!(c.read_f32(), Err(Malformed::Truncated));
}

#[test]
fn cursor_seeks_forward_only() {
    let mut c = ByteCursor::new((0u8..20).collect());
    assert_eq!(c.seek_absolute(5), Ok(()));
    assert_eq!(c.read_u8(), Ok(5));
    assert_eq!(c.seek_absolute(6), Ok(()));
    assert_eq!(c.seek_absolute(5), Err(Malformed::InvalidOffset));
    assert_eq!(c.position(), 6);
    assert_eq!(c.seek_absolute(21), Err(Malformed::Truncated));
    assert_eq!(c.position(), 6);
    assert_eq!(c.seek_absolute(20), Ok(()));
    assert_eq!(c.remaining(), 0);
    assert_eq!(c.skip(1), Err(Malformed::Truncated));
    assert_eq!(c.skip(0), Ok(()));
}

#[test]
fn cursor_clones_move_independently() {
    let mut a = ByteCursor::new(vec![10, 20, 30, 40]);
    assert_eq!(a.read_u8(), Ok(10));
    let mut b = a.clone();
    assert_eq!(a.read_u8(), Ok(20));
    assert_eq!(a.read_u8(), Ok(30));
    assert_eq!(b.position(), 1);
    assert_eq!(b.read_u8(), Ok(20));
    assert_eq!(a.read_bytes(1), Ok(vec![40]));
    assert_eq!(b.read_bytes(3), Ok(vec![30, 40]).and(Err(Malformed::Truncated)));
    assert_eq!(b.read_bytes(2), Ok(vec![30, 40]));
}

#[test]
fn cursor_window_can_be_cut() {
    let mut c = ByteCursor::new((0u8..10).collect());
    c.skip(2).unwrap();
    c.truncate_to(3);
    assert_eq!(c.remaining(), 3);
    assert_eq!(c.position(), 2);
    c.truncate_to(100);
    assert_eq!(c.remaining(), 3);
    assert_eq!(c.read_u16(), Ok(0x0302));
    assert_eq!(c.read_u16(), Err(Malformed::Truncated));
    assert_eq!(c.read_u8(), Ok(4));
    assert_eq!(c.position(), 5);
}

#[test]
fn skeleton_is_read_on_request() {
    let v = file_with_joints(&[(b"root", 255), (b"arm", 0)]);
    let mut rdm = RDModell::new(v).unwrap();
    assert!(!rdm.has_skin());
    let records = rdm.read_skin().unwrap();
    assert_eq!(records.len(), 2);
    assert_eq!(records[0].name, "root");
    assert_eq!(records[1].name, "arm");
    assert_eq!(records[0].parent, 255);
    assert_eq!(records[1].parent, 0);
    assert_eq!(records[0].nameptr as usize, 164 + 12 + 168 + 8);
    assert_eq!(records[1].translation.map(f32::from_bits), [1.0, 2.0, 3.0]);
    // The rotation is stored with the opposite sign.
    assert_eq!(records[1].rotation.map(f32::from_bits), [-0.0, -0.0, -0.0, 1.0]);
    assert!(f32::from_bits(records[1].rotation[0]).is_sign_negative());

    let t = |x: f32| JointTransform {
        translation: [x.to_bits(), 0, 0],
        rotation: [0, 0, 0, 1.0f32.to_bits()],
    };
    assert_eq!(
        rdm.add_skin(&vec![t(1.0)]),
        Err(RdmError::MissingData(Missing::JointTransform))
    );
    assert!(!rdm.has_skin());
    rdm.add_skin(&vec![t(1.0), t(2.0)]).unwrap();
    assert!(rdm.has_skin());
    let joints = rdm.joints.as_ref().unwrap();
    assert_eq!(joints.len(), 2);
    assert_eq!(joints[1].name, "arm");
    assert_eq!(joints[1].parent, 0);
    assert_eq!(joints[1].transition, [2.0f32.to_bits(), 0, 0]);
    assert_eq!(joints[1].quaternion, [0, 0, 0, 1.0f32.to_bits()]);
}

#[test]
fn skeleton_without_joints_is_empty() {
    let mut v = file_with_joints(&[]);
    // Even without joints the name pointer of the first record is read.
    let at = v.len();
    v.extend_from_slice(&((at + 4 + 8) as u32).to_le_bytes());
    v.extend_from_slice(&[0u8; 8]);
    let mut rdm = RDModell::new(v).unwrap();
    assert_eq!(rdm.read_skin().unwrap().len(), 0);
    rdm.add_skin(&vec![]).unwrap();
    assert!(rdm.has_skin());
}

#[test]
fn malformed_skeletons_are_refused() {
    let good = file_with_joints(&[(b"root", 255), (b"arm", 0)]);
    let skin = 164;

    let mut v = good.clone();
    put_u32(&mut v, skin + 8, 80);
    assert_eq!(malformed(RDModell::new(v).unwrap().read_skin()), Malformed::JointStride);

    let mut v = good.clone();
    let names = skin + 12 + 168;
    put_u32(&mut v, names + 4, 2);
    assert_eq!(malformed(RDModell::new(v).unwrap().read_skin()), Malformed::NameTag);

    let mut v = good.clone();
    v[names + 8] = 0xFF;
    assert_eq!(malformed(RDModell::new(v).unwrap().read_skin()), Malformed::NameEncoding);

    let mut v = good.clone();
    let n = v.len();
    v.truncate(n - 1);
    assert_eq!(malformed(RDModell::new(v).unwrap().read_skin()), Malformed::Truncated);

    let mut v = good.clone();
    put_u32(&mut v, skin + 12, 7);
    assert_eq!(malformed(RDModell::new(v).unwrap().read_skin()), Malformed::InvalidOffset);

    let mut v = good.clone();
    put_u32(&mut v, 40, 20);
    assert_eq!(malformed(RDModell::new(v).unwrap().read_skin()), Malformed::InvalidOffset);
}

#[test]
fn names_are_decoded_as_utf8() {
    let v = file_with_joints(&[("Hüfte".as_bytes(), 255), ("骨".as_bytes(), 0), (b"", 1)]);
    let records = RDModell::new(v).unwrap().read_skin().unwrap();
    assert_eq!(records[0].name, "Hüfte");
    assert_eq!(records[1].name, "骨");
    assert_eq!(records[2].name, "");
}

#[test]
fn vertex_layout_has_to_fit() {
    let mut rdm = RDModell::new(minimal_file()).unwrap();
    assert_eq!(rdm.vertex.set_layout(vec![]), Err(Malformed::VertexLayout));
    assert_eq!(
        rdm.vertex.set_layout(vec![UniqueIdentifier::N4b]),
        Err(Malformed::VertexLayout)
    );
    assert_eq!(
        rdm.vertex.set_layout(vec![UniqueIdentifier::P4h, UniqueIdentifier::N4b]),
        Err(Malformed::VertexLayout)
    );
    assert!(rdm.vertex.find(UniqueIdentifier::P4h).is_empty());
    assert_eq!(
        rdm.vertex.set_layout(vec![UniqueIdentifier::N4b, UniqueIdentifier::T2h]),
        Ok(())
    );
    assert_eq!(rdm.vertex.find(UniqueIdentifier::T2h), vec![4]);
    assert_eq!(rdm.vertex.find(UniqueIdentifier::N4b), vec![0]);
    assert!(rdm.vertex.find(UniqueIdentifier::P4h).is_empty());
}

#[test]
fn attributes_are_read_from_the_interleaved_block() {
    let mut rdm = RDModell::new(minimal_file()).unwrap();
    // The block holds the numbers 0x3C00, 0x3C01, .. as 16-bit words.
    rdm.vertex.set_layout(vec![UniqueIdentifier::I4b, UniqueIdentifier::W4b]).unwrap();
    let idx = rdm.vertex.iter::<I4b>(0).unwrap();
    let w = rdm.vertex.iter::<W4b>(0).unwrap();
    assert_eq!(idx.len(), 3);
    assert_eq!(idx[0].blend_idx, [0x00, 0x3C, 0x01, 0x3C]);
    assert_eq!(w[0].blend_weight, [0x02, 0x3C, 0x03, 0x3C]);
    assert_eq!(idx[2].blend_idx, [0x08, 0x3C, 0x09, 0x3C]);
    assert_eq!(w[2].blend_weight, [0x0A, 0x3C, 0x0B, 0x3C]);
    assert_eq!(w[2].sum(), 0x0A + 0x3C + 0x0B + 0x3C);

    rdm.vertex.set_layout(vec![UniqueIdentifier::T2h, UniqueIdentifier::T2h]).unwrap();
    let first = rdm.vertex.iter::<T2h>(0).unwrap();
    let second = rdm.vertex.iter::<T2h>(1).unwrap();
    assert_eq!(first[1].tex, [0x3C04, 0x3C05]);
    assert_eq!(second[1].tex, [0x3C06, 0x3C07]);
    assert!(rdm.vertex.iter::<T2h>(2).is_none());
    assert_eq!(rdm.vertex.find(UniqueIdentifier::T2h), vec![0, 4]);

    let defaults = rdm.vertex.w4b_default_iter();
    assert_eq!(defaults.len(), 3);
    assert_eq!(defaults[1].blend_weight, [255, 0, 0, 0]);
}
