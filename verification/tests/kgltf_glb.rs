use koi::kgltf::glb::{to_power_of_4, GLBError, GLB};
use koi::kgltf::schema::combine_option;

fn header(json_len: u32, json_type: u32) -> Vec<u8> {
    let mut b = Vec::new();
    b.extend_from_slice(&0x46546C67u32.to_le_bytes());
    b.extend_from_slice(&2u32.to_le_bytes());
    b.extend_from_slice(&0u32.to_le_bytes());
    b.extend_from_slice(&json_len.to_le_bytes());
    b.extend_from_slice(&json_type.to_le_bytes());
    b
}

#[test]
fn to_power_of_4_rounds_up() {
    assert_eq!(to_power_of_4(0), 0);
    assert_eq!(to_power_of_4(1), 4);
    assert_eq!(to_power_of_4(4), 4);
    assert_eq!(to_power_of_4(5), 8);
    assert_eq!(to_power_of_4(7), 8);
}

#[test]
fn to_bytes_lays_out_header_and_chunks() {
    let glb = GLB { gltf: "{}".to_string(), glb_version: 2, binary_data: Some(vec![1, 2, 3]) };
    let bytes = glb.to_bytes();
    assert_eq!(bytes.len(), 36);
    assert_eq!(&bytes[0..4], b"glTF");
    assert_eq!(&bytes[4..8], &2u32.to_le_bytes());
    assert_eq!(&bytes[8..12], &36u32.to_le_bytes());
    assert_eq!(&bytes[12..16], &4u32.to_le_bytes());
    assert_eq!(&bytes[16..20], b"JSON");
    assert_eq!(&bytes[20..24], b"{}  ");
    assert_eq!(&bytes[24..28], &4u32.to_le_bytes());
    assert_eq!(&bytes[28..32], b"BIN\0");
    assert_eq!(&bytes[32..36], &[1, 2, 3, 0]);
}

#[test]
fn round_trip_keeps_the_padding() {
    let glb = GLB { gltf: "{\"a\":1}".to_string(), glb_version: 7, binary_data: Some(vec![9; 5]) };
    let back = GLB::from_bytes(&glb.to_bytes()).unwrap();
    assert_eq!(back.gltf, "{\"a\":1} ");
    assert_eq!(back.glb_version, 7);
    assert_eq!(back.binary_data, Some(vec![9, 9, 9, 9, 9, 0, 0, 0]));

    let glb = GLB { gltf: " {}".to_string(), glb_version: 1, binary_data: None };
    let back = GLB::from_reader(&glb.to_bytes()).unwrap();
    assert_eq!(back.gltf, " {} ");
    assert_eq!(back.binary_data, None);
}

#[test]
fn to_writer_appends() {
    let glb = GLB { gltf: "{}".to_string(), glb_version: 2, binary_data: None };
    let mut out = vec![0xAA];
    glb.to_writer(&mut out);
    assert_eq!(out.len(), 1 + 24);
    assert_eq!(out[0], 0xAA);
}

#[test]
fn errors() {
    assert_eq!(GLB::from_bytes(&[1, 2]).err(), Some(GLBError::Io));
    assert_eq!(GLB::from_bytes(&[0; 20]).err(), Some(GLBError::IncorrectMagicNumber));
    let mut b = header(2, 0x4E4F534A);
    b.truncate(12);
    assert_eq!(GLB::from_bytes(&b).err(), Some(GLBError::Io));
    let b = header(2, 0x12345678);
    assert_eq!(GLB::from_bytes(&b).err(), Some(GLBError::IncorrectFormatting));
    let b = header(8, 0x4E4F534A);
    assert_eq!(GLB::from_bytes(&b).err(), Some(GLBError::Io));
    let mut b = header(2, 0x4E4F534A);
    b.extend_from_slice(&[0xFF, 0xFE]);
    assert_eq!(GLB::from_bytes(&b).err(), Some(GLBError::IncorrectFormatting));
    let mut b = header(2, 0x4E4F534A);
    b.extend_from_slice(b"[]");
    assert_eq!(GLB::from_bytes(&b).err(), Some(GLBError::InvalidJSON));
    let mut b = header(2, 0x4E4F534A);
    b.extend_from_slice(b"{}");
    b.extend_from_slice(&[4, 0, 0, 0]);
    assert_eq!(GLB::from_bytes(&b).err(), Some(GLBError::Io));
    b.extend_from_slice(b"BIN\0");
    assert_eq!(GLB::from_bytes(&b).err(), Some(GLBError::Io));
}

#[test]
fn json_that_is_no_whole_object_is_invalid() {
    let mut b = header(7, 0x4E4F534A);
    b.extend_from_slice(b"{\"a\": }");
    assert_eq!(GLB::from_bytes(&b).err(), Some(GLBError::InvalidJSON));
    let mut b = header(6, 0x4E4F534A);
    b.extend_from_slice(b"{\"a\": ");
    assert_eq!(GLB::from_bytes(&b).err(), Some(GLBError::InvalidJSON));
    let mut b = header(10, 0x4E4F534A);
    b.extend_from_slice(b"{\"a\": [1]}");
    assert_eq!(GLB::from_bytes(&b).unwrap().gltf, "{\"a\": [1]}");
}

#[test]
fn written_files_are_laid_out_in_words() {
    let glb = GLB { gltf: "{\"k\": 1}".to_string(), glb_version: 2, binary_data: Some(vec![5; 3]) };
    let v = glb.to_bytes();
    assert_eq!(v.len() % 4, 0);
    assert_eq!(&v[0..4], b"glTF");
    assert_eq!(u32::from_le_bytes([v[8], v[9], v[10], v[11]]) as usize, v.len());
}

#[test]
fn other_chunk_types_are_left_out() {
    let mut b = header(2, 0x4E4F534A);
    b.extend_from_slice(b"{}");
    b.extend_from_slice(&[4, 0, 0, 0]);
    b.extend_from_slice(b"XTRA");
    let glb = GLB::from_bytes(&b).unwrap();
    assert_eq!(glb.binary_data, None);
    assert_eq!(glb.glb_version, 2);
    assert_eq!(glb.gltf, "{}");
}

#[test]
fn combine_option_keeps_the_first_setting() {
    assert_eq!(combine_option(Some(1), Some(2)), Some(1));
    assert_eq!(combine_option(None, Some(2)), Some(2));
    assert_eq!(combine_option::<u8>(None, None), None);
}
