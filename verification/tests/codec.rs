use spz_sandpile::codec::{decode_neighbors, decode_u64_list, encode_neighbors, encode_u64_list, CodecError};

#[test]
fn test_vv_usize() {
    let table: Vec<Vec<usize>> = vec![vec![0, 1, 2], vec![3, 4], vec![5]];
    let bytes = encode_neighbors(&table).unwrap();
    let loaded = decode_neighbors(&bytes).unwrap();
    assert_eq!(table, loaded);
}

#[test]
fn test_v_u64() {
    let values: Vec<u64> = vec![0, u64::MAX, 12345678];
    let bytes = encode_u64_list(&values).unwrap();
    let loaded = decode_u64_list(&bytes).unwrap();
    assert_eq!(values, loaded);
}

#[test]
fn u64_list_layout_is_little_endian_with_length() {
    let bytes = encode_u64_list(&vec![1, 0x0102]).unwrap();
    assert_eq!(
        bytes,
        vec![2, 0, 0, 0, 0, 0, 0, 0, 1, 0, 0, 0, 0, 0, 0, 0, 2, 1, 0, 0, 0, 0, 0, 0]
    );
}

#[test]
fn neighbors_layout() {
    let bytes = encode_neighbors(&vec![vec![7], vec![]]).unwrap();
    assert_eq!(
        bytes,
        vec![2, 0, 0, 0, 0, 0, 0, 0, 1, 0, 0, 0, 0, 0, 0, 0, 7, 0, 0, 0, 0, 0, 0, 0, 0, 0, 0, 0, 0, 0, 0, 0]
    );
}

#[test]
fn trailing_bytes_are_ignored() {
    let mut bytes = encode_u64_list(&vec![9, 8]).unwrap();
    bytes.extend_from_slice(&[0xff, 0xee]);
    assert_eq!(decode_u64_list(&bytes), Ok(vec![9, 8]));
}

#[test]
fn truncated_input_is_rejected() {
    let bytes = encode_neighbors(&vec![vec![1, 2], vec![0]]).unwrap();
    assert_eq!(decode_neighbors(&bytes[..bytes.len() - 1]), Err(CodecError::Decode));
    assert_eq!(decode_u64_list(&[1, 0, 0]), Err(CodecError::Decode));
    assert_eq!(decode_u64_list(&[]), Err(CodecError::Decode));
}

#[test]
fn empty_tables_round_trip() {
    let empty: Vec<Vec<usize>> = Vec::new();
    assert_eq!(decode_neighbors(&encode_neighbors(&empty).unwrap()), Ok(empty));
    assert_eq!(decode_u64_list(&encode_u64_list(&Vec::new()).unwrap()), Ok(Vec::new()));
}
