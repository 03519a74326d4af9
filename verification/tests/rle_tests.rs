use gol_multi::rle::{compress_grid_rle_arg, uncompress_grid_rle};
use gol_multi::ProtocolError;

#[test]
fn test_rle() {
    let data = [0, 0, 0, 1, 1, 0, 0];
    let rle_data = [1, 3, 0, 1, 2, 1, 1, 2, 0];

    let result = compress_grid_rle_arg(&data);

    assert_eq!(result, rle_data);
}

#[test]
fn test_rle_two_bytes() {
    let mut data: Vec<u8> = vec![0; 259];
    data[257] = 1;
    let rle_data = [2, (257 >> 8) as u8, (257 & 0xFF) as u8, 0, 1, 1, 1, 1, 1, 0];

    let result = compress_grid_rle_arg(&data);

    assert_eq!(result, rle_data);
}

#[test]
fn rle_empty_input() {
    let data: [u8; 0] = [];
    let result = compress_grid_rle_arg(&data);
    assert_eq!(result, Vec::<u8>::new());
    assert_eq!(uncompress_grid_rle(&result), Ok(Vec::new()));
}

#[test]
fn rle_round_trip_small() {
    let data = [5, 5, 5, 7, 7, 0, 9, 9, 9, 9];
    let encoded = compress_grid_rle_arg(&data);
    let decoded = uncompress_grid_rle(&encoded).unwrap();
    assert_eq!(decoded, data.to_vec());
}

#[test]
fn rle_round_trip_single_byte() {
    let data = [42];
    let encoded = compress_grid_rle_arg(&data);
    assert_eq!(encoded, vec![1, 1, 42]);
    assert_eq!(uncompress_grid_rle(&encoded).unwrap(), data.to_vec());
}

#[test]
fn rle_long_run_chained() {
    // a run longer than one run's count field can carry is chained,
    // not dropped
    let mut data = vec![7u8; 65536];
    data.push(3);
    let encoded = compress_grid_rle_arg(&data);
    assert_eq!(encoded, vec![2, 255, 255, 7, 1, 1, 7, 1, 1, 3]);
    assert_eq!(uncompress_grid_rle(&encoded).unwrap(), data);
}

#[test]
fn rle_decode_invalid_width() {
    assert_eq!(uncompress_grid_rle(&[3, 1, 0]), Err(ProtocolError::InvalidRunWidth));
    assert_eq!(uncompress_grid_rle(&[0, 1, 0]), Err(ProtocolError::InvalidRunWidth));
}

#[test]
fn rle_decode_truncated() {
    assert_eq!(uncompress_grid_rle(&[1, 5]), Err(ProtocolError::TruncatedRun));
    assert_eq!(uncompress_grid_rle(&[2, 1, 4]), Err(ProtocolError::TruncatedRun));
    assert_eq!(uncompress_grid_rle(&[1, 2, 9, 1]), Err(ProtocolError::TruncatedRun));
}

#[test]
fn rle_decode_two_byte_count() {
    let decoded = uncompress_grid_rle(&[2, 1, 1, 0, 1, 1, 1, 1, 1, 0]).unwrap();
    assert_eq!(decoded.len(), 259);
    assert_eq!(decoded[256], 0);
    assert_eq!(decoded[257], 1);
    assert_eq!(decoded[258], 0);
}

#[test]
fn rle_decode_count_zero_adds_nothing() {
    assert_eq!(uncompress_grid_rle(&[1, 0, 7, 1, 2, 5]), Ok(vec![5, 5]));
}
