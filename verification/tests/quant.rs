//! Tensors as they are stored.

use hipfire::float::F32;
use hipfire::quant::{
    concat_rows, decode_any, decode_exact, decode_f16, decode_f32, decode_hfq4, decode_norm,
    decode_plain, decode_q8, dequant_hfq4, dequant_to_f16_bytes, encode_f16, raw_dtype_of, DType,
    TensorError,
};

fn values(xs: &[F32]) -> Vec<f32> {
    xs.iter().map(|x| f32::from_bits(x.bits)).collect()
}

fn bytes_of(xs: &[f32]) -> Vec<u8> {
    xs.iter().flat_map(|x| x.to_le_bytes()).collect()
}

#[test]
fn plain_tensors_decode() {
    assert_eq!(values(&decode_f16(&[0x00, 0x3c, 0x00, 0xc0])), vec![1.0, -2.0]);
    assert_eq!(values(&decode_f32(&bytes_of(&[1.5, -0.25]))), vec![1.5, -0.25]);
    assert_eq!(values(&decode_plain(1, &[0x00, 0x3c]).unwrap()), vec![1.0]);
    assert_eq!(values(&decode_plain(2, &bytes_of(&[3.0])).unwrap()), vec![3.0]);
    assert!(matches!(decode_plain(6, &[]), Err(TensorError::QuantType(6))));
}

#[test]
fn sizes_are_checked() {
    let data = bytes_of(&[1.0, 2.0]);
    assert_eq!(values(&decode_exact(2, &data, 2).unwrap()), vec![1.0, 2.0]);
    assert!(matches!(
        decode_exact(2, &data, 3),
        Err(TensorError::Shape { expected: 3, got: 2 })
    ));
    assert!(matches!(decode_exact(9, &data, 2), Err(TensorError::QuantType(9))));
}

#[test]
fn norms_are_offsets_from_one() {
    assert_eq!(values(&decode_norm(2, &bytes_of(&[0.5, -1.0])).unwrap()), vec![1.5, 0.0]);
    assert!(decode_norm(7, &[]).is_err());
}

#[test]
fn four_bit_groups_decode() {
    // Scale 0.5, zero point -1, then nibbles, low first.
    let mut block = bytes_of(&[0.5, -1.0]);
    let mut nibbles = vec![0u8; 128];
    nibbles[0] = 0x21;
    nibbles[127] = 0xf0;
    block.extend_from_slice(&nibbles);
    let v = values(&dequant_hfq4(&block, 256, 256));
    assert_eq!(v.len(), 256);
    assert_eq!(v[0], 1.0 * 0.5 + -1.0);
    assert_eq!(v[1], 2.0 * 0.5 + -1.0);
    assert_eq!(v[2], -1.0);
    assert_eq!(v[254], -1.0);
    assert_eq!(v[255], 15.0 * 0.5 + -1.0);
    assert_eq!(values(&decode_hfq4(&block, 256)), v);
    assert_eq!(values(&decode_any(6, &block, 256).unwrap()), v);
    let halves = dequant_to_f16_bytes(6, &block, 256, 256).unwrap();
    assert_eq!(values(&decode_f16(&halves)), v);
}

#[test]
fn eight_bit_blocks_decode() {
    let mut block = vec![0x00u8, 0x38];
    block.extend((0..32).map(|i| (i as i8 - 16) as u8));
    let v = values(&decode_q8(&block, 32));
    assert_eq!(v[0], -8.0);
    assert_eq!(v[16], 0.0);
    assert_eq!(v[31], 7.5);
}

#[test]
fn halves_are_written_low_byte_first() {
    let one = F32 { bits: 1.0f32.to_bits() };
    let two = F32 { bits: (-2.0f32).to_bits() };
    assert_eq!(encode_f16(&vec![one, two]), vec![0x00, 0x3c, 0x00, 0xc0]);
    assert_eq!(concat_rows(vec![1, 2], &vec![3]), vec![1, 2, 3]);
}

#[test]
fn storage_types_have_kernels() {
    assert_eq!(raw_dtype_of(3), Some(DType::Q8_0));
    assert_eq!(raw_dtype_of(6), Some(DType::HFQ4G256));
    assert_eq!(raw_dtype_of(7), Some(DType::HFQ4G128));
    assert_eq!(raw_dtype_of(13), Some(DType::MQ4G256));
    assert_eq!(raw_dtype_of(1), None);
    assert_eq!(raw_dtype_of(16), None);
    assert_eq!(raw_dtype_of(200), None);
}
