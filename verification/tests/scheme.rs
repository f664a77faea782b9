//! Quantized ranges and block sizes.
use burn_quant::scheme::{BlockSize, QuantValue};

#[test]
fn quantized_ranges() {
    assert_eq!(QuantValue::Q8F.range(), (-128, 127));
    assert_eq!(QuantValue::Q4F.range(), (-8, 7));
    assert_eq!(QuantValue::Q2F.range(), (-2, 1));
    assert_eq!(QuantValue::Q8S.range(), (-127, 127));
    assert_eq!(QuantValue::Q4S.range(), (-7, 7));
    assert_eq!(QuantValue::Q2S.range(), (-1, 1));
    assert_eq!(QuantValue::E5M2.range(), (-57344, 57344));
    assert_eq!(QuantValue::E4M3.range(), (-448, 448));
    assert_eq!(QuantValue::E2M1.range(), (-6, 6));
}

#[test]
fn blocks_are_seen_from_the_innermost_dimension() {
    assert_eq!(BlockSize::new(&[4]).to_dim_vec(3), vec![1, 1, 4]);
    assert_eq!(BlockSize::new(&[2, 4]).to_dim_vec(2), vec![2, 4]);
    assert_eq!(BlockSize::new(&[2, 4]).to_dim_vec(4), vec![1, 1, 2, 4]);
    assert_eq!(BlockSize::new(&[1, 2, 3, 4, 5]).to_dim_vec(7), vec![1, 1, 1, 2, 3, 4, 5]);
    assert_eq!(BlockSize::new(&[]).to_dim_vec(2), vec![1, 1]);
}

#[test]
fn blocks_with_more_sides_than_dimensions() {
    assert_eq!(BlockSize::new(&[2, 3, 4]).to_dim_vec(2), vec![2, 3]);
    assert_eq!(BlockSize::new(&[2, 3, 4]).to_dim_vec(0), Vec::<u8>::new());
}

#[test]
fn sides_of_a_block() {
    assert_eq!(BlockSize::new(&[7, 0, 255]).as_slice(), &[7, 0, 255]);
    assert_eq!(BlockSize::new(&[]).as_slice(), &[] as &[u8]);
}
