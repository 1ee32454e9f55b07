use serial_com_rust::cobs_redo::{cobs_decode, cobs_encode};

#[test]
fn test_cobs_encode() {
    let mut a1 = [0, 1, 2, 3, 4, 5];
    cobs_encode(&mut a1);
    assert_eq!(a1, [255, 1, 2, 3, 4, 5]);
    let mut a1 = [0, 1, 2, 3, 4, 5, 0];
    cobs_encode(&mut a1);
    assert_eq!(a1, [6, 1, 2, 3, 4, 5, 255]);
    let mut a1 = [0, 0];
    cobs_encode(&mut a1);
    assert_eq!(a1, [1, 255]);
    let mut a1 = [0, 0, 0];
    cobs_encode(&mut a1);
    assert_eq!(a1, [1, 1, 255]);
    let mut a1 = [0, 0, 1, 0];
    cobs_encode(&mut a1);
    assert_eq!(a1, [1, 2, 1, 255]);

    let mut v1 = (0..0xFE).collect::<Vec<u8>>();
    let mut v2 = v1.clone();
    v2[0] = 0xFF;
    cobs_encode(&mut v1);
    assert_eq!(v1, v2);
}

#[test]
fn test_cobs_decode() {
    let mut a1 = [255, 1, 2, 3, 4, 5];
    cobs_decode(&mut a1);
    assert_eq!(&a1[1..], (1u8..6).collect::<Vec<_>>());
    let mut a1 = [6, 1, 2, 3, 4, 5, 255];
    cobs_decode(&mut a1);
    assert_eq!(&a1[1..], &[1, 2, 3, 4, 5, 0]);
    let mut a1 = [1, 255];
    cobs_decode(&mut a1);
    assert_eq!(&a1[1..], &[0]);
    let mut a1 = [1, 1, 255];
    cobs_decode(&mut a1);
    assert_eq!(&a1[1..], &[0, 0]);
    let mut a1 = [1, 1, 1, 255];
    cobs_decode(&mut a1);
    assert_eq!(&a1[1..], &[0, 0, 0]);
    let mut a1 = [1, 2, 1, 255];
    cobs_decode(&mut a1);
    assert_eq!(&a1[1..], [0, 1, 0]);
}

#[test]
fn slice_encode_first_byte_counts_as_zero() {
    let mut a1 = [7, 1, 0, 2];
    cobs_encode(&mut a1);
    assert_eq!(a1, [2, 1, 255, 2]);
}

#[test]
fn slice_decode_undoes_encode() {
    let orig = [0u8, 4, 0, 0, 9, 1, 0];
    let mut a1 = orig;
    cobs_encode(&mut a1);
    cobs_decode(&mut a1);
    assert_eq!(&a1[1..], &orig[1..]);
}
