use serial_com_rust::circbuf::{CircBuf16, CircBuf64, CircBufExt, RingBuffer};
use serial_com_rust::crc::CRCExt;
use serial_com_rust::error::SerialComError;

fn contents<B: RingBuffer>(q: &B) -> Vec<u8> {
    let (a, b) = q.as_slices();
    [a, b].concat()
}

#[test]
fn overwrite_keeps_last_bytes() {
    let mut q = CircBuf16::new();
    let bytes: Vec<u8> = (1..=21).collect();
    q.extend_back(&bytes);
    assert_eq!(q.len(), 16);
    assert!(q.is_full());
    assert_eq!(contents(&q), (6..=21).collect::<Vec<u8>>());
    for x in 22..40u8 {
        q.push_back(x);
        assert_eq!(q.len(), 16);
    }
    assert_eq!(contents(&q), (24..40).collect::<Vec<u8>>());
}

#[test]
fn push_front_drops_back_when_full() {
    let mut q = CircBuf16::new();
    q.extend_back(&[7; 16]);
    q.push_front(1);
    assert_eq!(q.len(), 16);
    assert_eq!(q.get(0), Some(1));
    assert_eq!(q.pop_back(), Some(7));
    assert_eq!(q.pop_front(), Some(1));
    assert_eq!(q.get(14), None);
}

#[test]
fn seam_is_read_in_order() {
    let mut q = CircBuf16::new();
    q.extend_back(&[9; 12]);
    assert_eq!(q.remove_front_n(&10).unwrap(), 2);
    q.extend_back(&[1, 2, 3, 4, 5, 6, 7, 8]);
    assert_eq!(contents(&q), vec![9, 9, 1, 2, 3, 4, 5, 6, 7, 8]);
    q.set(0, 4);
    assert_eq!(q.drain_to_vec(), vec![4, 9, 1, 2, 3, 4, 5, 6, 7, 8]);
    assert_eq!(q.len(), 0);
}

#[test]
fn remove_front_n_too_many_fails() {
    let mut q = CircBuf64::new();
    q.extend_back(&[1, 2, 3]);
    assert!(matches!(q.remove_front_n(&4), Err(SerialComError::QueueIndexingError)));
    assert_eq!(q.len(), 3);
    assert_eq!(q.capacity(), 64);
}

#[test]
fn push_back_rand_adds_bytes() {
    let mut q = CircBuf64::new();
    q.push_back_rand(&10, &20);
    assert_eq!(q.len(), 10);
    q.push_back_rand(&100, &100);
    assert_eq!(contents(&q), vec![0; 64]);
}

#[test]
fn crc16_dnp_check_value() {
    let mut q = CircBuf16::new();
    q.extend_back(b"123456789");
    assert_eq!(q.compute_crc(&9).unwrap(), 0xEA82);
    assert_eq!(q.compute_crc_bytes(&9).unwrap(), (0xEA, 0x82));
    assert!(matches!(q.compute_crc(&10), Err(SerialComError::QueueIndexingError)));
}

#[test]
fn crc_across_the_seam() {
    let mut q = CircBuf16::new();
    q.extend_back(&[0; 13]);
    q.remove_front_n(&13).unwrap();
    q.extend_back(b"123456789");
    assert_eq!(q.compute_crc(&9).unwrap(), 0xEA82);
    let mut p = CircBuf16::new();
    p.extend_back(b"12345");
    assert_eq!(q.compute_crc(&5).unwrap(), p.compute_crc(&5).unwrap());
}
