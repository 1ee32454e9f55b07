use rand::Rng;
use serial_com_rust::binarycom::versioned::BinaryCom;
use serial_com_rust::circbuf::{CircBuf16, CircBuf64, CircBufExt, RingBuffer};
use serial_com_rust::cobs::COBSExt;
use serial_com_rust::crc::CRCExt;
use serial_com_rust::error::SerialComError;

/// The stuffed frame of `message` followed by its checksum, built step by
/// step in a ring with room to spare.
fn encode_with_crc(message: &[u8]) -> Vec<u8> {
    let mut q = CircBuf64::new();
    q.extend_back(message);
    let (crc_h, crc_l) = q.compute_crc_bytes(&q.len()).expect("Couldn't compute CRC");
    q.push_back(crc_h);
    q.push_back(crc_l);
    q.cobs_encode().expect("Couldn't encode correct vec");
    q.drain_to_vec()
}

#[test]
fn binarycom_test_send() {
    let mut buf = CircBuf16::new();
    let ver: u8 = 0x3A;
    let com: u8 = 0x8F;
    let data: [u8; 10] = [0, 1, 3, 4, 5, 6, 7, 8, 9, 10];
    buf.send_message(&ver, &com, &data).expect("Couldn't send_message");
    let correctvec: Vec<u8> =
        [3, 0x3A, 0x8F, 12, 1, 3, 4, 5, 6, 7, 8, 9, 10, 151, 197, 0].to_vec();
    let mut outvec: Vec<u8> = Vec::new();
    for _ in 0..buf.len() {
        outvec.push(buf.pop_front().expect("Element not found"));
    }
    assert_eq!(outvec, correctvec);
}

#[test]
fn binarycom_test_send_rand() {
    let mut buf = CircBuf16::new();
    let mut rng = rand::thread_rng();
    for _trial in 0..1000 {
        let ver: u8 = rand::random::<u8>();
        let com: u8 = rand::random::<u8>();
        let data_size: usize = rng.gen_range(0, 11);
        let mut data: Vec<u8> = Vec::new();
        data.resize(data_size, 0);
        rng.fill(&mut data[..]);
        buf.send_message(&ver, &com, &data).expect("Couldn't send_message");

        let mut correctvec: Vec<u8> = Vec::new();
        correctvec.push(ver);
        correctvec.push(com);
        correctvec.extend(data);
        let correctvec = encode_with_crc(&correctvec);
        let mut outvec: Vec<u8> = Vec::new();
        for _ in 0..buf.len() {
            outvec.push(buf.pop_front().expect("Element not found"));
        }
        assert_eq!(outvec, correctvec);
    }
}

#[test]
fn binarycom_test_receive() {
    let mut buf = CircBuf16::new();
    buf.push_back(3);
    buf.push_back(0);
    buf.push_back(0xFF);
    buf.push_back(0xFF);
    buf.push_back(0xFF);
    buf.push_back(0xFF);
    buf.push_back(0xFF);
    let (crc_h, crc_l) = buf.compute_crc_bytes(&buf.len()).expect("Couldn't compute CRC");
    buf.push_back(crc_h);
    buf.push_back(crc_l);
    buf.cobs_encode().expect("Couldn't encode buf");
    let mut ver: u8 = 3;
    let mut com: u8 = 3;
    let mut data: [u8; 12] = [0, 0, 0, 0, 0, 0, 0, 0, 0, 0, 0, 0];
    let n_data = buf
        .receive_message(&mut ver, &mut com, &mut data)
        .expect("Couldn't receive_message");
    assert_eq!(n_data, 5);
    assert_eq!(ver, 3);
    assert_eq!(com, 0);
    for i in 0..5 {
        assert_eq!(data[i], 0xFF);
    }
}

#[test]
fn binarycom_test_receive_rand() {
    let mut buf = CircBuf16::new();
    let mut rng = rand::thread_rng();
    for _trial in 0..1000 {
        let message_size: usize = rng.gen_range(2, 13);
        let mut message: Vec<u8> = Vec::new();
        message.resize(message_size, 0);
        rng.fill(&mut message[..]);
        let corr_ver = message[0];
        let corr_com = message[1];
        let corr_data: Vec<u8> = message[2..].to_vec();
        let message = encode_with_crc(&message);
        for el in message.iter() {
            buf.push_back(*el);
        }
        let mut ver: u8 = 3;
        let mut com: u8 = 3;
        let mut data: [u8; 10] = [0, 0, 0, 0, 0, 0, 0, 0, 0, 0];
        let n_data = buf
            .receive_message(&mut ver, &mut com, &mut data)
            .expect("Couldn't receive message");
        assert_eq!(n_data, message_size - 2);
        assert_eq!(n_data, corr_data.len());
        assert_eq!(ver, corr_ver);
        assert_eq!(com, corr_com);
        for i in 0..n_data {
            assert_eq!(data[i], corr_data[i]);
        }
        buf.clear();
    }
}

#[test]
fn versioned_capacity_boundary() {
    let mut buf = CircBuf16::new();
    assert!(buf.send_message(&1, &2, &[9u8; 10]).is_ok());
    assert!(matches!(buf.send_message(&1, &2, &[9u8; 11]), Err(SerialComError::SliceTooBig)));
    let mut buf = CircBuf64::new();
    assert_eq!(buf.send_message(&1, &2, &[0u8; 58]).unwrap(), 64);
    assert!(matches!(buf.send_message(&1, &2, &[0u8; 59]), Err(SerialComError::SliceTooBig)));
}

#[test]
fn versioned_frame_without_payload_room_is_dropped() {
    let mut buf = CircBuf16::new();
    buf.extend_back(&[1, 1, 1, 0]);
    let mut ver = 0u8;
    let mut com = 0u8;
    let mut data = [0u8; 10];
    assert!(matches!(
        buf.receive_message(&mut ver, &mut com, &mut data),
        Err(SerialComError::COBSTooLittleData)
    ));
    assert_eq!(buf.len(), 0);
}

#[test]
fn versioned_checksum_mismatch() {
    let mut buf = CircBuf16::new();
    buf.send_message(&7, &8, &[1, 2, 3]).unwrap();
    let mut wire = buf.drain_to_vec();
    wire[4] ^= 0x10;
    buf.extend_back(&wire);
    let mut ver = 0u8;
    let mut com = 0u8;
    let mut data = [0u8; 10];
    assert!(matches!(
        buf.receive_message(&mut ver, &mut com, &mut data),
        Err(SerialComError::CRCMismatch)
    ));
    assert_eq!((ver, com), (0, 0));
}
