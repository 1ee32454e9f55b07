use serial_com_rust::binarycom::client::{
    host_write_reg, read_reg_step, write_reg_step, RegisterBitWidth, WaitOutcome, WaitStep,
};
use serial_com_rust::binarycom::hostreceiver::{message_router, poll_frame, Routed};
use serial_com_rust::binarycom::packers::{
    classify, dev_read_reg32_pack, dev_read_reg8_pack, dev_read_reg_unpack, dev_write_reg32_unpack,
    dev_write_reg8_unpack, dev_write_reg_pack, host_read_reg_pack, host_read_reg_unpack,
    host_write_reg32_pack, host_write_reg8_pack, host_write_reg_unpack, unpack_stream,
    CommandClass,
};
use serial_com_rust::binarycom::BinaryCom;
use serial_com_rust::circbuf::{CircBuf16, CircBufExt, RingBuffer};
use serial_com_rust::error::SerialComError;

#[test]
fn packers_big_endian() {
    let mut d = [0xEEu8; 8];
    assert_eq!(host_read_reg_pack(0x1234, &mut d).unwrap(), 2);
    assert_eq!(d, [0x12, 0x34, 0xEE, 0xEE, 0xEE, 0xEE, 0xEE, 0xEE]);
    assert_eq!(dev_write_reg_pack(0xABCD, &mut d).unwrap(), 2);
    assert_eq!(&d[..2], &[0xAB, 0xCD]);
    assert_eq!(host_write_reg8_pack(0x0102, 0x99, &mut d).unwrap(), 3);
    assert_eq!(&d[..3], &[0x01, 0x02, 0x99]);
    assert_eq!(dev_read_reg8_pack(0x0203, 0x55, &mut d).unwrap(), 3);
    assert_eq!(&d[..3], &[0x02, 0x03, 0x55]);
    assert_eq!(host_write_reg32_pack(0x0A0B, 0xDEADBEEF, &mut d).unwrap(), 6);
    assert_eq!(&d[..6], &[0x0A, 0x0B, 0xDE, 0xAD, 0xBE, 0xEF]);
    assert_eq!(dev_read_reg32_pack(0x0001, 0x01020304, &mut d).unwrap(), 6);
    assert_eq!(&d[..6], &[0x00, 0x01, 0x01, 0x02, 0x03, 0x04]);
    assert_eq!(d[6], 0xEE);
}

#[test]
fn unpackers_big_endian() {
    assert_eq!(dev_read_reg_unpack(&[0x12, 0x34]).unwrap(), 0x1234);
    assert_eq!(host_write_reg_unpack(&[0, 42, 9]).unwrap(), 42);
    assert_eq!(dev_write_reg8_unpack(&[0x01, 0x00, 0x7F]).unwrap(), (0x0100, 0x7F));
    assert_eq!(
        dev_write_reg32_unpack(&[0xFF, 0xFE, 0xDE, 0xAD, 0xBE, 0xEF]).unwrap(),
        (0xFFFE, 0xDEADBEEF)
    );
    assert_eq!(host_read_reg_unpack(&[0, 42, 7]).unwrap(), (42, 7));
    assert_eq!(host_read_reg_unpack(&[0, 42, 0, 0, 1, 0]).unwrap(), (42, 256));
}

#[test]
fn packers_reject_small_slices() {
    let mut d = [1u8; 5];
    assert!(matches!(host_write_reg32_pack(1, 2, &mut d), Err(SerialComError::SliceTooSmall)));
    assert_eq!(d, [1u8; 5]);
    let mut d = [1u8; 2];
    assert!(matches!(dev_read_reg8_pack(1, 2, &mut d), Err(SerialComError::SliceTooSmall)));
    let mut d = [1u8; 1];
    assert!(matches!(dev_write_reg_pack(1, &mut d), Err(SerialComError::SliceTooSmall)));
    assert!(matches!(dev_read_reg_unpack(&[1]), Err(SerialComError::SliceTooSmall)));
    assert!(matches!(dev_write_reg8_unpack(&[1, 2]), Err(SerialComError::SliceTooSmall)));
    assert!(matches!(dev_write_reg32_unpack(&[1, 2, 3, 4, 5]), Err(SerialComError::SliceTooSmall)));
    assert!(matches!(host_read_reg_unpack(&[0, 1, 2, 3]), Err(SerialComError::SliceTooSmall)));
}

#[test]
fn command_classes() {
    assert_eq!(classify(0), CommandClass::Reserved);
    assert_eq!(classify(1), CommandClass::RegisterRead);
    assert_eq!(classify(2), CommandClass::RegisterWrite);
    assert_eq!(classify(0x7F), CommandClass::Reserved);
    assert_eq!(classify(0x8A), CommandClass::Stream { word_bits: 8, words_per_sample: 1 });
    assert_eq!(classify(0x85), CommandClass::Stream { word_bits: 20, words_per_sample: 0 });
}

#[test]
fn stream_samples_by_width() {
    assert_eq!(unpack_stream(0x8A, vec![0, 0, 0, 0]).unwrap(), vec![0, 0, 0, 0]);
    assert_eq!(unpack_stream(0x8A, vec![1, 255]).unwrap(), vec![1, 255]);
    assert_eq!(unpack_stream(0x89, vec![0xAB, 0x0C]).unwrap(), vec![0xA, 0xB, 0x0, 0xC]);
    assert_eq!(unpack_stream(0x8B, vec![0xAB, 0xCD, 0xEF]).unwrap(), vec![0xABC, 0xDEF]);
    assert_eq!(unpack_stream(0x8C, vec![0x01, 0x02, 0xFF, 0xFE]).unwrap(), vec![0x0102, 0xFFFE]);
    assert_eq!(unpack_stream(0x88 | 0x00, vec![]).map_err(|_| ()), Err(()));
    assert!(unpack_stream(0x88, vec![1, 2, 3, 4]).is_err());
}

#[test]
fn stream_32_bit_words() {
    let width_32: u8 = 0x80 | (1 << 3) | 0;
    assert!(matches!(
        unpack_stream(width_32, vec![1, 2, 3, 4]),
        Err(SerialComError::StreamFormatUnsupported)
    ));
    // 32 bits per word takes a word-size field of eight, which three bits cannot hold.
    assert!(matches!(
        unpack_stream(0x8E, vec![1, 2, 3, 4]),
        Err(SerialComError::StreamFormatUnsupported)
    ));
}

#[test]
fn stream_errors() {
    assert!(matches!(unpack_stream(0x8C, vec![1, 2, 3]), Err(SerialComError::StreamLengthMismatch)));
    assert!(matches!(unpack_stream(0x8B, vec![1, 2]), Err(SerialComError::StreamLengthMismatch)));
    assert!(matches!(unpack_stream(0x92, vec![1, 2]), Err(SerialComError::StreamFormatUnsupported)));
    assert!(matches!(unpack_stream(0x01, vec![1, 2]), Err(SerialComError::StreamFormatUnsupported)));
    assert!(matches!(unpack_stream(0x85, vec![0, 0, 0, 0]), Err(SerialComError::StreamFormatUnsupported)));
}

#[test]
fn routing_by_command() {
    assert_eq!(message_router(1, &[0, 42, 7]).unwrap(), Routed::RegisterRead(42, 7));
    assert_eq!(message_router(2, &[0, 42]).unwrap(), Routed::RegisterWrite(42));
    assert_eq!(message_router(0, &[1]).unwrap(), Routed::Unexpected(0));
    assert_eq!(message_router(0x33, &[]).unwrap(), Routed::Unexpected(0x33));
    assert!(matches!(message_router(1, &[0, 42]), Err(SerialComError::SliceTooSmall)));
    assert!(matches!(message_router(2, &[0]), Err(SerialComError::SliceTooSmall)));
}

#[test]
fn streaming_frame_goes_to_stream_queue() {
    let mut dev = CircBuf16::new();
    dev.send_message(&0x85, &[0, 0, 0, 0]).unwrap();
    let wire = dev.drain_to_vec();
    let mut inbuf = CircBuf16::new();
    inbuf.extend_back(&wire);
    let routed = poll_frame(&mut inbuf).unwrap().unwrap();
    assert_eq!(routed, Routed::Stream(0x85, vec![0, 0, 0, 0]));
    assert!(!matches!(routed, Routed::RegisterRead(..) | Routed::RegisterWrite(..)));
    assert!(poll_frame(&mut inbuf).is_none());
}

#[test]
fn poll_waits_for_whole_frame_and_skips_commas() {
    let mut dev = CircBuf16::new();
    dev.send_message(&2, &[0, 42]).unwrap();
    let wire = dev.drain_to_vec();
    let mut inbuf = CircBuf16::new();
    inbuf.extend_back(&[0, 0]);
    inbuf.extend_back(&wire[..4]);
    assert!(poll_frame(&mut inbuf).is_none());
    assert_eq!(inbuf.len(), 4);
    inbuf.extend_back(&wire[4..]);
    assert_eq!(poll_frame(&mut inbuf).unwrap().unwrap(), Routed::RegisterWrite(42));
    assert_eq!(inbuf.len(), 0);
}

#[test]
fn poll_reports_dropped_frame() {
    let mut dev = CircBuf16::new();
    dev.send_message(&2, &[0, 42]).unwrap();
    let mut wire = dev.drain_to_vec();
    wire[3] ^= 1;
    let mut inbuf = CircBuf16::new();
    inbuf.extend_back(&wire);
    assert!(matches!(poll_frame(&mut inbuf), Some(Err(SerialComError::CRCMismatch))));
    assert_eq!(inbuf.len(), 0);
}

#[test]
fn write_register_scenario() {
    // Host side: write 7 to register 42 on an 8-bit device.
    let mut outbuf = CircBuf16::new();
    host_write_reg(&mut outbuf, RegisterBitWidth::Eight, 42, 7).unwrap();
    let wire = outbuf.drain_to_vec();

    // Device side: the write command with payload {0, 42, 7}.
    let mut dev = CircBuf16::new();
    dev.extend_back(&wire);
    let mut com = 0u8;
    let mut data = [0u8; 11];
    let n = dev.receive_message(&mut com, &mut data).unwrap();
    assert_eq!((com, &data[..n]), (2, &[0u8, 42, 7][..]));
    let (reg, val) = dev_write_reg8_unpack(&data[..n]).unwrap();
    assert_eq!((reg, val), (42, 7));
    let mut ack = [0u8; 2];
    let len = dev_write_reg_pack(reg, &mut ack).unwrap() as usize;
    dev.send_message(&2, &ack[..len]).unwrap();
    let reply = dev.drain_to_vec();

    // Host side: the receiver routes the acknowledgement, the call returns.
    let mut inbuf = CircBuf16::new();
    inbuf.extend_back(&reply);
    let routed = poll_frame(&mut inbuf).unwrap().unwrap();
    assert_eq!(routed, Routed::RegisterWrite(42));
    assert_eq!(write_reg_step(42, WaitOutcome::Received(42)), WaitStep::Return(Ok(())));
}

#[test]
fn read_register_scenario() {
    let mut outbuf = CircBuf16::new();
    outbuf.host_read_reg(42).unwrap();
    let wire = outbuf.drain_to_vec();

    let mut dev = CircBuf16::new();
    dev.extend_back(&wire);
    let mut com = 0u8;
    let mut data = [0u8; 11];
    let n = dev.receive_message(&mut com, &mut data).unwrap();
    assert_eq!((com, &data[..n]), (1, &[0u8, 42][..]));
    let reg = dev_read_reg_unpack(&data[..n]).unwrap();
    let mut resp = [0u8; 3];
    let len = dev_read_reg8_pack(reg, 7, &mut resp).unwrap() as usize;
    assert_eq!(&resp[..len], &[0, 42, 7]);
    dev.send_message(&1, &resp[..len]).unwrap();
    let reply = dev.drain_to_vec();

    let mut inbuf = CircBuf16::new();
    inbuf.extend_back(&reply);
    let routed = poll_frame(&mut inbuf).unwrap().unwrap();
    assert_eq!(routed, Routed::RegisterRead(42, 7));
    match routed {
        Routed::RegisterRead(n, v) => {
            assert_eq!(read_reg_step(42, WaitOutcome::Received((n, v))), WaitStep::Return(Ok(7)));
        }
        _ => unreachable!(),
    }
}

#[test]
fn wait_steps() {
    assert_eq!(write_reg_step(42, WaitOutcome::Received(41)), WaitStep::WaitAgain);
    assert!(matches!(
        write_reg_step(42, WaitOutcome::TimedOut),
        WaitStep::Return(Err(SerialComError::Timeout))
    ));
    assert!(matches!(
        write_reg_step(42, WaitOutcome::Disconnected),
        WaitStep::Return(Err(SerialComError::ChannelClosed))
    ));
    assert_eq!(read_reg_step(42, WaitOutcome::Received((41, 3))), WaitStep::WaitAgain);
    assert!(matches!(
        read_reg_step(42, WaitOutcome::TimedOut),
        WaitStep::Return(Err(SerialComError::Timeout))
    ));
    assert!(matches!(
        read_reg_step(1, WaitOutcome::Disconnected),
        WaitStep::Return(Err(SerialComError::ChannelClosed))
    ));
}

#[test]
fn eight_bit_register_rejects_wide_value() {
    let mut outbuf = CircBuf16::new();
    outbuf.push_back(5);
    let r = host_write_reg(&mut outbuf, RegisterBitWidth::Eight, 1, 256);
    assert!(matches!(r, Err(SerialComError::TryFromInt(_))));
    assert_eq!(outbuf.len(), 1);
    host_write_reg(&mut outbuf, RegisterBitWidth::ThirtyTwo, 1, 256).unwrap();
    assert_eq!(outbuf.len(), 11);
}
