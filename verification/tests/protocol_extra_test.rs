use pealayer::four_d::protocol::{cobs_decode, cobs_encode, crc8, parse_frame, Command, ProtocolError};

#[test]
fn protocol_error_messages() {
    assert_eq!(ProtocolError::InvalidCobs.message(), "Invalid COBS framing");
    assert_eq!(ProtocolError::CrcMismatch.message(), "CRC-8 mismatch");
    assert_eq!(ProtocolError::PacketTooShort.message(), "Packet payload too short");
    assert_eq!(ProtocolError::UnknownOpcode(0x99).message(), "Unknown opcode: 0x99");
    assert_eq!(ProtocolError::UnknownOpcode(0x05).message(), "Unknown opcode: 0x05");
    assert_eq!(ProtocolError::UnknownOpcode(0xAB).message(), "Unknown opcode: 0xab");
}

#[test]
fn crc8_residue_is_zero() {
    for data in [vec![], vec![0x00], vec![0x01, 0x02, 0x03], b"123456789".to_vec()] {
        let mut with_crc = data.clone();
        with_crc.push(crc8(&data));
        assert_eq!(crc8(&with_crc), 0);
    }
    assert_eq!(crc8(&[]), 0);
}

#[test]
fn cobs_encoding_exact_bytes() {
    assert_eq!(cobs_encode(&[]), vec![0x01]);
    assert_eq!(cobs_encode(&[0x00]), vec![0x01, 0x01]);
    assert_eq!(cobs_encode(&[0x11, 0x22, 0x00, 0x33]), vec![0x03, 0x11, 0x22, 0x02, 0x33]);
    let run: Vec<u8> = vec![0x01; 254];
    let enc = cobs_encode(&run);
    assert_eq!(enc[0], 0xFF);
    assert_eq!(enc.len(), 256);
    assert_eq!(enc[255], 0x01);
    assert_eq!(cobs_decode(&enc).unwrap(), run);
}

#[test]
fn cobs_decode_rejects_zero_and_overrun() {
    assert_eq!(cobs_decode(&[0x00]), Err(ProtocolError::InvalidCobs));
    assert_eq!(cobs_decode(&[0x03, 0x01]), Err(ProtocolError::InvalidCobs));
    assert_eq!(cobs_decode(&[0x02, 0x05]), Ok(vec![0x05]));
}

#[test]
fn frame_layout_and_payloads() {
    assert_eq!(Command::Ping.to_payload(), vec![0x01]);
    assert_eq!(Command::RelaySet { id: 3, state: true }.to_payload(), vec![0x02, 0x03, 0x01]);
    assert_eq!(Command::PwmSet { channel: 2, value: 180 }.to_payload(), vec![0x03, 0x02, 180]);
    assert_eq!(Command::AllOff.to_payload(), vec![0x04]);
    let frame = Command::AllOff.to_frame();
    assert_eq!(*frame.last().unwrap(), 0x00);
    assert!(!frame[..frame.len() - 1].contains(&0x00));
    assert_eq!(parse_frame(&frame), Ok(Command::AllOff));
}

#[test]
fn parse_frame_reports_each_error() {
    // bad checksum
    let mut data = vec![0x01];
    data.push(crc8(&data) ^ 0x01);
    let mut frame = cobs_encode(&data);
    frame.push(0x00);
    assert_eq!(parse_frame(&frame), Err(ProtocolError::CrcMismatch));
    // PWM payload missing its value
    let mut data = vec![0x03, 0x01];
    data.push(crc8(&data));
    let frame = cobs_encode(&data);
    assert_eq!(parse_frame(&frame), Err(ProtocolError::PacketTooShort));
    // unknown opcode
    let mut data = vec![0x00];
    data.push(crc8(&data));
    let frame = cobs_encode(&data);
    assert_eq!(parse_frame(&frame), Err(ProtocolError::UnknownOpcode(0x00)));
}
