use wireless_hart::dlpdu::crc16;
use wireless_hart::dlpdu::Dlpdu;
use wireless_hart::dlpdu::Kind;
use wireless_hart::dlpdu::DLPDU_OVERHEAD;
use wireless_hart::dlpdu::GATEWAY;
use wireless_hart::dlpdu::MAC_OVERHEAD;
use wireless_hart::dlpdu::MAX_PAYLOAD;
use wireless_hart::dlpdu::MAX_PHY;
use wireless_hart::dlpdu::NETWORK_MANAGER;
use wireless_hart::WirelessHartError;

fn resealed(mut frame: Vec<u8>) -> Vec<u8> {
    frame.truncate(frame.len() - 2);
    let crc = crc16(&frame).to_le_bytes();
    frame.extend_from_slice(&crc);
    frame
}

#[test]
fn a_data_dlpdu_reads_back_with_its_check_sequence() {
    assert_eq!(crc16(b"123456789"), 0x2189, "CRC-16/KERMIT");
    let dlpdu = Dlpdu::new(Kind::Data, 5, 0x1234, GATEWAY, 0x0001, b"hello").expect("dlpdu");
    let bytes = dlpdu.encode();
    assert_eq!(bytes.len(), MAC_OVERHEAD + DLPDU_OVERHEAD + 5);
    assert_eq!(&bytes[..2], &[0x41, 0x88]);
    assert_eq!(&bytes[11..18], &[0x12, 0x34, 0xf9, 0x81, 0x00, 0x01, 0x07]);
    assert_eq!(&bytes[23..27], &[0; 4], "the MIC a keyed link fills");
    assert_eq!(Dlpdu::decode(&bytes).expect("decode"), dlpdu);
    let ack = Dlpdu::new(Kind::Ack, 5, 0x1234, 0x0001, GATEWAY, &[]).expect("ack");
    assert_eq!(Dlpdu::decode(&ack.encode()).expect("decode"), ack);
}

#[test]
fn what_is_not_a_dlpdu_is_refused() {
    let bytes = Dlpdu::new(Kind::Data, 1, 1, GATEWAY, 2, b"x")
        .expect("dlpdu")
        .encode();
    assert!(Dlpdu::decode(&bytes[..20]).is_err(), "cut off");
    assert!(Dlpdu::decode(&[0; MAX_PHY + 1]).is_err(), "too long");
    let mut bad = bytes.clone();
    bad[19] ^= 1;
    assert!(Dlpdu::decode(&bad).is_err(), "check sequence");
    let mut bad = bytes.clone();
    bad[0] = 0x40;
    assert!(Dlpdu::decode(&resealed(bad)).is_err(), "not data");
    let mut bad = bytes.clone();
    bad[9] = 0x88;
    assert!(Dlpdu::decode(&resealed(bad)).is_err(), "long addresses");
    let mut bad = bytes;
    bad[17] = 0x01;
    assert!(Dlpdu::decode(&resealed(bad)).is_err(), "an advertisement");
    assert!(Dlpdu::new(Kind::Data, 1, 1, 1, 1, &[0; MAX_PAYLOAD + 1]).is_err());
    assert!(Dlpdu::new(Kind::Data, 1, 1, 1, 1, &[0; MAX_PAYLOAD]).is_ok());
}

#[test]
fn each_refusal_of_a_frame_says_why() {
    let bytes = Dlpdu::new(Kind::Data, 1, 1, GATEWAY, 2, b"x")
        .expect("dlpdu")
        .encode();
    assert_eq!(Dlpdu::decode(&[0; 128]).unwrap_err(), WirelessHartError::FrameTooLong);
    assert_eq!(Dlpdu::decode(&bytes[..23]).unwrap_err(), WirelessHartError::FrameCutOff);
    assert_eq!(Dlpdu::decode(&bytes[..24]).unwrap_err(), WirelessHartError::CheckSequence);
    let with = |at: usize, value: u8| {
        let mut frame = bytes.clone();
        frame[at] = value;
        Dlpdu::decode(&resealed(frame)).unwrap_err()
    };
    assert_eq!(with(0, 0x40), WirelessHartError::NotDataFrame);
    assert_eq!(with(1, 0xcc), WirelessHartError::NotDataFrame);
    assert_eq!(with(9, 0x88), WirelessHartError::LongAddresses);
    assert_eq!(with(17, 0x09), WirelessHartError::UnknownSpecifier(1));
    assert_eq!(
        Dlpdu::new(Kind::Data, 1, 1, 1, 1, &[0; 104]).unwrap_err(),
        WirelessHartError::PayloadTooLong
    );
}

#[test]
fn a_specifier_is_its_low_three_bits() {
    let bytes = Dlpdu::new(Kind::Data, 1, 1, GATEWAY, 2, b"x")
        .expect("dlpdu")
        .encode();
    let mut high = bytes.clone();
    high[17] = 0x0f;
    assert_eq!(Dlpdu::decode(&resealed(high)).expect("data").kind, Kind::Data);
    let mut ack = bytes;
    ack[17] = 0x18;
    assert_eq!(Dlpdu::decode(&resealed(ack)).expect("ack").kind, Kind::Ack);
}

#[test]
fn a_frame_is_laid_out_byte_for_byte() {
    let bytes = Dlpdu::new(Kind::Ack, 9, 0xabcd, 0x0102, NETWORK_MANAGER, &[0x55])
        .expect("dlpdu")
        .encode();
    let body = [
        0x41, 0x88, 9, 0xcd, 0xab, 0x02, 0x01, 0x80, 0xf9, 0x00, 9, 0xab, 0xcd, 0x01, 0x02, 0xf9,
        0x80, 0x00, 0x55, 0, 0, 0, 0,
    ];
    assert_eq!(&bytes[..23], &body);
    assert_eq!(&bytes[23..], &crc16(&body).to_le_bytes());
}

#[test]
fn the_sizes_add_up_to_the_phy() {
    assert_eq!((MAX_PHY, MAC_OVERHEAD, DLPDU_OVERHEAD, MAX_PAYLOAD), (127, 11, 13, 103));
    let full = Dlpdu::new(Kind::Data, 0, 0, 0, 0, &[7; 103]).expect("full");
    assert_eq!(full.encode().len(), 127);
    assert_eq!(Dlpdu::decode(&full.encode()).expect("decode"), full);
    assert_eq!(full.clone(), full);
}

#[test]
fn any_one_byte_changed_is_refused() {
    let bytes = Dlpdu::new(Kind::Data, 3, 0x1234, GATEWAY, 0x0001, b"level")
        .expect("dlpdu")
        .encode();
    for at in 0..bytes.len() {
        for change in 1..=255u8 {
            let mut changed = bytes.clone();
            changed[at] ^= change;
            assert_eq!(
                Dlpdu::decode(&changed).unwrap_err(),
                WirelessHartError::CheckSequence
            );
        }
    }
}

#[test]
fn two_neighbouring_bytes_changed_are_refused() {
    let bytes = Dlpdu::new(Kind::Data, 3, 0x1234, GATEWAY, 0x0001, b"level")
        .expect("dlpdu")
        .encode();
    for at in 0..bytes.len() - 1 {
        for change in (1..=u16::MAX).step_by(37) {
            let mut changed = bytes.clone();
            changed[at] ^= (change >> 8) as u8;
            changed[at + 1] ^= (change & 0xff) as u8;
            assert_eq!(
                Dlpdu::decode(&changed).unwrap_err(),
                WirelessHartError::CheckSequence
            );
        }
    }
}

#[test]
fn the_check_sequence_of_known_messages() {
    assert_eq!(crc16(&[]), 0);
    assert_eq!(crc16(&[0]), 0);
    assert_eq!(crc16(&[1]), 0x1189);
    assert_eq!(crc16(b"A"), 0x538d);
}
