use wireless_hart::dlpdu;
use wireless_hart::npdu::Command;
use wireless_hart::npdu::Npdu;
use wireless_hart::npdu::MAX_COMMANDS;
use wireless_hart::npdu::MAX_COMMAND_DATA;
use wireless_hart::npdu::OVERHEAD;
use wireless_hart::WirelessHartError;

#[test]
fn a_packet_carries_its_commands_and_reads_back() {
    let packet = Npdu::new(
        dlpdu::GATEWAY,
        0x0001,
        vec![
            Command {
                number: 0,
                data: Vec::new(),
            },
            Command {
                number: 130,
                data: vec![0xc0, 1, 2, 3],
            },
        ],
    )
    .expect("packet")
    .in_slot(0x1234, 7);
    let bytes = packet.encode();
    assert_eq!(&bytes[..10], &[0, 0x20, 0x12, 0x34, 0, 0, 0xf9, 0x81, 0, 1]);
    assert_eq!(bytes[16], 0x87, "acknowledged, sequence seven");
    assert_eq!(&bytes[17..20], &[0, 0, 0]);
    assert_eq!(&bytes[20..23], &[0, 130, 4]);
    assert_eq!(Npdu::decode(&bytes).expect("decode"), packet);
    let answer = packet
        .answering(vec![Command {
            number: 130,
            data: vec![0, 0],
        }])
        .expect("answer");
    assert!(answer.response && answer.sequence == 7);
    assert_eq!((answer.destination, answer.source), (1, dlpdu::GATEWAY));
    assert_eq!(
        Npdu::decode(&answer.encode()).expect("decode").commands,
        answer.commands
    );
    assert!(bytes.len() <= dlpdu::MAX_PAYLOAD);
}

#[test]
fn what_is_not_a_packet_is_refused() {
    let bytes = Npdu::new(
        1,
        2,
        vec![Command {
            number: 1,
            data: vec![9],
        }],
    )
    .expect("packet")
    .encode();
    assert!(Npdu::decode(&bytes[..10]).is_err(), "cut off");
    assert!(Npdu::decode(&bytes[..19]).is_err(), "inside a number");
    assert!(Npdu::decode(&bytes[..20]).is_err(), "before the count");
    let mut bad = bytes;
    bad[0] = 0x80;
    assert!(Npdu::decode(&bad).is_err(), "a proxy route");
    let full = Command {
        number: 130,
        data: vec![0; MAX_COMMAND_DATA],
    };
    assert!(Npdu::new(1, 2, vec![full.clone()]).is_ok());
    let over = Command {
        number: 130,
        data: vec![0; MAX_COMMAND_DATA + 1],
    };
    assert!(Npdu::new(1, 2, vec![over]).is_err());
    assert!(
        Npdu::new(1, 2, vec![full.clone(), full]).is_err(),
        "two full"
    );
}

#[test]
fn each_refusal_of_a_packet_says_why() {
    let bytes = Npdu::new(
        1,
        2,
        vec![Command {
            number: 1,
            data: vec![9],
        }],
    )
    .expect("packet")
    .encode();
    assert_eq!(Npdu::decode(&bytes[..16]).unwrap_err(), WirelessHartError::PacketCutOff);
    assert_eq!(Npdu::decode(&bytes[..18]).unwrap_err(), WirelessHartError::NumberCutOff);
    assert_eq!(Npdu::decode(&bytes[..20]).unwrap_err(), WirelessHartError::DataCutOff);
    let mut bad = bytes.clone();
    bad[0] = 0x80;
    assert_eq!(Npdu::decode(&bad).unwrap_err(), WirelessHartError::UnknownControl);
    let mut bad = bytes;
    bad[10] = 0x01;
    assert_eq!(Npdu::decode(&bad).unwrap_err(), WirelessHartError::UnknownControl);
    let over = Command {
        number: 130,
        data: vec![0; 84],
    };
    assert_eq!(
        Npdu::new(1, 2, vec![over.clone()]).unwrap_err(),
        WirelessHartError::TooManyCommands
    );
    let asked = Npdu::new(1, 2, Vec::new()).expect("packet");
    assert_eq!(
        asked.answering(vec![over]).unwrap_err(),
        WirelessHartError::TooManyCommands
    );
}

#[test]
fn a_packet_with_no_command_is_its_headers() {
    let packet = Npdu::new(0x0102, 0x0304, Vec::new()).expect("packet");
    let bytes = packet.encode();
    assert_eq!(
        bytes,
        vec![0, 0x20, 0, 0, 0, 0, 1, 2, 3, 4, 0, 0, 0, 0, 0, 0, 0x80]
    );
    assert_eq!(Npdu::decode(&bytes).expect("decode"), packet);
}

#[test]
fn a_slot_stamps_five_bits_of_the_sequence() {
    let packet = Npdu::new(1, 2, Vec::new()).expect("packet").in_slot(0xffff, 0xe3);
    assert_eq!((packet.asn, packet.sequence), (0xffff, 3));
    let mut answer = packet.answering(Vec::new()).expect("answer");
    assert_eq!(answer.asn, 0);
    answer.graph = 0x0a0b;
    let bytes = answer.encode();
    assert_eq!(&bytes[4..6], &[0x0a, 0x0b]);
    assert_eq!((bytes[11], bytes[16]), (3, 0xc3));
    assert_eq!(Npdu::decode(&bytes).expect("decode"), answer);
    assert_eq!(answer.answering(Vec::new()).expect("back").graph, 0x0a0b);
}

#[test]
fn a_count_says_at_most_what_a_byte_holds() {
    let mut packet = Npdu::new(1, 2, Vec::new()).expect("packet");
    packet.commands = vec![Command {
        number: 2,
        data: vec![7; 255],
    }];
    assert_eq!(packet.encode()[19], 255);
    assert_eq!(Npdu::decode(&packet.encode()).expect("decode"), packet);
    packet.commands[0].data.push(7);
    assert_eq!(packet.encode()[19], 255, "the most a byte holds");
    assert_eq!(packet.encode().len(), 17 + 3 + 256);
    assert_ne!(Npdu::decode(&packet.encode()).ok(), Some(packet));
}

#[test]
fn commands_read_go_out_again() {
    let mut bytes = Npdu::new(1, 2, Vec::new()).expect("packet").encode();
    bytes.extend_from_slice(&[0, 1, 0, 0xff, 0xfe, 2, 8, 9, 0, 3, 1, 4]);
    let packet = Npdu::decode(&bytes).expect("decode");
    assert_eq!(packet.commands.len(), 3);
    assert_eq!(packet.commands[1].number, 0xfffe);
    assert_eq!(packet.commands[1].data, [8, 9]);
    assert_eq!(packet.encode(), bytes);
}

#[test]
fn a_full_packet_is_a_full_payload() {
    assert_eq!((OVERHEAD, MAX_COMMANDS, MAX_COMMAND_DATA), (17, 86, 83));
    let packet = Npdu::new(
        1,
        2,
        vec![
            Command {
                number: 1,
                data: vec![1; 40],
            },
            Command {
                number: 2,
                data: vec![2; 40],
            },
        ],
    )
    .expect("packet");
    assert_eq!(packet.encode().len(), dlpdu::MAX_PAYLOAD);
    assert_eq!(packet.clone(), packet);
}
