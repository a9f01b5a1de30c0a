use wireless_hart::dlpdu::Dlpdu;
use wireless_hart::dlpdu::Kind;
use wireless_hart::dlpdu::GATEWAY;
use wireless_hart::gateway::Exchange;
use wireless_hart::gateway::Sequence;
use wireless_hart::gateway::StreamRead;
use wireless_hart::gateway::StreamSoFar;
use wireless_hart::gateway::Timeout;
use wireless_hart::text::parse_hexadecimal;
use wireless_hart::Command;
use wireless_hart::Npdu;
use wireless_hart::WirelessHartError;
use wireless_hart::WirelessHartTransport;
use wireless_hart::MAX_CHUNK;

fn reply(sequence: u8, response: bool, commands: Vec<Command>) -> Vec<u8> {
    let mut packet = Npdu::new(GATEWAY, 1, commands)
        .expect("packet")
        .in_slot(0x0203, sequence);
    packet.response = response;
    Dlpdu::new(Kind::Data, sequence, 0x1234, GATEWAY, 0x00ab, &packet.encode())
        .expect("dlpdu")
        .encode()
}

fn command(number: u16, data: &[u8]) -> Command {
    Command {
        number,
        data: data.to_vec(),
    }
}

#[test]
fn a_request_goes_to_the_device_from_the_gateway() {
    let gateway = WirelessHartTransport::new(0x1234, 0x0001);
    let mut sequence = Sequence::new();
    let (exchange, frame) = gateway.request(&mut sequence, 130, &[1, 2]).expect("frame");
    assert_eq!((exchange.command, exchange.sequence), (130, 0));
    let dlpdu = Dlpdu::decode(&frame).expect("dlpdu");
    assert_eq!(
        (dlpdu.kind, dlpdu.sequence, dlpdu.network, dlpdu.destination, dlpdu.source),
        (Kind::Data, 0, 0x1234, 1, GATEWAY)
    );
    let packet = Npdu::decode(&dlpdu.payload).expect("packet");
    assert!(!packet.response);
    assert_eq!((packet.destination, packet.source, packet.asn), (1, GATEWAY, 0));
    assert_eq!(packet.commands, vec![command(130, &[1, 2])]);
}

#[test]
fn sequences_count_up_and_start_again() {
    let gateway = WirelessHartTransport::new(1, 2);
    let mut sequence = Sequence::new();
    for turn in 0..600usize {
        let (exchange, frame) = gateway.request(&mut sequence, 0, &[]).expect("frame");
        assert_eq!(usize::from(exchange.sequence), turn % 32);
        assert_eq!(usize::from(frame[2]), turn % 256);
    }
    assert_eq!(
        gateway.request(&mut sequence, 0, &[0; 84]).unwrap_err(),
        WirelessHartError::TooManyCommands
    );
    assert_eq!(sequence.next_sequence(), 89, "spent by what was refused too");
}

#[test]
fn an_exchange_takes_only_its_answer() {
    let exchange = Exchange {
        command: 131,
        sequence: 4,
    };
    assert_eq!(exchange.hear(None).unwrap_err(), WirelessHartError::NoAnswer);
    assert_eq!(
        exchange.hear(Some(&[0; 3])).unwrap_err(),
        WirelessHartError::FrameCutOff
    );
    let not_a_packet = Dlpdu::new(Kind::Data, 4, 0x1234, GATEWAY, 1, &[1; 17])
        .expect("dlpdu")
        .encode();
    assert_eq!(
        exchange.hear(Some(&not_a_packet)).unwrap_err(),
        WirelessHartError::UnknownControl
    );
    let answer = command(131, &[0, 0, 9]);
    let late = reply(3, true, vec![answer.clone()]);
    assert_eq!(exchange.hear(Some(&late)).expect("late"), None);
    let request = reply(4, false, vec![answer.clone()]);
    assert_eq!(exchange.hear(Some(&request)).expect("no response"), None);
    let other = reply(4, true, vec![command(130, &[0, 0])]);
    assert_eq!(
        exchange.hear(Some(&other)).unwrap_err(),
        WirelessHartError::OtherCommand
    );
    let mine = reply(
        4,
        true,
        vec![command(130, &[1]), answer, command(131, &[2])],
    );
    assert_eq!(exchange.hear(Some(&mine)).expect("mine"), Some(vec![0, 0, 9]));
}

#[test]
fn what_is_published_says_where_it_came_from() {
    let gateway = WirelessHartTransport::new(0x1234, 1);
    assert!(gateway.receive_one("mesh", None).expect("quiet").is_none());
    let frame = reply(0, true, vec![command(65535, &[0, 0, 5]), command(2, &[])]);
    let published = gateway
        .receive_one("mesh", Some(&frame))
        .expect("packet")
        .expect("one");
    assert_eq!(published.origin_uri, "whart://mesh/00ab?command=65535&asn=515");
    assert_eq!(published.answer, [0, 0, 5]);
    assert_eq!(
        gateway.receive_one("mesh", Some(&reply(0, true, Vec::new()))).unwrap_err(),
        WirelessHartError::NoCommand
    );
    assert_eq!(
        gateway.receive_one("mesh", Some(&[0; 130])).unwrap_err(),
        WirelessHartError::FrameTooLong
    );
    let cut = Dlpdu::new(Kind::Data, 0, 1, 1, 1, &[0; 18]).expect("dlpdu").encode();
    assert_eq!(
        gateway.receive_one("mesh", Some(&cut)).unwrap_err(),
        WirelessHartError::NumberCutOff
    );
}

#[test]
fn origins_name_the_radio_and_the_device() {
    let gateway = WirelessHartTransport::new(0x1234, 1);
    assert_eq!(gateway.origin("loopback", 1), "whart://loopback/0001");
    assert_eq!(gateway.origin("", 0xf981), "whart:///f981");
    assert_eq!(gateway.origin("r\u{e9}seau", 0xbeef), "whart://r\u{e9}seau/beef");
    for nickname in 0..=u16::MAX {
        let origin = gateway.origin("r", nickname);
        assert_eq!(origin, format!("whart://r/{nickname:04x}"));
        assert_eq!(parse_hexadecimal(&origin[origin.len() - 4..]), Some(nickname));
    }
}

#[test]
fn a_target_names_a_device_or_leaves_the_gateways() {
    let gateway = WirelessHartTransport::new(0x1234, 0x0abc);
    assert_eq!(gateway.nickname(), 0x0abc);
    assert_eq!(gateway.timeout(), Timeout { secs: 1, nanos: 0 });
    for (named, nickname) in [
        (None, 0x0abc),
        (Some(""), 0x0abc),
        (Some("0002"), 2),
        (Some("F981"), 0xf981),
    ] {
        let (sender, mut count) = gateway.sender(named).expect("a nickname");
        assert_eq!(sender.nickname(), nickname);
        assert_eq!(count.next_sequence(), 0);
    }
    assert_eq!(
        gateway.sender(Some("10000")).unwrap_err(),
        WirelessHartError::NotANickname
    );
}

#[test]
fn a_nickname_reads_as_the_standard_library_reads_it() {
    for text in [
        "", "+", "-", "-1", "+1", "++1", "0", "00000000001", "ffff", "FFFF", "10000", "fffff",
        "zz", "0x1", " 1", "1 ", "1_0", "aB09", "\u{661}", "1\u{e9}", "ffffffffffffffffffff",
        "+0ffff", "g", "`", "@", "/", ":", "G",
    ] {
        assert_eq!(parse_hexadecimal(text), u16::from_str_radix(text, 16).ok(), "{text:?}");
    }
}

#[test]
fn a_stream_is_its_chunks_one_after_another() {
    let gateway = WirelessHartTransport::new(0x1234, 0x00ff);
    let mut so_far = StreamSoFar::new();
    for index in 0..4u32 {
        assert_eq!(so_far.index(), index);
        let chunk = vec![index as u8; index as usize];
        match gateway.read_stream("mesh", 131, so_far, index == 3, &chunk).expect("chunk") {
            StreamRead::Unfinished(more) => so_far = more,
            StreamRead::Whole(arrived) => {
                assert_eq!(index, 3);
                assert_eq!(arrived.bytes, [1, 2, 2, 3, 3, 3]);
                assert_eq!(arrived.origin_uri, "whart://mesh/00ff?command=131");
                return;
            }
        }
    }
    panic!("the last chunk ends the Stream");
}

#[test]
fn a_stream_goes_out_a_request_at_a_time() {
    let gateway = WirelessHartTransport::new(0x1234, 1);
    let mut sequence = Sequence::new();
    let requests = vec![vec![0x80, 1], vec![0x40, 2], vec![0; 84]];
    for sent in 0..2usize {
        let (exchange, frame) = gateway
            .write_stream(&mut sequence, 130, &requests, sent)
            .expect("frame")
            .expect("one more");
        assert_eq!(usize::from(exchange.sequence), sent);
        let dlpdu = Dlpdu::decode(&frame).expect("dlpdu");
        let packet = Npdu::decode(&dlpdu.payload).expect("packet");
        assert_eq!(packet.commands, vec![command(130, &requests[sent])]);
    }
    assert_eq!(
        gateway.write_stream(&mut sequence, 130, &requests, 2).unwrap_err(),
        WirelessHartError::TooManyCommands
    );
    assert!(gateway
        .write_stream(&mut sequence, 130, &requests, 3)
        .expect("all sent")
        .is_none());
    assert_eq!(sequence.next_sequence(), 3, "nothing asked, nothing spent");
}

#[test]
fn a_chunk_goes_in_one_packet_both_ways() {
    assert_eq!(MAX_CHUNK, 80);
    let gateway = WirelessHartTransport::new(0x1234, 1);
    let mut sequence = Sequence::new();
    assert!(gateway.request(&mut sequence, 130, &[0; MAX_CHUNK + 1]).is_ok());
    assert!(Npdu::new(1, 2, vec![command(131, &[0; MAX_CHUNK + 3])]).is_ok());
    assert!(Npdu::new(1, 2, vec![command(131, &[0; MAX_CHUNK + 4])]).is_err());
}

#[test]
fn every_error_has_its_words() {
    for (error, words) in [
        (WirelessHartError::PayloadTooLong, "more than one DLPDU carries"),
        (WirelessHartError::FrameTooLong, "more than the PHY holds"),
        (WirelessHartError::FrameCutOff, "a DLPDU cut off inside its headers"),
        (WirelessHartError::CheckSequence, "a check sequence that does not check"),
        (WirelessHartError::NotDataFrame, "not a data frame with short addresses"),
        (WirelessHartError::LongAddresses, "long addresses this crate does not carry"),
        (WirelessHartError::UnknownSpecifier(3), "a DLPDU this crate does not carry: 3"),
        (WirelessHartError::UnknownSpecifier(255), "a DLPDU this crate does not carry: 255"),
        (WirelessHartError::TooManyCommands, "more commands than one packet carries"),
        (WirelessHartError::PacketCutOff, "a packet cut off inside its headers"),
        (WirelessHartError::UnknownControl, "a control byte this crate does not carry"),
        (WirelessHartError::NumberCutOff, "a command cut off inside its number"),
        (WirelessHartError::DataCutOff, "a command cut off before its byte count"),
        (WirelessHartError::NoAnswer, "the device did not answer"),
        (WirelessHartError::OtherCommand, "an answer to another command"),
        (WirelessHartError::NoCommand, "a packet with no command"),
        (WirelessHartError::Endless, "a Stream that never ends"),
        (WirelessHartError::NotANickname, "is not a nickname"),
    ] {
        assert_eq!(error.message(), words);
        assert_eq!(error.retryable(), error == WirelessHartError::NoAnswer);
    }
}
