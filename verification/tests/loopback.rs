use wireless_hart::dlpdu::Dlpdu;
use wireless_hart::dlpdu::Kind;
use wireless_hart::dlpdu::GATEWAY;
use wireless_hart::gateway::Arrived;
use wireless_hart::gateway::Sequence;
use wireless_hart::gateway::StreamRead;
use wireless_hart::gateway::StreamSoFar;
use wireless_hart::gateway::Timeout;
use wireless_hart::Command;
use wireless_hart::Direction;
use wireless_hart::LoopbackRadio;
use wireless_hart::Npdu;
use wireless_hart::WirelessHartError;
use wireless_hart::WirelessHartTransport;
use wireless_hart::MAX_CHUNK;

const IDENTIFY: u16 = 0;
const READ_PRIMARY_VARIABLE: u16 = 1;
const WRITE_STREAM: u16 = 130;
const READ_STREAM: u16 = 131;

const FIRST: u8 = 0x80;
const LAST: u8 = 0x40;

/// A device that says who it is, holds a variable, and holds a Stream.
struct FieldDevice {
    identity: Vec<u8>,
    stream: Vec<u8>,
}

impl FieldDevice {
    fn new() -> Self {
        FieldDevice {
            identity: vec![254, 0x26, 0xe5, 0x0a, 0x1b, 0x2c],
            stream: Vec::new(),
        }
    }

    /// Two status bytes, and what the command answers with.
    fn answer(&mut self, number: u16, data: &[u8]) -> Vec<u8> {
        let mut out = vec![0, 0];
        match number {
            IDENTIFY => out.extend_from_slice(&self.identity),
            READ_PRIMARY_VARIABLE => out.extend_from_slice(&[6, 0x41, 0xa0, 0, 0]),
            WRITE_STREAM => {
                if data[0] & FIRST != 0 {
                    self.stream.clear();
                }
                self.stream.extend_from_slice(&data[1..]);
            }
            READ_STREAM => {
                let index = u32::from_be_bytes([data[0], data[1], data[2], data[3]]) as usize;
                let start = (index * MAX_CHUNK).min(self.stream.len());
                let end = (start + MAX_CHUNK).min(self.stream.len());
                out.push(if end == self.stream.len() { LAST } else { 0 });
                out.extend_from_slice(&self.stream[start..end]);
            }
            _ => out[0] = 64,
        }
        out
    }
}

fn write_requests(bytes: &[u8]) -> Vec<Vec<u8>> {
    let mut chunks: Vec<&[u8]> = bytes.chunks(MAX_CHUNK).collect();
    if chunks.is_empty() {
        chunks.push(&[]);
    }
    let count = chunks.len();
    chunks
        .iter()
        .enumerate()
        .map(|(at, chunk)| {
            let first = if at == 0 { FIRST } else { 0 };
            let last = if at + 1 == count { LAST } else { 0 };
            let mut request = vec![first | last];
            request.extend_from_slice(chunk);
            request
        })
        .collect()
}

/// A gateway, its count, and one device on the air between them.
struct Air {
    gateway: WirelessHartTransport,
    sequence: Sequence,
    radio: LoopbackRadio,
    device: FieldDevice,
}

impl Air {
    fn new() -> Self {
        Air {
            gateway: WirelessHartTransport::new(0x1234, 0x0001),
            sequence: Sequence::new(),
            radio: LoopbackRadio::new(0x0001, 0x1234),
            device: FieldDevice::new(),
        }
    }

    fn transmit(&mut self, frame: &[u8]) -> Result<u64, WirelessHartError> {
        let (asn, heard) = self.radio.transmit(Direction::Up, frame)?;
        if let Some(heard) = heard {
            let device = &mut self.device;
            let answers: Vec<Vec<u8>> = heard
                .packet
                .commands
                .iter()
                .map(|command| device.answer(command.number, &command.data))
                .collect();
            self.radio.answer(&heard, answers)?;
        }
        Ok(asn)
    }

    fn request(&mut self, command: u16, data: &[u8]) -> Result<Vec<u8>, WirelessHartError> {
        let (exchange, frame) = self.gateway.request(&mut self.sequence, command, data)?;
        self.transmit(&frame)?;
        loop {
            let received = self.radio.receive();
            if let Some(answer) = exchange.hear(received.as_deref())? {
                assert_eq!(&answer[..2], &[0, 0], "status");
                return Ok(answer[2..].to_vec());
            }
        }
    }

    fn write_stream(&mut self, bytes: &[u8]) -> Result<(), WirelessHartError> {
        let requests = write_requests(bytes);
        let mut sent = 0;
        while let Some((exchange, frame)) =
            self.gateway
                .write_stream(&mut self.sequence, WRITE_STREAM, &requests, sent)?
        {
            self.transmit(&frame)?;
            while exchange.hear(self.radio.receive().as_deref())?.is_none() {}
            sent += 1;
        }
        assert_eq!(sent, requests.len());
        Ok(())
    }

    fn read_stream(&mut self) -> Result<Arrived, WirelessHartError> {
        let mut so_far = StreamSoFar::new();
        loop {
            let answer = self.request(READ_STREAM, &so_far.index().to_be_bytes())?;
            let last = answer[0] & LAST != 0;
            match self.gateway.read_stream(
                self.radio.name(),
                READ_STREAM,
                so_far,
                last,
                &answer[1..],
            )? {
                StreamRead::Whole(arrived) => return Ok(arrived),
                StreamRead::Unfinished(more) => so_far = more,
            }
        }
    }

    fn round(&mut self, payload: &[u8]) -> Result<Arrived, WirelessHartError> {
        self.write_stream(payload)?;
        self.read_stream()
    }
}

#[test]
fn a_loopback_round_writes_a_stream_over_the_air_and_reads_it_back() {
    let mut loopback = Air::new();
    let arrived = loopback.round(b"totaliser log").expect("round");
    assert_eq!(arrived.bytes, b"totaliser log");
    assert_eq!(arrived.origin_uri, "whart://loopback/0001?command=131");
    let long = vec![7; 1000];
    assert_eq!(loopback.round(&long).expect("chunks").bytes, long);
}

#[test]
fn the_loopback_returns_the_edges_whole() {
    let mut loopback = Air::new();
    let mut payloads: Vec<Vec<u8>> = vec![
        Vec::new(),
        vec![0],
        vec![0xff],
        (0..=255u8).collect(),
        vec![0; MAX_CHUNK - 1],
        vec![1; MAX_CHUNK],
        vec![2; MAX_CHUNK + 1],
        vec![3; 2 * MAX_CHUNK],
    ];
    payloads.push(
        (0..65_537u32)
            .map(|n| u8::try_from(n * 31 % 256).unwrap_or(0))
            .collect(),
    );
    for bytes in payloads {
        let arrived = loopback.round(&bytes).expect("round");
        assert_eq!(arrived.bytes, bytes);
    }
}

#[test]
fn the_device_identifies_itself_and_publishes_in_its_slot() {
    let mut air = Air::new();
    let identity = air.request(IDENTIFY, &[]).expect("identify");
    assert_eq!(identity, air.device.identity);
    assert_eq!(air.radio.asn(), 2, "one slot up, one down");
    assert!(
        air.gateway
            .receive_one("loopback", air.radio.receive().as_deref())
            .expect("quiet")
            .is_none(),
        "nothing is not an error"
    );
    let answer = Command {
        number: READ_PRIMARY_VARIABLE,
        data: air.device.answer(READ_PRIMARY_VARIABLE, &[]),
    };
    air.radio.publish(answer).expect("publish");
    let arrived = air
        .gateway
        .receive_one("loopback", air.radio.receive().as_deref())
        .expect("published")
        .expect("one");
    assert_eq!(arrived.answer[2..], [6, 0x41, 0xa0, 0, 0], "20.0 psi");
    assert_eq!(arrived.origin_uri, "whart://loopback/0001?command=1&asn=3");
}

#[test]
fn a_device_that_is_not_addressed_does_not_answer() {
    let mut air = Air::new();
    air.gateway = air.gateway.timing_out_after(Timeout {
        secs: 0,
        nanos: 10_000_000,
    });
    let (other, count) = air.gateway.sender(Some("0002")).expect("a nickname");
    assert_eq!(other.timeout(), air.gateway.timeout());
    let mut elsewhere = Air::new();
    elsewhere.gateway = other;
    elsewhere.sequence = count;
    let error = elsewhere.write_stream(b"x").expect_err("silence");
    assert!(error.retryable(), "a device may be slow to answer");
    assert!(air.gateway.sender(Some("zz")).is_err(), "not a nickname");
    air.gateway = WirelessHartTransport::new(0x9999, 1);
    assert!(air.request(IDENTIFY, &[]).is_err(), "another network");
}

#[test]
fn a_fresh_air_is_quiet_and_at_its_first_slot() {
    let mut radio = LoopbackRadio::new(7, 8);
    assert_eq!(radio.asn(), 0);
    assert_eq!(radio.name(), "loopback");
    assert_eq!(radio.receive(), None);
}

#[test]
fn what_waits_is_received_in_order() {
    let mut radio = LoopbackRadio::new(7, 8);
    for value in 0..3u8 {
        let answer = Command {
            number: 1,
            data: vec![0, 0, value],
        };
        radio.publish(answer).expect("publish");
    }
    assert_eq!(radio.asn(), 6, "three down slots, from slot one on");
    let gateway = WirelessHartTransport::new(8, 7);
    for value in 0..3u8 {
        let published = gateway
            .receive_one("loopback", radio.receive().as_deref())
            .expect("packet")
            .expect("one");
        assert_eq!(published.answer, [0, 0, value]);
        let slot = 2 * u32::from(value) + 1;
        assert_eq!(
            published.origin_uri,
            format!("whart://loopback/0007?command=1&asn={slot}")
        );
    }
    assert_eq!(radio.receive(), None);
}

#[test]
fn an_answer_goes_down_as_a_response() {
    let mut radio = LoopbackRadio::new(7, 8);
    let gateway = WirelessHartTransport::new(8, 7);
    let mut sequence = Sequence::new();
    let (_, frame) = gateway.request(&mut sequence, 0x0300, &[5]).expect("frame");
    let (asn, heard) = radio.transmit(Direction::Up, &frame).expect("transmit");
    let heard = heard.expect("for the device");
    assert_eq!(asn, 0);
    assert_eq!(heard.packet.commands[0].number, 0x0300);
    assert_eq!(heard.packet.commands[0].data, [5]);
    radio.answer(&heard, vec![vec![0, 0, 9]]).expect("answer");
    let reply = Dlpdu::decode(&radio.receive().expect("reply")).expect("dlpdu");
    assert_eq!(
        (reply.kind, reply.network, reply.destination, reply.source),
        (Kind::Data, 8, GATEWAY, 7)
    );
    let packet = Npdu::decode(&reply.payload).expect("packet");
    assert!(packet.response);
    assert_eq!((packet.asn, packet.destination, packet.source), (1, GATEWAY, 7));
    assert_eq!(packet.commands[0].number, 0x0300);
    assert_eq!(packet.commands[0].data, [0, 0, 9]);
}

#[test]
fn an_answer_over_a_packet_is_refused_and_takes_no_slot() {
    let mut radio = LoopbackRadio::new(7, 8);
    let gateway = WirelessHartTransport::new(8, 7);
    let (_, frame) = gateway.request(&mut Sequence::new(), 1, &[]).expect("frame");
    let heard = radio.transmit(Direction::Up, &frame).expect("transmit").1;
    let heard = heard.expect("for the device");
    assert_eq!(
        radio.answer(&heard, vec![vec![0; 84]]).unwrap_err(),
        WirelessHartError::TooManyCommands
    );
    let long = Command {
        number: 1,
        data: vec![0; 84],
    };
    assert_eq!(radio.publish(long).unwrap_err(), WirelessHartError::TooManyCommands);
    assert_eq!(radio.asn(), 1);
    assert_eq!(radio.receive(), None);
    radio.answer(&heard, vec![vec![0; 83]]).expect("a full answer");
    assert_eq!(radio.asn(), 2);
}

#[test]
fn bytes_that_are_no_packet_spend_their_slot() {
    let mut radio = LoopbackRadio::new(7, 8);
    assert_eq!(
        radio.transmit(Direction::Up, &[1, 2, 3]).unwrap_err(),
        WirelessHartError::FrameCutOff
    );
    assert_eq!(radio.asn(), 1);
    let empty = Dlpdu::new(Kind::Data, 0, 8, 7, GATEWAY, &[]).expect("dlpdu");
    assert_eq!(
        radio.transmit(Direction::Up, &empty.encode()).unwrap_err(),
        WirelessHartError::PacketCutOff
    );
    assert_eq!(radio.asn(), 3);
    let ack = Dlpdu::new(Kind::Ack, 0, 8, 7, GATEWAY, &[]).expect("dlpdu");
    let (asn, heard) = radio.transmit(Direction::Down, &ack.encode()).expect("ack");
    assert_eq!(asn, 3);
    assert!(heard.is_none(), "an acknowledgement is not answered");
}

#[test]
fn a_round_under_two_counts_goes_through() {
    let mut air = Air::new();
    let long: Vec<u8> = (0..500u32).map(|n| (n % 250) as u8).collect();
    for turn in 0..40u64 {
        let (sender, count) = air.gateway.sender(Some("0001")).expect("a nickname");
        let gateway = std::mem::replace(&mut air.gateway, sender);
        let sequence = std::mem::replace(&mut air.sequence, count);
        air.write_stream(&long).expect("written under its own count");
        air.gateway = gateway;
        air.sequence = sequence;
        assert_eq!(air.radio.receive(), None, "quiet between the two");
        assert_eq!(air.read_stream().expect("read").bytes, long);
        assert_eq!(air.radio.receive(), None, "and quiet after");
        assert_eq!(air.radio.asn(), (turn + 1) * 28, "seven chunks each way");
    }
}

#[test]
fn an_answer_goes_in_the_very_next_slot() {
    let mut air = Air::new();
    for turn in 0..150u64 {
        let (_, frame) = air
            .gateway
            .request(&mut air.sequence, IDENTIFY, &[])
            .expect("frame");
        assert_eq!(air.transmit(&frame).expect("transmit"), 2 * turn);
        let reply = Dlpdu::decode(&air.radio.receive().expect("reply")).expect("dlpdu");
        let packet = Npdu::decode(&reply.payload).expect("packet");
        assert_eq!(u64::from(packet.asn), 2 * turn + 1);
    }
}

#[test]
fn many_exchanges_answer_as_the_device_does() {
    let mut air = Air::new();
    let mut alone = FieldDevice::new();
    for turn in 0..300u32 {
        let data = [FIRST | LAST, (turn % 251) as u8, 7];
        assert_eq!(
            air.request(WRITE_STREAM, &data).expect("write"),
            alone.answer(WRITE_STREAM, &data)[2..]
        );
        let index = 0u32.to_be_bytes();
        assert_eq!(
            air.request(READ_STREAM, &index).expect("read"),
            alone.answer(READ_STREAM, &index)[2..]
        );
    }
    assert_eq!(air.device.stream, alone.stream);
    assert_eq!(air.radio.asn(), 1200);
}

#[test]
fn every_round_brings_its_own_stream_back() {
    let mut air = Air::new();
    for turn in 0..60usize {
        let payload: Vec<u8> = (0..turn * 11).map(|n| (n * turn % 253) as u8).collect();
        let (sender, count) = air.gateway.sender(None).expect("the gateway's own");
        let gateway = std::mem::replace(&mut air.gateway, sender);
        let sequence = std::mem::replace(&mut air.sequence, count);
        air.write_stream(&payload).expect("written");
        air.gateway = gateway;
        air.sequence = sequence;
        assert_eq!(air.read_stream().expect("read").bytes, payload);
        assert_eq!(air.radio.receive(), None, "quiet again");
    }
}
