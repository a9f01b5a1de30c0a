use wireless_hart::conversation::Action;
use wireless_hart::conversation::Conversation;
use wireless_hart::conversation::Event;
use wireless_hart::dlpdu::Dlpdu;
use wireless_hart::dlpdu::Kind;
use wireless_hart::dlpdu::GATEWAY;
use wireless_hart::gateway::Sequence;
use wireless_hart::gateway::Timeout;
use wireless_hart::Command;
use wireless_hart::Direction;
use wireless_hart::LoopbackRadio;
use wireless_hart::Npdu;
use wireless_hart::WirelessHartError;
use wireless_hart::WirelessHartTransport;

const WAIT: Timeout = Timeout {
    secs: 0,
    nanos: 10_000_000,
};

/// The first request of a fresh gateway, asking command 131, and its frame.
fn begun() -> (Conversation, Action, Vec<u8>) {
    let gateway = WirelessHartTransport::new(0x1234, 1).timing_out_after(WAIT);
    let (exchange, frame) = gateway
        .request(&mut Sequence::new(), 131, &[0; 4])
        .expect("frame");
    assert_eq!(exchange.direction(), Direction::Up);
    let (conversation, action) = gateway.converse(exchange, frame.clone());
    (conversation, action, frame)
}

fn listening() -> Conversation {
    let (mut conversation, _, _) = begun();
    assert_listens(&conversation.next(Event::Sent));
    conversation
}

fn assert_listens(action: &Action) {
    match action {
        Action::Receive { timeout } => assert_eq!(*timeout, WAIT),
        other => panic!("{other:?}"),
    }
}

fn reply(sequence: u8, number: u16) -> Vec<u8> {
    let answer = Command {
        number,
        data: vec![0, 0, 0x40, 9],
    };
    let mut packet = Npdu::new(GATEWAY, 1, vec![answer])
        .expect("packet")
        .in_slot(5, sequence);
    packet.response = true;
    Dlpdu::new(Kind::Data, sequence, 0x1234, GATEWAY, 1, &packet.encode())
        .expect("dlpdu")
        .encode()
}

#[test]
fn a_request_goes_out_first_and_up() {
    let (mut conversation, action, asked) = begun();
    match action {
        Action::Transmit { direction, frame } => {
            assert_eq!(direction, Direction::Up);
            assert_eq!(frame, asked);
        }
        other => panic!("{other:?}"),
    }
    assert_listens(&conversation.next(Event::Sent));
}

#[test]
fn what_the_radio_refuses_is_never_listened_for() {
    let (mut conversation, _, _) = begun();
    assert!(matches!(conversation.next(Event::Fault), Action::GiveUp));
    for _ in 0..3 {
        assert!(matches!(conversation.next(Event::Sent), Action::GiveUp));
    }
    assert!(matches!(
        conversation.next(Event::Received(Some(reply(0, 131)))),
        Action::GiveUp
    ));
}

#[test]
fn an_answer_is_listened_for_past_anothers() {
    let mut conversation = listening();
    for late in [29, 30, 31] {
        assert_listens(&conversation.next(Event::Received(Some(reply(late, 131)))));
    }
    match conversation.next(Event::Received(Some(reply(0, 131)))) {
        Action::Take(answer) => assert_eq!(answer, [0, 0, 0x40, 9]),
        other => panic!("{other:?}"),
    }
    assert!(matches!(
        conversation.next(Event::Received(Some(reply(0, 131)))),
        Action::GiveUp
    ));
}

#[test]
fn silence_and_what_is_no_answer_fail() {
    let cases = [
        (None, WirelessHartError::NoAnswer),
        (Some(vec![0; 3]), WirelessHartError::FrameCutOff),
        (Some(reply(0, 130)), WirelessHartError::OtherCommand),
    ];
    for (received, expected) in cases {
        let mut conversation = listening();
        match conversation.next(Event::Received(received)) {
            Action::Fail(error) => assert_eq!(error, expected),
            other => panic!("{other:?}"),
        }
        assert!(matches!(conversation.next(Event::Sent), Action::GiveUp));
    }
}

#[test]
fn a_radio_that_cannot_be_read_is_given_up_on() {
    let mut conversation = listening();
    assert!(matches!(conversation.next(Event::Fault), Action::GiveUp));
}

#[test]
fn each_request_takes_one_slot_up_and_counts_on() {
    let gateway = WirelessHartTransport::new(0x1234, 1);
    let mut sequence = Sequence::new();
    let mut radio = LoopbackRadio::new(1, 0x1234);
    for earlier in 0..300usize {
        let (exchange, frame) = gateway.request(&mut sequence, 131, &[]).expect("frame");
        let (mut conversation, mut action) = gateway.converse(exchange, frame);
        let (mut transmitted, mut received) = (0, 0);
        let answer = loop {
            let event = match action {
                Action::Transmit { direction, frame } => {
                    assert_eq!((direction, received), (Direction::Up, 0));
                    assert_eq!(usize::from(frame[2]), earlier % 256);
                    transmitted += 1;
                    let (_, heard) = radio.transmit(direction, &frame).expect("transmit");
                    let heard = heard.expect("for the device");
                    radio.answer(&heard, vec![vec![0, 0, 7]]).expect("answer");
                    Event::Sent
                }
                Action::Receive { .. } => {
                    received += 1;
                    Event::Received(radio.receive())
                }
                Action::Take(answer) => break answer,
                other => panic!("{other:?}"),
            };
            action = conversation.next(event);
        };
        assert_eq!(answer, [0, 0, 7]);
        assert_eq!((transmitted, received), (1, 1));
    }
    assert_eq!(radio.asn(), 600);
}
