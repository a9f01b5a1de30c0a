//! What the gateway and the device on one air see of each other: a request
//! reaches the device it is for as it was asked, and the device's answer
//! reaches the gateway as it was given.
use vstd::prelude::*;

use crate::dlpdu::DlpduView;
use crate::error::WirelessHartError;
use crate::gateway::Exchange;
use crate::gateway::GatewayView;
use crate::gateway::PublishedView;
use crate::gateway::StreamSoFarView;
use crate::loopback::HeardView;
use crate::loopback::RadioView;
use crate::npdu::CommandView;
use crate::npdu::NpduView;
use crate::npdu::MAX_COMMANDS;
use crate::npdu::MAX_COMMAND_DATA;
use crate::tdma::Direction;

verus! {

/// A packet under a transport sequence that a DLPDU carries is read out of
/// that DLPDU's frame.
proof fn lemma_carried_packet_reads_back(dlpdu: DlpduView, packet: NpduView)
    requires
        dlpdu.payload == packet.bytes(),
        packet.sequence < 32,
        CommandView::total(packet.commands) <= MAX_COMMANDS,
    ensures
        DlpduView::read(dlpdu.frame()) == Ok::<DlpduView, WirelessHartError>(dlpdu),
        NpduView::read(dlpdu.payload) == Ok::<NpduView, WirelessHartError>(packet),
{
    crate::npdu::lemma_packet_length(packet);
    crate::npdu::lemma_carried_commands_are_counted(packet.commands);
    crate::npdu::lemma_packet_reads_back(packet);
    crate::dlpdu::lemma_frame_reads_back(dlpdu);
}

/// A packet for the device is heard as it is, however many commands it holds,
/// under the sequence of the DLPDU that carries it.
pub proof fn lemma_packet_is_heard_whole(radio: RadioView, dlpdu: DlpduView, packet: NpduView)
    requires
        dlpdu.kind == crate::dlpdu::Kind::Data,
        dlpdu.network == radio.network,
        dlpdu.destination == radio.nickname,
        dlpdu.payload == packet.bytes(),
        packet.sequence < 32,
        CommandView::total(packet.commands) <= MAX_COMMANDS,
    ensures
        radio.heard_in(dlpdu.frame()) == Ok::<Option<HeardView>, WirelessHartError>(
            Some(HeardView { packet, sequence: dlpdu.sequence }),
        ),
{
    lemma_carried_packet_reads_back(dlpdu, packet);
}

/// A DLPDU of another kind, on another network or to another nickname is not
/// for the device, whatever it carries.
pub proof fn lemma_packet_for_another_is_not_heard(radio: RadioView, dlpdu: DlpduView)
    requires
        dlpdu.fits(),
        dlpdu.kind != crate::dlpdu::Kind::Data || dlpdu.network != radio.network
            || dlpdu.destination != radio.nickname,
    ensures
        radio.heard_in(dlpdu.frame()) == Ok::<Option<HeardView>, WirelessHartError>(None),
{
    crate::dlpdu::lemma_frame_reads_back(dlpdu);
}

/// An exchange takes the answer out of any DLPDU that carries it: all the data
/// of the first command with its number, in a response under its sequence,
/// however many commands there are.
pub proof fn lemma_carried_answer_is_taken(
    exchange: Exchange,
    dlpdu: DlpduView,
    packet: NpduView,
    at: int,
)
    requires
        dlpdu.payload == packet.bytes(),
        packet.sequence < 32,
        CommandView::total(packet.commands) <= MAX_COMMANDS,
        packet.response,
        packet.sequence == exchange.sequence,
        0 <= at < packet.commands.len(),
        packet.commands[at].number == exchange.command,
        forall|i: int| 0 <= i < at ==> (#[trigger] packet.commands[i]).number != exchange.command,
    ensures
        exchange.outcome(Some(dlpdu.frame())) == Ok::<Option<Seq<u8>>, WirelessHartError>(
            Some(packet.commands[at].data),
        ),
{
    lemma_carried_packet_reads_back(dlpdu, packet);
    crate::gateway::lemma_what_an_exchange_takes(exchange, dlpdu.frame(), at);
}

/// A packet of several commands is answered whole: whichever of them an
/// exchange asks about, it takes the answer to the first with that number out
/// of what waits for the gateway.
pub proof fn lemma_each_command_has_its_answer(
    radio: RadioView,
    heard: HeardView,
    answers: Seq<Seq<u8>>,
    at: int,
)
    requires
        heard.packet.sequence < 32,
        answers.len() == heard.packet.commands.len(),
        CommandView::total(crate::loopback::paired(heard.packet.commands, answers))
            <= MAX_COMMANDS,
        0 <= at < answers.len(),
        forall|i: int|
            0 <= i < at ==> (#[trigger] heard.packet.commands[i]).number
                != heard.packet.commands[at].number,
    ensures
        ({
            let exchange = Exchange {
                command: heard.packet.commands[at].number,
                sequence: heard.packet.sequence,
            };
            let after = radio.with_queued(
                RadioView::answer_packet(heard, answers),
                heard.sequence,
            );
            exchange.outcome(Some(after.to_gateway.last())) == Ok::<
                Option<Seq<u8>>,
                WirelessHartError,
            >(Some(answers[at]))
        }),
{
    let exchange = Exchange {
        command: heard.packet.commands[at].number,
        sequence: heard.packet.sequence,
    };
    let packet = RadioView::answer_packet(heard, answers);
    let stamped = packet.in_slot(
        (radio.superframe.next(Direction::Down) % 0x1_0000) as u16,
        packet.sequence,
    );
    assert forall|i: int| 0 <= i < at implies (#[trigger] stamped.commands[i]).number
        != exchange.command by {
        assert(stamped.commands[i].number == heard.packet.commands[i].number);
    }
    lemma_carried_answer_is_taken(
        exchange,
        radio.down_dlpdu(packet, heard.sequence),
        stamped,
        at,
    );
}

/// What the gateway asks is read out of the frame it asks in.
proof fn lemma_request_reads_back(gateway: GatewayView, sequence: u8, command: u16, data: Seq<u8>)
    requires
        data.len() <= MAX_COMMAND_DATA,
    ensures
        ({
            let dlpdu = gateway.request_dlpdu(sequence, command, data);
            &&& DlpduView::read(dlpdu.frame()) == Ok::<DlpduView, WirelessHartError>(dlpdu)
            &&& NpduView::read(dlpdu.payload) == Ok::<NpduView, WirelessHartError>(
                gateway.request_packet(sequence, command, data),
            )
        }),
{
    crate::npdu::lemma_one_command_total(CommandView { number: command, data });
    lemma_carried_packet_reads_back(
        gateway.request_dlpdu(sequence, command, data),
        gateway.request_packet(sequence, command, data),
    );
}

/// The device a request is for hears it as it was asked: the one command,
/// with its data, under its sequence.
pub proof fn lemma_request_is_heard(
    gateway: GatewayView,
    radio: RadioView,
    sequence: u8,
    command: u16,
    data: Seq<u8>,
)
    requires
        gateway.network == radio.network,
        gateway.nickname == radio.nickname,
        data.len() <= MAX_COMMAND_DATA,
    ensures
        radio.heard_in(gateway.request_dlpdu(sequence, command, data).frame()) == Ok::<
            Option<HeardView>,
            WirelessHartError,
        >(
            Some(
                HeardView {
                    packet: gateway.request_packet(sequence, command, data),
                    sequence,
                },
            ),
        ),
{
    lemma_request_reads_back(gateway, sequence, command, data);
}

/// A device that is not addressed does not answer: one at another nickname,
/// or on another network, hears nothing for it.
pub proof fn lemma_unaddressed_hears_nothing(
    gateway: GatewayView,
    radio: RadioView,
    sequence: u8,
    command: u16,
    data: Seq<u8>,
)
    requires
        gateway.network != radio.network || gateway.nickname != radio.nickname,
        data.len() <= MAX_COMMAND_DATA,
    ensures
        radio.heard_in(gateway.request_dlpdu(sequence, command, data).frame()) == Ok::<
            Option<HeardView>,
            WirelessHartError,
        >(None),
{
    lemma_request_reads_back(gateway, sequence, command, data);
}

/// The packet a device answers one command in is a response under the sequence
/// asked in, with the one answer in it.
proof fn lemma_lone_answer(
    gateway: GatewayView,
    sequence: u8,
    command: u16,
    data: Seq<u8>,
    answer: Seq<u8>,
    asn: u16,
)
    requires
        answer.len() <= MAX_COMMAND_DATA,
    ensures
        ({
            let heard = HeardView {
                packet: gateway.request_packet(sequence, command, data),
                sequence,
            };
            let packet = RadioView::answer_packet(heard, seq![answer]);
            let stamped = packet.in_slot(asn, packet.sequence);
            &&& stamped.response
            &&& stamped.sequence == sequence % 32
            &&& stamped.commands == seq![CommandView { number: command, data: answer }]
            &&& CommandView::total(stamped.commands) <= MAX_COMMANDS
        }),
{
    let heard = HeardView { packet: gateway.request_packet(sequence, command, data), sequence };
    let one = CommandView { number: command, data: answer };
    assert(RadioView::answer_packet(heard, seq![answer]).commands =~= seq![one]);
    crate::npdu::lemma_one_command_total(one);
}

/// The packet a device answers one command in reads out of the frame it goes
/// to the gateway in.
#[verifier::spinoff_prover]
#[verifier::rlimit(40)]
proof fn lemma_answer_reads_back(
    gateway: GatewayView,
    radio: RadioView,
    sequence: u8,
    command: u16,
    data: Seq<u8>,
    answer: Seq<u8>,
)
    requires
        answer.len() <= MAX_COMMAND_DATA,
    ensures
        ({
            let heard = HeardView {
                packet: gateway.request_packet(sequence, command, data),
                sequence,
            };
            let packet = RadioView::answer_packet(heard, seq![answer]);
            let dlpdu = radio.down_dlpdu(packet, sequence);
            &&& DlpduView::read(dlpdu.frame()) == Ok::<DlpduView, WirelessHartError>(dlpdu)
            &&& NpduView::read(dlpdu.payload) is Ok
            &&& NpduView::read(dlpdu.payload)->Ok_0.response
            &&& NpduView::read(dlpdu.payload)->Ok_0.sequence == sequence % 32
            &&& NpduView::read(dlpdu.payload)->Ok_0.commands
                == seq![CommandView { number: command, data: answer }]
        }),
{
    let heard = HeardView { packet: gateway.request_packet(sequence, command, data), sequence };
    let packet = RadioView::answer_packet(heard, seq![answer]);
    let dlpdu = radio.down_dlpdu(packet, sequence);
    let asn = (radio.superframe.next(Direction::Down) % 0x1_0000) as u16;
    let stamped = packet.in_slot(asn, packet.sequence);
    lemma_lone_answer(gateway, sequence, command, data, answer, asn);
    assert(dlpdu.payload == stamped.bytes());
    lemma_carried_packet_reads_back(dlpdu, stamped);
}

/// One exchange over quiet air: the device hears the command and the data
/// that were asked, its answer is the one thing the gateway receives, the
/// gateway takes from it exactly the data the device answered with, and the
/// air is quiet again.
pub proof fn lemma_exchange_carries_the_answer(
    gateway: GatewayView,
    radio: RadioView,
    sequence: u8,
    command: u16,
    data: Seq<u8>,
    answer: Seq<u8>,
)
    requires
        gateway.network == radio.network,
        gateway.nickname == radio.nickname,
        data.len() <= MAX_COMMAND_DATA,
        answer.len() <= MAX_COMMAND_DATA,
        radio.to_gateway.len() == 0,
    ensures
        ({
            let frame = gateway.request_dlpdu(sequence, command, data).frame();
            let sent = radio.past(Direction::Up);
            let heard = HeardView {
                packet: gateway.request_packet(sequence, command, data),
                sequence,
            };
            let answered = sent.with_queued(
                RadioView::answer_packet(heard, seq![answer]),
                heard.sequence,
            );
            let exchange = Exchange { command, sequence: (sequence % 32) as u8 };
            &&& radio.heard_in(frame) == Ok::<Option<HeardView>, WirelessHartError>(Some(heard))
            &&& heard.packet.commands == seq![CommandView { number: command, data }]
            &&& answered.to_gateway.len() == 1
            &&& exchange.outcome(Some(answered.to_gateway[0])) == Ok::<
                Option<Seq<u8>>,
                WirelessHartError,
            >(Some(answer))
            &&& answered.to_gateway.drop_first() == radio.to_gateway
        }),
{
    lemma_request_is_heard(gateway, radio, sequence, command, data);
    let sent = radio.past(Direction::Up);
    let heard = HeardView { packet: gateway.request_packet(sequence, command, data), sequence };
    lemma_answer_reads_back(gateway, sent, sequence, command, data, answer);
    let answered = sent.with_queued(
        RadioView::answer_packet(heard, seq![answer]),
        heard.sequence,
    );
    assert(answered.to_gateway.drop_first() =~= radio.to_gateway);
}

/// What a device answers to `asked`, command by command, and the state it is
/// left in. A device is any function from its state and a command to its next
/// state and the data it answers with.
pub open spec fn answers_of<S>(
    device: spec_fn(S, CommandView) -> (S, Seq<u8>),
    state: S,
    asked: Seq<CommandView>,
) -> (S, Seq<Seq<u8>>)
    decreases asked.len(),
{
    if asked.len() == 0 {
        (state, seq![])
    } else {
        let (next, answer) = device(state, asked[0]);
        let (end, answers) = answers_of(device, next, asked.drop_first());
        (end, seq![answer] + answers)
    }
}

/// Whether each of some data goes in one packet, as one command's.
pub open spec fn each_goes_in_one_packet(data: Seq<Seq<u8>>) -> bool {
    forall|i: int| 0 <= i < data.len() ==> (#[trigger] data[i]).len() <= MAX_COMMAND_DATA
}

/// One request over the air with `device` on it: the request goes in an up
/// slot, the device answers what it hears in a down slot, and the gateway
/// takes the first thing it receives. The state the device is left in, the
/// air, and what the gateway makes of what it received.
#[verifier::opaque]
pub open spec fn exchange_over_the_air<S>(
    gateway: GatewayView,
    radio: RadioView,
    sequence: u8,
    device: spec_fn(S, CommandView) -> (S, Seq<u8>),
    state: S,
    asked: CommandView,
) -> (S, RadioView, Result<Option<Seq<u8>>, WirelessHartError>) {
    let frame = gateway.request_dlpdu(sequence, asked.number, asked.data).frame();
    let exchange = Exchange { command: asked.number, sequence: (sequence % 32) as u8 };
    let sent = radio.past(Direction::Up);
    let (next, answered) = match radio.heard_in(frame) {
        Ok(Some(heard)) => {
            let (next, answers) = answers_of(device, state, heard.packet.commands);
            (next, sent.with_queued(RadioView::answer_packet(heard, answers), heard.sequence))
        },
        _ => (state, sent),
    };
    if answered.to_gateway.len() > 0 {
        (
            next,
            RadioView { to_gateway: answered.to_gateway.drop_first(), ..answered },
            exchange.outcome(Some(answered.to_gateway[0])),
        )
    } else {
        (next, answered, exchange.outcome(None))
    }
}

/// What the gateway takes for the answers to `asked`, a request each, with
/// `device` on the air, and the state the device is left in.
pub open spec fn answers_over_the_air<S>(
    gateway: GatewayView,
    radio: RadioView,
    sequence: u8,
    device: spec_fn(S, CommandView) -> (S, Seq<u8>),
    state: S,
    asked: Seq<CommandView>,
) -> (S, Seq<Result<Option<Seq<u8>>, WirelessHartError>>)
    decreases asked.len(),
{
    if asked.len() == 0 {
        (state, seq![])
    } else {
        let (next, air, outcome) = exchange_over_the_air(
            gateway,
            radio,
            sequence,
            device,
            state,
            asked[0],
        );
        let (end, rest) = answers_over_the_air(
            gateway,
            air,
            ((sequence + 1) % 256) as u8,
            device,
            next,
            asked.drop_first(),
        );
        (end, seq![outcome] + rest)
    }
}

/// The air after those requests.
pub open spec fn air_after<S>(
    gateway: GatewayView,
    radio: RadioView,
    sequence: u8,
    device: spec_fn(S, CommandView) -> (S, Seq<u8>),
    state: S,
    asked: Seq<CommandView>,
) -> RadioView
    decreases asked.len(),
{
    if asked.len() == 0 {
        radio
    } else {
        let (next, air, _) = exchange_over_the_air(
            gateway,
            radio,
            sequence,
            device,
            state,
            asked[0],
        );
        air_after(
            gateway,
            air,
            ((sequence + 1) % 256) as u8,
            device,
            next,
            asked.drop_first(),
        )
    }
}

/// Whether each of some commands goes in one packet.
pub open spec fn each_can_be_asked(asked: Seq<CommandView>) -> bool {
    forall|i: int| 0 <= i < asked.len() ==> (#[trigger] asked[i]).data.len() <= MAX_COMMAND_DATA
}

/// Whether nothing waits on the air for the gateway, and the air is otherwise
/// the same but for its clock.
pub open spec fn quiet_again(before: RadioView, after: RadioView) -> bool {
    &&& after.to_gateway.len() == 0
    &&& after.network == before.network
    &&& after.nickname == before.nickname
    &&& after.superframe.slots == before.superframe.slots
}

/// One request over quiet air with a device on it does what the device does,
/// and leaves the air quiet.
pub proof fn lemma_one_exchange_changes_nothing<S>(
    gateway: GatewayView,
    radio: RadioView,
    sequence: u8,
    device: spec_fn(S, CommandView) -> (S, Seq<u8>),
    state: S,
    asked: CommandView,
)
    requires
        gateway.network == radio.network,
        gateway.nickname == radio.nickname,
        radio.to_gateway.len() == 0,
        asked.data.len() <= MAX_COMMAND_DATA,
        device(state, asked).1.len() <= MAX_COMMAND_DATA,
    ensures
        ({
            let (next, answer) = device(state, asked);
            let (left, air, outcome) = exchange_over_the_air(
                gateway,
                radio,
                sequence,
                device,
                state,
                asked,
            );
            &&& left == next
            &&& quiet_again(radio, air)
            &&& outcome == Ok::<Option<Seq<u8>>, WirelessHartError>(Some(answer))
        }),
{
    reveal(exchange_over_the_air);
    let (next, answer) = device(state, asked);
    lemma_exchange_carries_the_answer(
        gateway,
        radio,
        sequence,
        asked.number,
        asked.data,
        answer,
    );
    let only = seq![asked];
    assert(gateway.request_packet(sequence, asked.number, asked.data).commands =~= only);
    assert(answers_of(device, state, only) == (next, seq![answer])) by {
        assert(only.drop_first() =~= seq![]);
        assert(answers_of(device, next, only.drop_first()).1 =~= seq![]);
        assert(seq![answer] + Seq::<Seq<u8>>::empty() =~= seq![answer]);
    }
}

/// The air changes nothing: whatever a device does with its commands, asked
/// over quiet air it does the same, and the gateway takes exactly what the
/// device answered, request for request, as long as each goes in one packet.
/// Afterwards the air is quiet again, for the same device on the same network.
pub proof fn lemma_air_changes_nothing<S>(
    gateway: GatewayView,
    radio: RadioView,
    sequence: u8,
    device: spec_fn(S, CommandView) -> (S, Seq<u8>),
    state: S,
    asked: Seq<CommandView>,
)
    requires
        gateway.network == radio.network,
        gateway.nickname == radio.nickname,
        radio.to_gateway.len() == 0,
        each_can_be_asked(asked),
        each_goes_in_one_packet(answers_of(device, state, asked).1),
    ensures
        ({
            let (end, answers) = answers_of(device, state, asked);
            let (end_over_the_air, taken) = answers_over_the_air(
                gateway,
                radio,
                sequence,
                device,
                state,
                asked,
            );
            &&& end_over_the_air == end
            &&& taken == answers.map_values(
                |answer: Seq<u8>| Ok::<Option<Seq<u8>>, WirelessHartError>(Some(answer)),
            )
        }),
        quiet_again(radio, air_after(gateway, radio, sequence, device, state, asked)),
    decreases asked.len(),
{
    let wrap = |answer: Seq<u8>| Ok::<Option<Seq<u8>>, WirelessHartError>(Some(answer));
    if asked.len() == 0 {
        assert(Seq::<Seq<u8>>::empty().map_values(wrap) =~= seq![]);
    } else {
        let (next, answer) = device(state, asked[0]);
        let rest = asked.drop_first();
        let answers = answers_of(device, next, rest).1;
        assert(answer.len() <= MAX_COMMAND_DATA && each_goes_in_one_packet(answers)) by {
            let all = answers_of(device, state, asked).1;
            assert(all == seq![answer] + answers);
            assert(all[0] == answer);
            assert forall|i: int| 0 <= i < answers.len() implies (#[trigger] answers[i]).len()
                <= MAX_COMMAND_DATA by {
                assert(answers[i] == all[i + 1]);
            }
        }
        assert(each_can_be_asked(rest)) by {
            assert forall|i: int| 0 <= i < rest.len() implies (#[trigger] rest[i]).data.len()
                <= MAX_COMMAND_DATA by {
                assert(rest[i] == asked[i + 1]);
            }
        }
        lemma_one_exchange_changes_nothing(gateway, radio, sequence, device, state, asked[0]);
        let air = exchange_over_the_air(gateway, radio, sequence, device, state, asked[0]).1;
        lemma_air_changes_nothing(
            gateway,
            air,
            ((sequence + 1) % 256) as u8,
            device,
            next,
            rest,
        );
        assert((seq![answer] + answers).map_values(wrap) =~= seq![wrap(answer)]
            + answers.map_values(wrap));
    }
}

/// A round goes through: requests under one count and then requests under
/// another, to the same device over quiet air, find the device where the
/// first left it, and each takes exactly what the device answers there.
pub proof fn lemma_round_goes_through<S>(
    gateway: GatewayView,
    radio: RadioView,
    write_sequence: u8,
    read_sequence: u8,
    device: spec_fn(S, CommandView) -> (S, Seq<u8>),
    state: S,
    writes: Seq<CommandView>,
    reads: Seq<CommandView>,
)
    requires
        gateway.network == radio.network,
        gateway.nickname == radio.nickname,
        radio.to_gateway.len() == 0,
        each_can_be_asked(writes),
        each_can_be_asked(reads),
        each_goes_in_one_packet(answers_of(device, state, writes).1),
        each_goes_in_one_packet(answers_of(device, answers_of(device, state, writes).0, reads).1),
    ensures
        ({
            let (written, write_answers) = answers_of(device, state, writes);
            let (end, read_answers) = answers_of(device, written, reads);
            let wrap = |answer: Seq<u8>| Ok::<Option<Seq<u8>>, WirelessHartError>(Some(answer));
            let air = air_after(gateway, radio, write_sequence, device, state, writes);
            &&& answers_over_the_air(gateway, radio, write_sequence, device, state, writes) == (
                written,
                write_answers.map_values(wrap),
            )
            &&& answers_over_the_air(gateway, air, read_sequence, device, written, reads) == (
                end,
                read_answers.map_values(wrap),
            )
            &&& quiet_again(
                radio,
                air_after(gateway, air, read_sequence, device, written, reads),
            )
        }),
{
    lemma_air_changes_nothing(gateway, radio, write_sequence, device, state, writes);
    let written = answers_of(device, state, writes).0;
    let air = air_after(gateway, radio, write_sequence, device, state, writes);
    lemma_air_changes_nothing(gateway, air, read_sequence, device, written, reads);
}

/// A late answer is passed over: one to a request under another transport
/// sequence leaves the exchange listening.
pub proof fn lemma_other_answer_is_passed_over(
    gateway: GatewayView,
    radio: RadioView,
    exchange: Exchange,
    sequence: u8,
    command: u16,
    data: Seq<u8>,
    answer: Seq<u8>,
)
    requires
        sequence % 32 != exchange.sequence,
        answer.len() <= MAX_COMMAND_DATA,
    ensures
        ({
            let heard = HeardView {
                packet: gateway.request_packet(sequence, command, data),
                sequence,
            };
            let packet = RadioView::answer_packet(heard, seq![answer]);
            exchange.outcome(Some(radio.down_dlpdu(packet, sequence).frame())) == Ok::<
                Option<Seq<u8>>,
                WirelessHartError,
            >(None)
        }),
{
    lemma_answer_reads_back(gateway, radio, sequence, command, data, answer);
}

/// A request is no answer: a gateway that hears its own kind of packet listens
/// on.
pub proof fn lemma_request_is_no_answer(
    gateway: GatewayView,
    exchange: Exchange,
    sequence: u8,
    command: u16,
    data: Seq<u8>,
)
    requires
        data.len() <= MAX_COMMAND_DATA,
    ensures
        exchange.outcome(Some(gateway.request_dlpdu(sequence, command, data).frame())) == Ok::<
            Option<Seq<u8>>,
            WirelessHartError,
        >(None),
{
    lemma_request_reads_back(gateway, sequence, command, data);
}

/// What a device publishes is received as it was published, from that device,
/// with the low sixteen bits of the down slot it went in.
pub proof fn lemma_publication_is_received(
    radio: RadioView,
    name: Seq<char>,
    answer: CommandView,
)
    requires
        answer.data.len() <= MAX_COMMAND_DATA,
    ensures
        ({
            let slot = radio.superframe.next(Direction::Down);
            crate::gateway::published_in(
                name,
                radio.down_dlpdu(radio.publication(answer), 0).frame(),
            ) == Ok::<PublishedView, WirelessHartError>(
                PublishedView {
                    origin_uri: crate::gateway::command_origin_of(
                        name,
                        radio.nickname,
                        answer.number,
                    ) + "&asn="@ + crate::text::in_decimal((slot % 0x1_0000) as nat),
                    answer: answer.data,
                },
            )
        }),
{
    let packet = radio.publication(answer);
    let stamped = packet.in_slot(
        (radio.superframe.next(Direction::Down) % 0x1_0000) as u16,
        packet.sequence,
    );
    crate::npdu::lemma_one_command_total(answer);
    lemma_carried_packet_reads_back(radio.down_dlpdu(packet, 0), stamped);
}

/// A Stream the device hands out in chunks is read whole: every chunk before
/// the last, and then the last, are those chunks one after another.
pub proof fn lemma_stream_is_read_whole(chunks: Seq<Seq<u8>>)
    requires
        0 < chunks.len() <= u32::MAX,
    ensures
        ({
            let nothing = StreamSoFarView { chunks: 0, bytes: seq![] };
            nothing.and_all(chunks.drop_last()).bytes + chunks.last() == chunks.flatten()
        }),
{
    crate::gateway::lemma_chunks_are_joined(chunks.drop_last());
    chunks.lemma_flatten_and_flatten_alt_are_equivalent();
    chunks.drop_last().lemma_flatten_and_flatten_alt_are_equivalent();
}

} // verus!
