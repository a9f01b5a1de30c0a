//! A field device on an in-process superframe. What the gateway transmits
//! in an up slot the device answers in the next down slot, and the answer is
//! what the gateway receives next. The air and its slots are here; what the
//! device answers is the caller's.
use std::collections::VecDeque;
use vstd::prelude::*;

use crate::dlpdu::Dlpdu;
use crate::dlpdu::DlpduView;
use crate::dlpdu::Kind;
use crate::dlpdu::GATEWAY;
use crate::error::WirelessHartError;
use crate::npdu::Command;
use crate::npdu::CommandView;
use crate::npdu::Npdu;
use crate::npdu::NpduView;
use crate::npdu::MAX_COMMANDS;
use crate::npdu::MAX_COMMAND_DATA;
use crate::tdma::Direction;
use crate::tdma::Superframe;
use crate::tdma::SuperframeView;

verus! {

/// How many slots the loopback superframe has.
pub const LOOPBACK_SLOTS: u16 = 100;

/// The air between the gateway and one device: the device's place on the
/// network, the clock, and what the gateway has yet to receive.
#[derive(Debug)]
pub struct LoopbackRadio {
    nickname: u16,
    network: u16,
    superframe: Superframe,
    to_gateway: VecDeque<Vec<u8>>,
}

/// The air as a value.
#[verifier::ext_equal]
pub struct RadioView {
    pub nickname: u16,
    pub network: u16,
    pub superframe: SuperframeView,
    pub to_gateway: Seq<Seq<u8>>,
}

impl View for LoopbackRadio {
    type V = RadioView;

    closed spec fn view(&self) -> RadioView {
        RadioView {
            nickname: self.nickname,
            network: self.network,
            superframe: self.superframe@,
            to_gateway: self.to_gateway@.map_values(|frame: Vec<u8>| frame@),
        }
    }
}

/// What the device heard: a packet for it, and the sequence of the DLPDU it
/// came in.
#[derive(Debug)]
pub struct Heard {
    pub packet: Npdu,
    pub sequence: u8,
}

/// What the device heard as a value.
#[verifier::ext_equal]
pub struct HeardView {
    pub packet: NpduView,
    pub sequence: u8,
}

impl View for Heard {
    type V = HeardView;

    open spec fn view(&self) -> HeardView {
        HeardView { packet: self.packet@, sequence: self.sequence }
    }
}

/// Each of `asked` with the answer to it in place of its data.
pub open spec fn paired(asked: Seq<CommandView>, answers: Seq<Seq<u8>>) -> Seq<CommandView> {
    Seq::new(asked.len(), |i: int| CommandView { number: asked[i].number, data: answers[i] })
}

/// Some answers as values.
pub open spec fn answers_view(answers: Seq<Vec<u8>>) -> Seq<Seq<u8>> {
    answers.map_values(|answer: Vec<u8>| answer@)
}

impl RadioView {
    /// What the device makes of `bytes` on the air: a data DLPDU on its
    /// network to its nickname is for it, and anything else is not.
    pub open spec fn heard_in(self, bytes: Seq<u8>) -> Result<Option<HeardView>, WirelessHartError> {
        match DlpduView::read(bytes) {
            Err(error) => Err(error),
            Ok(dlpdu) => if dlpdu.kind != Kind::Data || dlpdu.network != self.network
                || dlpdu.destination != self.nickname {
                Ok(None)
            } else {
                match NpduView::read(dlpdu.payload) {
                    Err(error) => Err(error),
                    Ok(packet) => Ok(Some(HeardView { packet, sequence: dlpdu.sequence })),
                }
            },
        }
    }

    /// The air once a slot linked `direction` is taken.
    pub open spec fn past(self, direction: Direction) -> RadioView {
        RadioView { superframe: self.superframe.past(direction), ..self }
    }

    /// The DLPDU `packet` goes to the gateway in, in the next down slot.
    pub open spec fn down_dlpdu(self, packet: NpduView, sequence: u8) -> DlpduView {
        DlpduView {
            kind: Kind::Data,
            sequence,
            network: self.network,
            destination: GATEWAY,
            source: self.nickname,
            payload: packet.in_slot(
                (self.superframe.next(Direction::Down) % 0x1_0000) as u16,
                packet.sequence,
            ).bytes(),
        }
    }

    /// The air once `packet` waits for the gateway.
    pub open spec fn with_queued(self, packet: NpduView, sequence: u8) -> RadioView {
        RadioView {
            to_gateway: self.to_gateway.push(self.down_dlpdu(packet, sequence).frame()),
            ..self.past(Direction::Down)
        }
    }

    /// The packet the device answers `heard` in.
    pub open spec fn answer_packet(heard: HeardView, answers: Seq<Seq<u8>>) -> NpduView {
        heard.packet.answered_with(paired(heard.packet.commands, answers))
    }

    /// The packet the device publishes `answer` in.
    pub open spec fn publication(self, answer: CommandView) -> NpduView {
        NpduView { response: true, ..NpduView::request(GATEWAY, self.nickname, seq![answer]) }
    }
}

impl LoopbackRadio {
    /// The superframe has its hundred slots at all times.
    #[verifier::type_invariant]
    spec fn hundred_slots(self) -> bool {
        self.superframe@.slots == LOOPBACK_SLOTS
    }

    /// A device at `nickname` on network `network`, in a superframe of a
    /// hundred slots.
    #[must_use]
    pub fn new(nickname: u16, network: u16) -> (radio: Self)
        ensures
            radio@ == (RadioView {
                nickname,
                network,
                superframe: SuperframeView { slots: LOOPBACK_SLOTS, asn: 0 },
                to_gateway: seq![],
            }),
            radio@.superframe.slots == 100,
    {
        let radio = Self {
            nickname,
            network,
            superframe: Superframe::new(LOOPBACK_SLOTS),
            to_gateway: VecDeque::new(),
        };
        assert(radio@ =~= (RadioView {
            nickname,
            network,
            superframe: SuperframeView { slots: LOOPBACK_SLOTS, asn: 0 },
            to_gateway: seq![],
        }));
        radio
    }

    /// The radio's name, for the origin URI.
    #[must_use]
    pub fn name(&self) -> (name: &'static str)
        ensures
            name@ == "loopback"@,
    {
        "loopback"
    }

    /// The absolute slot number the network's clock is at, in a superframe
    /// that always has its hundred slots.
    #[must_use]
    pub fn asn(&self) -> (asn: u64)
        ensures
            asn == self@.superframe.asn,
            self@.superframe.slots == LOOPBACK_SLOTS,
    {
        proof {
            use_type_invariant(self);
        }
        self.superframe.asn()
    }

    /// Take the next slot linked `direction`.
    fn slot(&mut self, direction: Direction) -> (taken: u64)
        requires
            old(self)@.superframe.has_next(direction),
        ensures
            taken == old(self)@.superframe.next(direction),
            old(self)@.superframe.link(taken as int) == direction,
            final(self)@ == old(self)@.past(direction),
    {
        proof {
            use_type_invariant(&*self);
        }
        self.superframe.next_slot(direction)
    }

    /// Put `packet` in the next down slot, for the gateway to receive.
    fn queue(&mut self, packet: &Npdu, sequence: u8) -> (queued: Result<(), WirelessHartError>)
        requires
            old(self)@.superframe.has_next(Direction::Down),
        ensures
            old(self)@.superframe.link(old(self)@.superframe.next(Direction::Down))
                == Direction::Down,
            match queued {
                Ok(_) => CommandView::total(packet@.commands) <= MAX_COMMANDS && final(self)@
                    == old(self)@.with_queued(packet@, sequence),
                Err(error) => CommandView::total(packet@.commands) > MAX_COMMANDS && final(self)@
                    == old(self)@.past(Direction::Down) && error
                    == WirelessHartError::PayloadTooLong,
            },
    {
        proof {
            use_type_invariant(&*self);
        }
        let asn: u64 = self.slot(Direction::Down);
        let stamped = packet.clone().in_slot(Superframe::snippet(asn), packet.sequence);
        proof {
            crate::npdu::lemma_packet_length(stamped@);
        }
        let payload = stamped.encode();
        let dlpdu = match Dlpdu::new(
            Kind::Data,
            sequence,
            self.network,
            GATEWAY,
            self.nickname,
            payload.as_slice(),
        ) {
            Ok(dlpdu) => dlpdu,
            Err(error) => {
                return Err(error);
            },
        };
        let frame = dlpdu.encode();
        let mut waiting: VecDeque<Vec<u8>> = VecDeque::new();
        std::mem::swap(&mut waiting, &mut self.to_gateway);
        waiting.push_back(frame);
        self.to_gateway = waiting;
        assert(self@ =~= old(self)@.with_queued(packet@, sequence));
        Ok(())
    }

    /// The device publishes its `answer`, asked by nobody, in the next down
    /// slot.
    ///
    /// # Errors
    /// An answer over what one command carries, which a device's variables
    /// never are.
    pub fn publish(&mut self, answer: Command) -> (published: Result<(), WirelessHartError>)
        requires
            answer@.data.len() <= MAX_COMMAND_DATA ==> old(self)@.superframe.has_next(
                Direction::Down,
            ),
        ensures
            match published {
                Ok(_) => answer@.data.len() <= MAX_COMMAND_DATA && final(self)@ == old(
                    self,
                )@.with_queued(old(self)@.publication(answer@), 0) && old(self)@.superframe.link(
                    old(self)@.superframe.next(Direction::Down),
                ) == Direction::Down,
                Err(error) => answer@.data.len() > MAX_COMMAND_DATA && final(self)@ == old(self)@
                    && error == WirelessHartError::TooManyCommands,
            },
    {
        let mut commands: Vec<Command> = Vec::new();
        commands.push(answer);
        proof {
            assert(crate::npdu::commands_view(commands@) =~= seq![answer@]);
            crate::npdu::lemma_one_command_total(answer@);
        }
        let mut packet = match Npdu::new(GATEWAY, self.nickname, commands) {
            Ok(packet) => packet,
            Err(error) => {
                return Err(error);
            },
        };
        packet.response = true;
        self.queue(&packet, 0)
    }

    /// Put a DLPDU in the next slot linked `direction`: the slot it went in,
    /// and what the device heard, where it was for the device to answer.
    ///
    /// # Errors
    /// Bytes that are no DLPDU, or a DLPDU for the device that carries no
    /// packet. The slot is spent.
    pub fn transmit(&mut self, direction: Direction, bytes: &[u8]) -> (sent: Result<
        (u64, Option<Heard>),
        WirelessHartError,
    >)
        requires
            old(self)@.superframe.has_next(direction),
        ensures
            final(self)@ == old(self)@.past(direction),
            old(self)@.superframe.link(old(self)@.superframe.next(direction)) == direction,
            match sent {
                Ok((asn, Some(heard))) => asn == old(self)@.superframe.next(direction) && old(
                    self,
                )@.heard_in(bytes@) == Ok::<Option<HeardView>, WirelessHartError>(Some(heard@)),
                Ok((asn, None)) => asn == old(self)@.superframe.next(direction) && old(
                    self,
                )@.heard_in(bytes@) == Ok::<Option<HeardView>, WirelessHartError>(None),
                Err(error) => old(self)@.heard_in(bytes@) == Err::<
                    Option<HeardView>,
                    WirelessHartError,
                >(error),
            },
    {
        let asn: u64 = self.slot(direction);
        let dlpdu = match Dlpdu::decode(bytes) {
            Ok(dlpdu) => dlpdu,
            Err(error) => {
                return Err(error);
            },
        };
        if dlpdu.kind != Kind::Data || dlpdu.network != self.network || dlpdu.destination
            != self.nickname {
            return Ok((asn, None));
        }
        match Npdu::decode(dlpdu.payload.as_slice()) {
            Ok(packet) => Ok((asn, Some(Heard { packet, sequence: dlpdu.sequence }))),
            Err(error) => Err(error),
        }
    }

    /// The device answers what it heard, each command with the data in its
    /// place in `answers`, in the next down slot.
    ///
    /// # Errors
    /// Answers over what one packet carries.
    pub fn answer(&mut self, heard: &Heard, answers: Vec<Vec<u8>>) -> (answered: Result<
        (),
        WirelessHartError,
    >)
        requires
            answers@.len() == heard.packet.commands@.len(),
            CommandView::total(paired(heard@.packet.commands, answers_view(answers@)))
                <= MAX_COMMANDS ==> old(self)@.superframe.has_next(Direction::Down),
        ensures
            ({
                let answer = RadioView::answer_packet(heard@, answers_view(answers@));
                match answered {
                    Ok(_) => CommandView::total(answer.commands) <= MAX_COMMANDS && final(self)@
                        == old(self)@.with_queued(answer, heard.sequence) && old(
                        self,
                    )@.superframe.link(old(self)@.superframe.next(Direction::Down))
                        == Direction::Down,
                    Err(error) => CommandView::total(answer.commands) > MAX_COMMANDS && final(self)@
                        == old(self)@ && error == WirelessHartError::TooManyCommands,
                }
            }),
    {
        let ghost all = answers_view(answers@);
        let mut commands: Vec<Command> = Vec::new();
        for data in each: answers
            invariant
                each.index() == commands@.len(),
                each.seq().len() == heard.packet.commands@.len(),
                answers_view(each.seq()) == all,
                forall|i: int|
                    0 <= i < commands@.len() ==> (#[trigger] commands@[i])@ == (CommandView {
                        number: heard.packet.commands@[i].number,
                        data: each.seq()[i]@,
                    }),
        {
            let number: u16 = heard.packet.commands[commands.len()].number;
            commands.push(Command { number, data });
        }
        assert(crate::npdu::commands_view(commands@) =~= paired(heard@.packet.commands, all));
        let packet = match heard.packet.answering(commands) {
            Ok(packet) => packet,
            Err(error) => {
                return Err(error);
            },
        };
        self.queue(&packet, heard.sequence)
    }

    /// What the gateway receives next, or `None` when the air is quiet.
    pub fn receive(&mut self) -> (received: Option<Vec<u8>>)
        ensures
            match received {
                Some(frame) => old(self)@.to_gateway.len() > 0 && frame@ == old(self)@.to_gateway[0]
                    && final(self)@ == (RadioView {
                    to_gateway: old(self)@.to_gateway.drop_first(),
                    ..old(self)@
                }),
                None => old(self)@.to_gateway.len() == 0 && final(self)@ == old(self)@,
            },
    {
        proof {
            use_type_invariant(&*self);
        }
        let mut waiting: VecDeque<Vec<u8>> = VecDeque::new();
        std::mem::swap(&mut waiting, &mut self.to_gateway);
        let received = waiting.pop_front();
        self.to_gateway = waiting;
        proof {
            if received is Some {
                assert(self@ =~= RadioView {
                    to_gateway: old(self)@.to_gateway.drop_first(),
                    ..old(self)@
                });
            }
        }
        received
    }
}

/// What goes in an up slot of the loopback superframe is answered in the very
/// next slot.
pub proof fn lemma_answer_goes_in_the_next_slot(radio: RadioView)
    requires
        radio.superframe.slots == LOOPBACK_SLOTS,
        radio.superframe.has_next(Direction::Up),
    ensures
        radio.past(Direction::Up).superframe.next(Direction::Down) == radio.superframe.next(
            Direction::Up,
        ) + 1,
{
    crate::tdma::lemma_down_follows_up(radio.superframe);
}

/// What the device makes of what is on the air: a data DLPDU on its network to
/// its nickname is for it, and is heard as the packet inside, however many
/// commands that holds, or refused where there is none inside. A DLPDU of
/// another kind, network or nickname is not for it, whatever is inside.
pub proof fn lemma_what_the_device_hears(radio: RadioView, bytes: Seq<u8>)
    ensures
        ({
            let heard = radio.heard_in(bytes);
            match DlpduView::read(bytes) {
                Err(error) => heard == Err::<Option<HeardView>, WirelessHartError>(error),
                Ok(dlpdu) => {
                    let addressed = dlpdu.kind == Kind::Data && dlpdu.network == radio.network
                        && dlpdu.destination == radio.nickname;
                    let inside = NpduView::read(dlpdu.payload);
                    &&& !addressed <==> heard == Ok::<Option<HeardView>, WirelessHartError>(None)
                    &&& addressed && inside is Ok <==> heard is Ok && heard->Ok_0 is Some
                    &&& addressed && inside is Ok ==> {
                        &&& heard->Ok_0->0.packet == inside->Ok_0
                        &&& heard->Ok_0->0.sequence == dlpdu.sequence
                    }
                    &&& addressed && inside is Err ==> heard == Err::<
                        Option<HeardView>,
                        WirelessHartError,
                    >(inside->Err_0)
                },
            }
        }),
{
}

/// Taking a slot changes the clock and nothing else on the air.
pub proof fn lemma_slot_changes_the_clock_alone(radio: RadioView, direction: Direction)
    ensures
        radio.past(direction).superframe == radio.superframe.past(direction),
        radio.past(direction).nickname == radio.nickname,
        radio.past(direction).network == radio.network,
        radio.past(direction).to_gateway == radio.to_gateway,
{
}

/// What is queued waits behind what waited before, from the device, to the
/// gateway, on the device's network, as a packet that is the same but for the
/// low sixteen bits of the down slot it takes.
pub proof fn lemma_what_is_queued_waits_its_turn(radio: RadioView, packet: NpduView, sequence: u8)
    requires
        packet.sequence < 32,
        CommandView::total(packet.commands) <= 86,
    ensures
        ({
            let slot = radio.superframe.next(Direction::Down);
            let after = radio.with_queued(packet, sequence);
            let read = DlpduView::read(after.to_gateway.last());
            &&& after.to_gateway.len() == radio.to_gateway.len() + 1
            &&& after.to_gateway.drop_last() == radio.to_gateway
            &&& after.nickname == radio.nickname && after.network == radio.network
            &&& after.superframe == radio.superframe.past(Direction::Down)
            &&& after.to_gateway.last() == radio.down_dlpdu(packet, sequence).frame()
            &&& read is Ok
            &&& read->Ok_0.kind == Kind::Data
            &&& read->Ok_0.sequence == sequence
            &&& read->Ok_0.network == radio.network
            &&& read->Ok_0.destination == 0xf981
            &&& read->Ok_0.source == radio.nickname
            &&& NpduView::read(read->Ok_0.payload) == Ok::<NpduView, WirelessHartError>(
                NpduView { asn: (slot % 0x1_0000) as u16, ..packet },
            )
        }),
{
    let slot = radio.superframe.next(Direction::Down);
    let dlpdu = radio.down_dlpdu(packet, sequence);
    let stamped = packet.in_slot((slot % 0x1_0000) as u16, packet.sequence);
    let after = radio.with_queued(packet, sequence);
    assert(after.to_gateway.drop_last() =~= radio.to_gateway);
    assert(stamped =~= NpduView { asn: (slot % 0x1_0000) as u16, ..packet });
    crate::npdu::lemma_packet_length(stamped);
    crate::npdu::lemma_carried_commands_are_counted(stamped.commands);
    crate::npdu::lemma_packet_reads_back(stamped);
    crate::dlpdu::lemma_frame_reads_back(dlpdu);
}

/// Every command heard is answered, in its place, under its number, with the
/// data given for it, in one response under the sequence asked in.
pub proof fn lemma_every_command_is_answered(heard: HeardView, answers: Seq<Seq<u8>>)
    requires
        answers.len() == heard.packet.commands.len(),
    ensures
        ({
            let answer = RadioView::answer_packet(heard, answers);
            &&& answer.response
            &&& answer.sequence == heard.packet.sequence
            &&& answer.graph == heard.packet.graph
            &&& answer.destination == heard.packet.source
            &&& answer.source == heard.packet.destination
            &&& answer.commands.len() == heard.packet.commands.len()
            &&& forall|i: int|
                0 <= i < answers.len() ==> (#[trigger] answer.commands[i]).number
                    == heard.packet.commands[i].number && answer.commands[i].data == answers[i]
        }),
{
}

/// What is published is a response to the gateway from the device, under no
/// sequence, with the one answer in it.
pub proof fn lemma_what_a_publication_is(radio: RadioView, answer: CommandView)
    ensures
        ({
            let packet = radio.publication(answer);
            &&& packet.response
            &&& packet.destination == 0xf981
            &&& packet.source == radio.nickname
            &&& packet.sequence == 0 && packet.asn == 0 && packet.graph == 0
            &&& packet.commands == seq![answer]
        }),
{
}

/// What the device heard, as a value, is the packet and the sequence.
pub proof fn lemma_heard_is_its_fields(heard: Heard, answers: Seq<Vec<u8>>)
    ensures
        heard@.packet == heard.packet@,
        heard@.sequence == heard.sequence,
        answers_view(answers).len() == answers.len(),
        forall|i: int|
            0 <= i < answers.len() ==> #[trigger] answers_view(answers)[i] == answers[i]@,
{
}

/// What goes down goes from the device to the gateway on the device's network,
/// stamped with the low sixteen bits of the down slot it takes.
pub proof fn lemma_what_goes_down(radio: RadioView, packet: NpduView, sequence: u8)
    ensures
        ({
            let slot = radio.superframe.next(Direction::Down);
            let dlpdu = radio.down_dlpdu(packet, sequence);
            &&& dlpdu.kind == Kind::Data
            &&& dlpdu.sequence == sequence
            &&& dlpdu.network == radio.network
            &&& dlpdu.destination == 0xf981
            &&& dlpdu.source == radio.nickname
            &&& dlpdu.payload == packet.in_slot((slot % 0x1_0000) as u16, packet.sequence).bytes()
        }),
{
}

} // verus!
