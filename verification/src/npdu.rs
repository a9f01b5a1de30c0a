//! What a DLPDU carries: the network layer's packet — a control byte, the
//! time to live, a snippet of the absolute slot number, the graph, the
//! destination and source nicknames — the security sublayer's control,
//! counter and MIC, and the transport layer's byte followed by the HART
//! commands it aggregates, each a sixteen-bit number, a byte count and its
//! data. A response carries the two status bytes the device answers with.
//!
//! The session MIC is AES-CCM* under a session key; as with the DLPDU's,
//! this crate carries the field and a keyed link fills it.
use vstd::prelude::*;
use vstd::slice::slice_subrange;
use vstd::slice::slice_to_vec;

use crate::bytes::join;
use crate::bytes::push_all;
use crate::bytes::push_big_endian;
use crate::dlpdu::MAX_PAYLOAD;
use crate::error::WirelessHartError;

verus! {

/// The network header, the security sublayer and the transport byte.
pub const OVERHEAD: usize = 10 + 6 + 1;

/// What one packet's commands may total: numbers, counts and data.
pub const MAX_COMMANDS: usize = MAX_PAYLOAD - OVERHEAD;

/// The most data one command carries in one packet: the commands less one
/// number and one count.
pub const MAX_COMMAND_DATA: usize = MAX_COMMANDS - 3;

/// Network control: short nicknames, no proxy route.
pub const CONTROL: u8 = 0x00;

/// The time to live a packet sets out with.
pub const TTL: u8 = 0x20;

/// Security control: a session key, a one-byte counter.
pub const SECURITY: u8 = 0x00;

/// Transport byte: acknowledged service.
pub const ACKNOWLEDGED: u8 = 0x80;

/// Transport byte: a response.
pub const RESPONSE: u8 = 0x40;

/// Transport byte: where the sequence is.
pub const SEQUENCE: u8 = 0x1f;

/// One HART command as the transport layer aggregates it.
#[derive(Debug, PartialEq, Eq)]
pub struct Command {
    pub number: u16,
    pub data: Vec<u8>,
}

/// A command as a value.
#[verifier::ext_equal]
pub struct CommandView {
    pub number: u16,
    pub data: Seq<u8>,
}

impl View for Command {
    type V = CommandView;

    open spec fn view(&self) -> CommandView {
        CommandView { number: self.number, data: self.data@ }
    }
}

impl Clone for Command {
    fn clone(&self) -> (copy: Self)
        ensures
            copy@ == self@,
    {
        Command { number: self.number, data: slice_to_vec(self.data.as_slice()) }
    }
}

impl CommandView {
    /// The byte count a command goes out with: as much of its length as a
    /// byte holds.
    pub open spec fn count(self) -> u8 {
        if self.data.len() <= u8::MAX {
            self.data.len() as u8
        } else {
            u8::MAX
        }
    }

    /// The command as a packet carries it.
    pub open spec fn bytes(self) -> Seq<u8> {
        crate::bytes::big_endian(self.number) + seq![self.count()] + self.data
    }

    /// The commands one after another.
    pub open spec fn run(commands: Seq<CommandView>) -> Seq<u8>
        decreases commands.len(),
    {
        if commands.len() == 0 {
            seq![]
        } else {
            commands[0].bytes() + CommandView::run(commands.drop_first())
        }
    }

    /// What the commands total: numbers, counts and data.
    pub open spec fn total(commands: Seq<CommandView>) -> nat
        decreases commands.len(),
    {
        if commands.len() == 0 {
            0
        } else {
            3 + commands[0].data.len() + CommandView::total(commands.drop_first())
        }
    }

    /// The commands `bytes` carry one after another, or where they are cut
    /// off.
    pub open spec fn read_run(bytes: Seq<u8>) -> Result<Seq<CommandView>, WirelessHartError>
        decreases bytes.len(),
    {
        if bytes.len() == 0 {
            Ok(seq![])
        } else if bytes.len() < 3 {
            Err(WirelessHartError::NumberCutOff)
        } else if bytes.len() < 3 + bytes[2] {
            Err(WirelessHartError::DataCutOff)
        } else {
            match CommandView::read_run(bytes.skip(3 + bytes[2])) {
                Ok(after) => Ok(
                    seq![
                        CommandView {
                            number: crate::bytes::joined(bytes[0], bytes[1]),
                            data: bytes.subrange(3, 3 + bytes[2]),
                        },
                    ] + after,
                ),
                Err(error) => Err(error),
            }
        }
    }

    /// The first command numbered `number`.
    pub open spec fn first(commands: Seq<CommandView>, number: u16) -> Option<CommandView>
        decreases commands.len(),
    {
        if commands.len() == 0 {
            None
        } else if commands[0].number == number {
            Some(commands[0])
        } else {
            CommandView::first(commands.drop_first(), number)
        }
    }
}

/// Some commands as values.
pub open spec fn commands_view(commands: Seq<Command>) -> Seq<CommandView> {
    commands.map_values(|command: Command| command@)
}

/// One network packet: where it goes and the commands it carries.
#[derive(Debug, PartialEq, Eq)]
pub struct Npdu {
    pub asn: u16,
    pub graph: u16,
    pub destination: u16,
    pub source: u16,
    pub response: bool,
    pub sequence: u8,
    pub commands: Vec<Command>,
}

/// A packet as a value.
#[verifier::ext_equal]
pub struct NpduView {
    pub asn: u16,
    pub graph: u16,
    pub destination: u16,
    pub source: u16,
    pub response: bool,
    pub sequence: u8,
    pub commands: Seq<CommandView>,
}

impl View for Npdu {
    type V = NpduView;

    open spec fn view(&self) -> NpduView {
        NpduView {
            asn: self.asn,
            graph: self.graph,
            destination: self.destination,
            source: self.source,
            response: self.response,
            sequence: self.sequence,
            commands: commands_view(self.commands@),
        }
    }
}

impl Clone for Npdu {
    fn clone(&self) -> (copy: Self)
        ensures
            copy@ == self@,
    {
        let mut commands: Vec<Command> = Vec::new();
        let mut at: usize = 0;
        while at < self.commands.len()
            invariant
                at <= self.commands@.len(),
                commands@.len() == at,
                forall|i: int| 0 <= i < at ==> (#[trigger] commands@[i])@ == self.commands@[i]@,
            decreases self.commands@.len() - at,
        {
            commands.push(self.commands[at].clone());
            at = at + 1;
        }
        assert(commands_view(commands@) =~= commands_view(self.commands@));
        Npdu {
            asn: self.asn,
            graph: self.graph,
            destination: self.destination,
            source: self.source,
            response: self.response,
            sequence: self.sequence,
            commands,
        }
    }
}

impl NpduView {
    /// A request for `commands`, not yet in a slot.
    pub open spec fn request(destination: u16, source: u16, commands: Seq<CommandView>) -> NpduView {
        NpduView {
            asn: 0,
            graph: 0,
            destination,
            source,
            response: false,
            sequence: 0,
            commands,
        }
    }

    /// The packet in a slot, under a transport sequence.
    pub open spec fn in_slot(self, asn: u16, sequence: u8) -> NpduView {
        NpduView { asn, sequence: (sequence % 32) as u8, ..self }
    }

    /// The answer to this packet, back the way it came.
    pub open spec fn answered_with(self, commands: Seq<CommandView>) -> NpduView {
        NpduView {
            response: true,
            sequence: self.sequence,
            graph: self.graph,
            ..NpduView::request(self.source, self.destination, commands)
        }
    }

    /// The transport byte: acknowledged service, whether a response, and the
    /// sequence.
    pub open spec fn transport_byte(self) -> u8 {
        ACKNOWLEDGED | (if self.response {
            RESPONSE
        } else {
            0
        }) | self.sequence
    }

    /// The network header, the security sublayer and the transport byte.
    pub open spec fn header(self) -> Seq<u8> {
        seq![CONTROL, TTL] + crate::bytes::big_endian(self.asn) + crate::bytes::big_endian(
            self.graph,
        ) + crate::bytes::big_endian(self.destination) + crate::bytes::big_endian(self.source)
            + seq![SECURITY, self.sequence, 0, 0, 0, 0, self.transport_byte()]
    }

    /// The packet as the DLPDU carries it.
    pub open spec fn bytes(self) -> Seq<u8> {
        self.header() + CommandView::run(self.commands)
    }

    /// The packet `bytes` carry, or why they carry none.
    pub open spec fn read(bytes: Seq<u8>) -> Result<NpduView, WirelessHartError> {
        if bytes.len() < OVERHEAD {
            Err(WirelessHartError::PacketCutOff)
        } else if bytes[0] != CONTROL || bytes[10] != SECURITY {
            Err(WirelessHartError::UnknownControl)
        } else {
            match CommandView::read_run(bytes.skip(OVERHEAD as int)) {
                Ok(commands) => Ok(
                    NpduView {
                        asn: crate::bytes::joined(bytes[2], bytes[3]),
                        graph: crate::bytes::joined(bytes[4], bytes[5]),
                        destination: crate::bytes::joined(bytes[6], bytes[7]),
                        source: crate::bytes::joined(bytes[8], bytes[9]),
                        response: bytes[16] & RESPONSE != 0,
                        sequence: bytes[16] & SEQUENCE,
                        commands,
                    },
                ),
                Err(error) => Err(error),
            }
        }
    }
}

impl Npdu {
    /// A packet, refusing more commands than one DLPDU carries.
    ///
    /// # Errors
    /// Commands over [`MAX_COMMANDS`] in all.
    pub fn new(destination: u16, source: u16, commands: Vec<Command>) -> (made: Result<
        Self,
        WirelessHartError,
    >)
        ensures
            match made {
                Ok(packet) => CommandView::total(commands_view(commands@)) <= MAX_COMMANDS
                    && CommandView::total(commands_view(commands@)) <= 86 && packet.commands@
                    == commands@ && packet@ == NpduView::request(destination, source, commands_view(commands@)),
                Err(error) => CommandView::total(commands_view(commands@)) > MAX_COMMANDS && error
                    == WirelessHartError::TooManyCommands,
            },
            made is Ok <==> CommandView::total(commands_view(commands@)) <= 86,
    {
        let ghost all = commands_view(commands@);
        let mut total: usize = 0;
        let mut at: usize = 0;
        assert(all.skip(0) =~= all);
        while at < commands.len()
            invariant
                at <= commands@.len(),
                all == commands_view(commands@),
                total <= MAX_COMMANDS,
                CommandView::total(all) == total + CommandView::total(all.skip(at as int)),
            decreases commands@.len() - at,
        {
            let length: usize = commands[at].data.len();
            assert(all.skip(at as int).drop_first() =~= all.skip(at + 1));
            assert(all.skip(at as int)[0] == commands@[at as int]@);
            if length > MAX_COMMANDS || total + 3 + length > MAX_COMMANDS {
                return Err(WirelessHartError::TooManyCommands);
            }
            total = total + 3 + length;
            at = at + 1;
        }
        Ok(
            Self { asn: 0, graph: 0, destination, source, response: false, sequence: 0, commands },
        )
    }

    /// Stamped with the slot it goes in and the transport sequence.
    #[must_use]
    pub fn in_slot(self, asn: u16, sequence: u8) -> (stamped: Self)
        ensures
            stamped@ == self@.in_slot(asn, sequence),
    {
        let mut stamped = self;
        stamped.asn = asn;
        stamped.sequence = sequence % 32;
        stamped
    }

    /// The answer to this packet, back the way it came.
    ///
    /// # Errors
    /// As [`Self::new`].
    pub fn answering(&self, commands: Vec<Command>) -> (made: Result<Self, WirelessHartError>)
        ensures
            match made {
                Ok(answer) => CommandView::total(commands_view(commands@)) <= MAX_COMMANDS
                    && answer@ == self@.answered_with(commands_view(commands@)),
                Err(error) => CommandView::total(commands_view(commands@)) > MAX_COMMANDS && error
                    == WirelessHartError::TooManyCommands,
            },
    {
        match Self::new(self.source, self.destination, commands) {
            Ok(made) => {
                let mut answer = made;
                answer.response = true;
                answer.sequence = self.sequence;
                answer.graph = self.graph;
                Ok(answer)
            },
            Err(error) => Err(error),
        }
    }

    /// The packet as the DLPDU carries it.
    #[must_use]
    pub fn encode(&self) -> (bytes: Vec<u8>)
        ensures
            bytes@ == self@.bytes(),
    {
        let mut out: Vec<u8> = Vec::new();
        out.push(CONTROL);
        out.push(TTL);
        push_big_endian(&mut out, self.asn);
        push_big_endian(&mut out, self.graph);
        push_big_endian(&mut out, self.destination);
        push_big_endian(&mut out, self.source);
        out.push(SECURITY);
        out.push(self.sequence);
        out.push(0);
        out.push(0);
        out.push(0);
        out.push(0);
        let transport: u8 = ACKNOWLEDGED | (if self.response {
            RESPONSE
        } else {
            0
        }) | self.sequence;
        out.push(transport);
        assert(out@ =~= self@.header());
        let ghost all = self@.commands;
        let mut at: usize = 0;
        assert(all.skip(0) =~= all);
        while at < self.commands.len()
            invariant
                at <= self.commands@.len(),
                all == commands_view(self.commands@),
                self@.header() + CommandView::run(all) == out@ + CommandView::run(
                    all.skip(at as int),
                ),
            decreases self.commands@.len() - at,
        {
            let command = &self.commands[at];
            let ghost before = out@;
            push_big_endian(&mut out, command.number);
            let count: u8 = if command.data.len() <= 255 {
                command.data.len() as u8
            } else {
                255
            };
            out.push(count);
            push_all(&mut out, command.data.as_slice());
            assert(out@ =~= before + command@.bytes());
            assert(all.skip(at as int)[0] == command@);
            assert(all.skip(at as int).drop_first() =~= all.skip(at + 1));
            assert(before + (command@.bytes() + CommandView::run(all.skip(at + 1))) =~= out@
                + CommandView::run(all.skip(at + 1)));
            at = at + 1;
        }
        assert(all.skip(at as int).len() == 0);
        assert(out@ + CommandView::run(all.skip(at as int)) =~= out@);
        out
    }

    /// The packet `bytes` carry.
    ///
    /// # Errors
    /// A packet cut off, a control byte this crate does not carry, or a
    /// command cut off before its byte count is met.
    pub fn decode(bytes: &[u8]) -> (read: Result<Self, WirelessHartError>)
        ensures
            match read {
                Ok(packet) => NpduView::read(bytes@) == Ok::<NpduView, WirelessHartError>(packet@),
                Err(error) => NpduView::read(bytes@) == Err::<NpduView, WirelessHartError>(error),
            },
    {
        if bytes.len() < OVERHEAD {
            return Err(WirelessHartError::PacketCutOff);
        }
        if bytes[0] != CONTROL || bytes[10] != SECURITY {
            return Err(WirelessHartError::UnknownControl);
        }
        let transport: u8 = bytes[16];
        let ghost all = CommandView::read_run(bytes@.skip(OVERHEAD as int));
        let mut commands: Vec<Command> = Vec::new();
        let mut at: usize = OVERHEAD;
        assert(commands_view(commands@) =~= seq![]);
        while at < bytes.len()
            invariant
                OVERHEAD <= at <= bytes@.len(),
                match CommandView::read_run(bytes@.skip(at as int)) {
                    Ok(after) => all == Ok::<Seq<CommandView>, WirelessHartError>(
                        commands_view(commands@) + after,
                    ),
                    Err(error) => all == Err::<Seq<CommandView>, WirelessHartError>(error),
                },
                NpduView::read(bytes@) is Err <==> all is Err,
                NpduView::read(bytes@) is Err ==> NpduView::read(bytes@)->Err_0 == all->Err_0,
            decreases bytes@.len() - at,
        {
            let ghost rest = bytes@.skip(at as int);
            if bytes.len() - at < 3 {
                return Err(WirelessHartError::NumberCutOff);
            }
            assert(rest[2] == bytes@[at + 2]);
            let count: usize = bytes[at + 2] as usize;
            if bytes.len() - at - 3 < count {
                return Err(WirelessHartError::DataCutOff);
            }
            let command = Command {
                number: join(bytes[at], bytes[at + 1]),
                data: slice_to_vec(slice_subrange(bytes, at + 3, at + 3 + count)),
            };
            proof {
                let one = CommandView {
                    number: crate::bytes::joined(rest[0], rest[1]),
                    data: rest.subrange(3, 3 + rest[2]),
                };
                assert(command@ =~= one);
                assert(rest.skip(3 + rest[2]) =~= bytes@.skip(at + 3 + count));
                assert(commands_view(commands@.push(command)) =~= commands_view(commands@)
                    + seq![one]);
                if let Ok(after) = CommandView::read_run(rest.skip(3 + rest[2])) {
                    assert(commands_view(commands@) + (seq![one] + after) =~= commands_view(
                        commands@,
                    ) + seq![one] + after);
                }
            }
            commands.push(command);
            at = at + 3 + count;
        }
        assert(commands_view(commands@) + Seq::<CommandView>::empty() =~= commands_view(commands@));
        Ok(
            Self {
                asn: join(bytes[2], bytes[3]),
                graph: join(bytes[4], bytes[5]),
                destination: join(bytes[6], bytes[7]),
                source: join(bytes[8], bytes[9]),
                response: transport & RESPONSE != 0,
                sequence: transport & SEQUENCE,
                commands,
            },
        )
    }
}

/// Whether a byte count holds the length of each command.
pub open spec fn counted(commands: Seq<CommandView>) -> bool {
    forall|i: int| 0 <= i < commands.len() ==> (#[trigger] commands[i]).data.len() <= u8::MAX
}

/// What one command totals.
pub proof fn lemma_one_command_total(command: CommandView)
    ensures
        CommandView::total(seq![command]) == 3 + command.data.len(),
{
    assert(seq![command].drop_first() =~= seq![]);
    assert(CommandView::total(Seq::<CommandView>::empty()) == 0);
}

/// Commands take as many bytes as they total.
proof fn lemma_run_length(commands: Seq<CommandView>)
    ensures
        CommandView::run(commands).len() == CommandView::total(commands),
    decreases commands.len(),
{
    if commands.len() > 0 {
        lemma_run_length(commands.drop_first());
    }
}

/// No command is longer than all of them.
proof fn lemma_total_covers(commands: Seq<CommandView>, at: int)
    requires
        0 <= at < commands.len(),
    ensures
        3 + commands[at].data.len() <= CommandView::total(commands),
    decreases commands.len(),
{
    if at > 0 {
        lemma_total_covers(commands.drop_first(), at - 1);
    }
}

/// A packet is its commands and a fixed overhead, so one whose commands are
/// no more than a packet carries is no more than a DLPDU carries.
pub proof fn lemma_packet_length(packet: NpduView)
    ensures
        packet.bytes().len() == OVERHEAD + CommandView::total(packet.commands),
        CommandView::total(packet.commands) <= MAX_COMMANDS <==> packet.bytes().len()
            <= MAX_PAYLOAD,
{
    lemma_run_length(packet.commands);
}

/// A byte count holds the length of every command a packet carries.
pub proof fn lemma_carried_commands_are_counted(commands: Seq<CommandView>)
    requires
        CommandView::total(commands) <= MAX_COMMANDS,
    ensures
        counted(commands),
{
    assert forall|i: int| 0 <= i < commands.len() implies (#[trigger] commands[i]).data.len()
        <= u8::MAX by {
        lemma_total_covers(commands, i);
    }
}

/// Commands whose lengths their counts hold read back as they are.
pub proof fn lemma_run_reads_back(commands: Seq<CommandView>)
    requires
        counted(commands),
    ensures
        CommandView::read_run(CommandView::run(commands)) == Ok::<
            Seq<CommandView>,
            WirelessHartError,
        >(commands),
    decreases commands.len(),
{
    let bytes = CommandView::run(commands);
    if commands.len() == 0 {
        assert(commands =~= seq![]);
    } else {
        let one = commands[0];
        let after = commands.drop_first();
        assert(counted(after)) by {
            assert forall|i: int| 0 <= i < after.len() implies (#[trigger] after[i]).data.len()
                <= u8::MAX by {
                assert(after[i] == commands[i + 1]);
            }
        }
        lemma_run_reads_back(after);
        crate::bytes::lemma_split_then_join(one.number);
        assert(bytes[2] == one.data.len());
        assert(bytes.skip(3 + bytes[2]) =~= CommandView::run(after));
        assert(bytes.subrange(3, 3 + bytes[2]) =~= one.data);
        assert(seq![one] + after =~= commands);
    }
}

/// What commands are read from is what they go out as: reading loses nothing
/// of the bytes after the headers.
pub proof fn lemma_read_run_goes_out_again(bytes: Seq<u8>)
    ensures
        match CommandView::read_run(bytes) {
            Ok(commands) => counted(commands) && CommandView::run(commands) == bytes,
            Err(_) => true,
        },
    decreases bytes.len(),
{
    if let Ok(commands) = CommandView::read_run(bytes) {
        if bytes.len() > 0 {
            let rest = bytes.skip(3 + bytes[2]);
            lemma_read_run_goes_out_again(rest);
            let after = CommandView::read_run(rest)->Ok_0;
            assert(commands.drop_first() =~= after);
            crate::bytes::lemma_join_then_split(bytes[0], bytes[1]);
            assert(commands[0].bytes() =~= bytes.take(3 + bytes[2]));
            assert(bytes.take(3 + bytes[2]) + rest =~= bytes);
            assert forall|i: int| 0 <= i < commands.len() implies (
            #[trigger] commands[i]).data.len() <= u8::MAX by {
                if i > 0 {
                    assert(commands[i] == after[i - 1]);
                }
            }
        }
    }
}

/// What goes out reads back: a packet under a transport sequence, whose
/// commands' lengths their counts hold, is what its bytes are read as.
pub proof fn lemma_packet_reads_back(packet: NpduView)
    requires
        packet.sequence < 32,
        counted(packet.commands),
    ensures
        NpduView::read(packet.bytes()) == Ok::<NpduView, WirelessHartError>(packet),
{
    let bytes = packet.bytes();
    let transport = packet.transport_byte();
    let sequence = packet.sequence;
    lemma_run_reads_back(packet.commands);
    assert(bytes.skip(OVERHEAD as int) =~= CommandView::run(packet.commands));
    crate::bytes::lemma_split_then_join(packet.asn);
    crate::bytes::lemma_split_then_join(packet.graph);
    crate::bytes::lemma_split_then_join(packet.destination);
    crate::bytes::lemma_split_then_join(packet.source);
    assert(bytes[16] == transport);
    assert((0x80u8 | 0x40u8 | sequence) & 0x40 != 0 && (0x80u8 | 0x40u8 | sequence) & 0x1f
        == sequence && (0x80u8 | 0u8 | sequence) & 0x40 == 0 && (0x80u8 | 0u8 | sequence) & 0x1f
        == sequence) by (bit_vector)
        requires
            sequence < 32,
    ;
    assert(NpduView::read(bytes)->Ok_0 =~= packet);
}

/// Each command adds its number, its count and its data to what the commands
/// before it total.
pub proof fn lemma_each_command_adds_to_the_total(commands: Seq<CommandView>, one: CommandView)
    ensures
        CommandView::total(seq![]) == 0,
        CommandView::total(commands.push(one)) == CommandView::total(commands) + 3
            + one.data.len(),
    decreases commands.len(),
{
    let more = commands.push(one);
    if commands.len() == 0 {
        assert(more =~= seq![one]);
        lemma_one_command_total(one);
    } else {
        lemma_each_command_adds_to_the_total(commands.drop_first(), one);
        assert(more.drop_first() =~= commands.drop_first().push(one));
    }
}

/// Where a packet's headers have what they hold, byte by byte.
pub proof fn lemma_where_the_headers_are(packet: NpduView)
    ensures
        ({
            let bytes = packet.bytes();
            &&& bytes.len() == 17 + CommandView::total(packet.commands)
            &&& bytes[0] == 0x00 && bytes[1] == 0x20
            &&& 256 * bytes[2] + bytes[3] == packet.asn
            &&& 256 * bytes[4] + bytes[5] == packet.graph
            &&& 256 * bytes[6] + bytes[7] == packet.destination
            &&& 256 * bytes[8] + bytes[9] == packet.source
            &&& bytes[10] == 0x00 && bytes[11] == packet.sequence
            &&& bytes[12] == 0 && bytes[13] == 0 && bytes[14] == 0 && bytes[15] == 0
            &&& packet.sequence < 32 ==> bytes[16] == (if packet.response {
                0xc0
            } else {
                0x80int
            }) + packet.sequence
            &&& bytes[16] == 0x80u8 | (if packet.response {
                0x40u8
            } else {
                0u8
            }) | packet.sequence
        }),
{
    lemma_run_length(packet.commands);
    let sequence = packet.sequence;
    assert(sequence < 32 ==> (0x80u8 | 0x40u8 | sequence) == 0xc0 + sequence && (0x80u8 | 0u8
        | sequence) == 0x80 + sequence) by (bit_vector);
}

/// Commands from one on follow the commands before it.
proof fn lemma_run_splits(commands: Seq<CommandView>, at: int)
    requires
        0 <= at <= commands.len(),
    ensures
        CommandView::run(commands) == CommandView::run(commands.take(at)) + CommandView::run(
            commands.skip(at),
        ),
    decreases at,
{
    if at == 0 {
        assert(commands.skip(0) =~= commands);
        assert(CommandView::run(commands) =~= CommandView::run(commands.take(0))
            + CommandView::run(commands));
    } else {
        let rest = commands.drop_first();
        lemma_run_splits(rest, at - 1);
        assert(commands.take(at).drop_first() =~= rest.take(at - 1));
        assert(commands.skip(at) =~= rest.skip(at - 1));
        assert(commands[0].bytes() + (CommandView::run(rest.take(at - 1)) + CommandView::run(
            rest.skip(at - 1),
        )) =~= commands[0].bytes() + CommandView::run(rest.take(at - 1)) + CommandView::run(
            rest.skip(at - 1),
        ));
    }
}

/// Where a packet has each of its commands: past the headers and the commands
/// before it, the number with its high byte first, the count, and the data.
pub proof fn lemma_where_a_command_is(packet: NpduView, at: int)
    requires
        0 <= at < packet.commands.len(),
    ensures
        ({
            let bytes = packet.bytes();
            let command = packet.commands[at];
            let from = 17int + CommandView::total(packet.commands.take(at));
            &&& from + 3 + command.data.len() <= bytes.len()
            &&& bytes[from] == command.number / 256
            &&& bytes[from + 1] == command.number % 256
            &&& command.data.len() <= 255 ==> bytes[from + 2] == command.data.len()
            &&& command.data.len() > 255 ==> bytes[from + 2] == 255
            &&& bytes.subrange(from + 3, from + 3 + command.data.len()) == command.data
        }),
{
    let bytes = packet.bytes();
    let command = packet.commands[at];
    let before = packet.commands.take(at);
    let rest = packet.commands.skip(at);
    lemma_run_splits(packet.commands, at);
    lemma_run_length(before);
    let after = CommandView::run(rest.drop_first());
    assert(rest[0] == command);
    assert(CommandView::run(rest) == command.bytes() + after);
    let from = 17int + CommandView::total(before);
    assert(bytes =~= packet.header() + CommandView::run(before) + command.bytes() + after);
    let own = command.bytes();
    assert(bytes[from] == own[0] && bytes[from + 1] == own[1] && bytes[from + 2] == own[2]);
    assert(bytes.subrange(from + 3, from + 3 + command.data.len()) =~= command.data);
}

/// Where a packet has the only command it holds.
pub proof fn lemma_where_a_lone_command_is(packet: NpduView)
    requires
        packet.commands.len() == 1,
        packet.commands[0].data.len() <= 255,
    ensures
        ({
            let bytes = packet.bytes();
            let command = packet.commands[0];
            &&& bytes.len() == 20 + command.data.len()
            &&& bytes[17] == command.number / 256
            &&& bytes[18] == command.number % 256
            &&& bytes[19] == command.data.len()
            &&& bytes.skip(20) == command.data
        }),
{
    lemma_where_a_command_is(packet, 0);
    lemma_where_the_headers_are(packet);
    let command = packet.commands[0];
    assert(packet.commands =~= seq![command]);
    lemma_one_command_total(command);
    assert(CommandView::total(packet.commands.take(0)) == 0);
    assert(packet.bytes().skip(20) =~= packet.bytes().subrange(20, 20int + command.data.len()));
}

/// What is read of a packet's headers, byte by byte.
pub proof fn lemma_what_the_headers_say(bytes: Seq<u8>)
    requires
        NpduView::read(bytes) is Ok,
    ensures
        ({
            let packet = NpduView::read(bytes)->Ok_0;
            &&& packet.asn == 256 * bytes[2] + bytes[3]
            &&& packet.graph == 256 * bytes[4] + bytes[5]
            &&& packet.destination == 256 * bytes[6] + bytes[7]
            &&& packet.source == 256 * bytes[8] + bytes[9]
            &&& packet.response <==> bytes[16] / 64 % 2 == 1
            &&& packet.sequence == bytes[16] % 32
        }),
{
    let transport = bytes[16];
    assert((transport & 0x40 != 0 <==> transport / 64 % 2 == 1) && transport & 0x1f == transport
        % 32) by (bit_vector);
}

/// What is read of each command, byte by byte: its number from the two bytes
/// past the commands before it, whatever its count, and as much data as the
/// count says. Nothing is left over.
pub proof fn lemma_what_a_command_says(bytes: Seq<u8>, at: int)
    requires
        NpduView::read(bytes) is Ok,
    ensures
        ({
            let commands = NpduView::read(bytes)->Ok_0.commands;
            let from = 17int + CommandView::total(commands.take(at));
            &&& bytes.len() == 17 + CommandView::total(commands)
            &&& 0 <= at < commands.len() ==> {
                &&& from + 3 + bytes[from + 2] <= bytes.len()
                &&& commands[at].number == 256 * bytes[from] + bytes[from + 1]
                &&& commands[at].data == bytes.subrange(from + 3, from + 3 + bytes[from + 2])
            }
        }),
{
    let packet = NpduView::read(bytes)->Ok_0;
    let commands = packet.commands;
    let tail = bytes.skip(17);
    lemma_read_run_goes_out_again(tail);
    lemma_run_length(commands);
    if 0 <= at < commands.len() {
        lemma_where_a_command_is(packet, at);
        assert(commands[at].data.len() <= u8::MAX);
        let written = packet.bytes();
        assert(written.skip(17) =~= tail);
        assert forall|i: int| 17 <= i < bytes.len() implies written[i] == bytes[i] by {
            assert(tail[i - 17] == bytes[i]);
            assert(written.skip(17)[i - 17] == written[i]);
        }
        let from = 17int + CommandView::total(commands.take(at));
        assert(bytes.subrange(from + 3, from + 3 + commands[at].data.len()) =~= written.subrange(
            from + 3,
            from + 3 + commands[at].data.len(),
        ));
    }
}

/// Commands read up to where what follows them is cut off.
proof fn lemma_run_reads_to_its_end(commands: Seq<CommandView>, tail: Seq<u8>)
    requires
        counted(commands),
        tail.len() < 3 || tail.len() < 3 + tail[2],
    ensures
        CommandView::read_run(CommandView::run(commands) + tail) == (if tail.len() == 0 {
            Ok::<Seq<CommandView>, WirelessHartError>(commands)
        } else if tail.len() < 3 {
            Err(WirelessHartError::NumberCutOff)
        } else {
            Err(WirelessHartError::DataCutOff)
        }),
    decreases commands.len(),
{
    let bytes = CommandView::run(commands) + tail;
    if commands.len() == 0 {
        assert(bytes =~= tail);
        assert(commands =~= seq![]);
    } else {
        let one = commands[0];
        let after = commands.drop_first();
        assert(counted(after)) by {
            assert forall|i: int| 0 <= i < after.len() implies (#[trigger] after[i]).data.len()
                <= u8::MAX by {
                assert(after[i] == commands[i + 1]);
            }
        }
        lemma_run_reads_to_its_end(after, tail);
        crate::bytes::lemma_split_then_join(one.number);
        assert(bytes[2] == one.data.len());
        assert(bytes.skip(3 + bytes[2]) =~= CommandView::run(after) + tail);
        assert(bytes.subrange(3, 3 + bytes[2]) =~= one.data);
        assert(seq![one] + after =~= commands);
    }
}

/// What is a packet and what is not. Whatever else its headers hold, one with
/// both control bytes zero is read: every command it holds, where nothing
/// follows them. Where something does, it is a command cut off inside its
/// number, or before its count is met.
pub proof fn lemma_what_is_a_packet(head: Seq<u8>, commands: Seq<CommandView>, tail: Seq<u8>)
    requires
        head.len() == 17,
        counted(commands),
        tail.len() < 3 || tail.len() < 3 + tail[2],
    ensures
        ({
            let read = NpduView::read(head + CommandView::run(commands) + tail);
            if head[0] != 0 || head[10] != 0 {
                read == Err::<NpduView, WirelessHartError>(WirelessHartError::UnknownControl)
            } else if tail.len() == 0 {
                read is Ok && read->Ok_0.commands == commands
            } else if tail.len() < 3 {
                read == Err::<NpduView, WirelessHartError>(WirelessHartError::NumberCutOff)
            } else {
                read == Err::<NpduView, WirelessHartError>(WirelessHartError::DataCutOff)
            }
        }),
{
    let bytes = head + CommandView::run(commands) + tail;
    lemma_run_reads_to_its_end(commands, tail);
    assert(bytes.skip(17) =~= CommandView::run(commands) + tail);
    assert(bytes[0] == head[0] && bytes[10] == head[10]);
}

/// Anything shorter than the headers is a packet cut off inside them, and
/// nothing else is.
pub proof fn lemma_headers_cut_off(bytes: Seq<u8>)
    ensures
        bytes.len() < 17 <==> NpduView::read(bytes) == Err::<NpduView, WirelessHartError>(
            WirelessHartError::PacketCutOff,
        ),
{
    lemma_run_is_never_a_packet_cut_off(bytes.skip(17));
}

/// Commands are cut off inside a number or before a count, and no other way.
proof fn lemma_run_is_never_a_packet_cut_off(bytes: Seq<u8>)
    ensures
        match CommandView::read_run(bytes) {
            Ok(_) => true,
            Err(error) => error == WirelessHartError::NumberCutOff || error
                == WirelessHartError::DataCutOff,
        },
    decreases bytes.len(),
{
    if bytes.len() >= 3 && bytes.len() >= 3 + bytes[2] {
        lemma_run_is_never_a_packet_cut_off(bytes.skip(3 + bytes[2]));
    }
}

/// A packet stamped with a slot keeps all but that and its sequence, of which
/// it takes the low five bits.
pub proof fn lemma_stamp_keeps_the_rest(packet: NpduView, asn: u16, sequence: u8)
    ensures
        ({
            let stamped = packet.in_slot(asn, sequence);
            &&& stamped.asn == asn
            &&& stamped.sequence < 32
            &&& (sequence - stamped.sequence) % 32 == 0
            &&& stamped.graph == packet.graph
            &&& stamped.destination == packet.destination
            &&& stamped.source == packet.source
            &&& stamped.response == packet.response
            &&& stamped.commands == packet.commands
        }),
{
}

/// A new packet goes where it is sent and asks what it is given, and its answer
/// goes back the way it came: a response, under the same sequence, along the
/// same graph.
pub proof fn lemma_answer_goes_back(
    packet: NpduView,
    destination: u16,
    source: u16,
    commands: Seq<CommandView>,
)
    ensures
        ({
            let asked = NpduView::request(destination, source, commands);
            let answer = packet.answered_with(commands);
            &&& asked.destination == destination
            &&& asked.source == source
            &&& asked.commands == commands
            &&& !asked.response
            &&& asked.sequence == 0 && asked.asn == 0 && asked.graph == 0
            &&& answer.destination == packet.source
            &&& answer.source == packet.destination
            &&& answer.commands == commands
            &&& answer.response
            &&& answer.sequence == packet.sequence
            &&& answer.graph == packet.graph
            &&& answer.asn == 0
        }),
{
}

/// A packet as a value has what the packet has.
pub proof fn lemma_packet_is_its_fields(packet: Npdu)
    ensures
        packet@.asn == packet.asn,
        packet@.graph == packet.graph,
        packet@.destination == packet.destination,
        packet@.source == packet.source,
        packet@.response == packet.response,
        packet@.sequence == packet.sequence,
        packet@.commands.len() == packet.commands@.len(),
        forall|i: int|
            0 <= i < packet.commands@.len() ==> (#[trigger] packet@.commands[i]).number
                == packet.commands@[i].number && packet@.commands[i].data
                == packet.commands@[i].data@,
{
}

} // verus!
