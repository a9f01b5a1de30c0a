//! The gateway's side of a radio, talking to one device: what it asks, what
//! it takes for an answer, and where what it hears came from. The radio
//! itself, and the device's commands, are the caller's.
use vstd::prelude::*;
use vstd::slice::slice_to_vec;

use crate::bytes::push_all;
use crate::dlpdu::Dlpdu;
use crate::dlpdu::DlpduView;
use crate::dlpdu::Kind;
use crate::dlpdu::GATEWAY;
use crate::error::WirelessHartError;
use crate::npdu::Command;
use crate::npdu::CommandView;
use crate::npdu::Npdu;
use crate::npdu::NpduView;
use crate::npdu::MAX_COMMAND_DATA;
use crate::tdma::Direction;
use crate::text::decimal;
use crate::text::hexadecimal;
use crate::text::parse_hexadecimal;

verus! {

/// What one chunk of a Stream carries: the most a command carries in one
/// packet, less the flags byte and, on the way back, the two status bytes.
pub const MAX_CHUNK: usize = MAX_COMMAND_DATA - 3;

/// How long to wait for a device: whole seconds, and nanoseconds past them.
#[derive(Clone, Copy, Debug, PartialEq, Eq, Structural)]
pub struct Timeout {
    pub secs: u64,
    pub nanos: u32,
}

/// The gateway's count of the packets it sends, which the sequence of each is
/// taken from.
#[derive(Debug)]
pub struct Sequence {
    next: u8,
}

impl View for Sequence {
    type V = u8;

    closed spec fn view(&self) -> u8 {
        self.next
    }
}

impl Sequence {
    /// A count at nothing sent.
    #[must_use]
    pub fn new() -> (sequence: Self)
        ensures
            sequence@ == 0,
    {
        Self { next: 0 }
    }

    /// The next sequence; past the last a byte holds, the first again.
    pub fn next_sequence(&mut self) -> (taken: u8)
        ensures
            taken == old(self)@,
            final(self)@ == (old(self)@ + 1) % 256,
    {
        let taken: u8 = self.next;
        self.next = if taken == 255 {
            0
        } else {
            taken + 1
        };
        taken
    }
}

/// The count after `sent` packets.
pub open spec fn count_after(sent: nat) -> u8
    decreases sent,
{
    if sent == 0 {
        0
    } else {
        ((count_after((sent - 1) as nat) + 1) % 256) as u8
    }
}

/// A count that goes up by one each time, from the last a byte holds to the
/// first, is how many packets were sent, as far as a byte holds it.
pub proof fn lemma_count_is_what_was_sent(sent: nat)
    ensures
        count_after(sent) == sent % 256,
    decreases sent,
{
    if sent > 0 {
        lemma_count_is_what_was_sent((sent - 1) as nat);
    }
}

/// The gateway's side of a radio, talking to one device.
#[derive(Clone, Copy, Debug)]
pub struct WirelessHartTransport {
    network: u16,
    nickname: u16,
    timeout: Timeout,
}

/// A gateway as a value.
pub struct GatewayView {
    pub network: u16,
    pub nickname: u16,
    pub timeout: Timeout,
}

impl View for WirelessHartTransport {
    type V = GatewayView;

    closed spec fn view(&self) -> GatewayView {
        GatewayView { network: self.network, nickname: self.nickname, timeout: self.timeout }
    }
}

/// `whart://<radio>/<nickname>`.
pub open spec fn origin_of(radio: Seq<char>, nickname: u16) -> Seq<char> {
    "whart://"@ + radio + "/"@ + crate::text::in_hexadecimal(nickname)
}

/// `whart://<radio>/<nickname>?command=<command>`.
pub open spec fn command_origin_of(radio: Seq<char>, nickname: u16, command: u16) -> Seq<char> {
    origin_of(radio, nickname) + "?command="@ + crate::text::in_decimal(command as nat)
}

/// What the device published: where it came from, and the command's data,
/// status bytes first.
#[derive(Debug)]
pub struct Published {
    pub origin_uri: String,
    pub answer: Vec<u8>,
}

/// What was published as a value.
pub struct PublishedView {
    pub origin_uri: Seq<char>,
    pub answer: Seq<u8>,
}

impl View for Published {
    type V = PublishedView;

    open spec fn view(&self) -> PublishedView {
        PublishedView { origin_uri: self.origin_uri@, answer: self.answer@ }
    }
}

/// A whole Stream, and where it came from.
#[derive(Debug)]
pub struct Arrived {
    pub origin_uri: String,
    pub bytes: Vec<u8>,
}

/// A whole Stream as a value.
pub struct ArrivedView {
    pub origin_uri: Seq<char>,
    pub bytes: Seq<u8>,
}

impl View for Arrived {
    type V = ArrivedView;

    open spec fn view(&self) -> ArrivedView {
        ArrivedView { origin_uri: self.origin_uri@, bytes: self.bytes@ }
    }
}

/// What has been read of a Stream: how many chunks, and their bytes.
#[derive(Debug)]
pub struct StreamSoFar {
    chunks: u32,
    bytes: Vec<u8>,
}

/// What has been read of a Stream as a value.
#[verifier::ext_equal]
pub struct StreamSoFarView {
    pub chunks: u32,
    pub bytes: Seq<u8>,
}

impl View for StreamSoFar {
    type V = StreamSoFarView;

    closed spec fn view(&self) -> StreamSoFarView {
        StreamSoFarView { chunks: self.chunks, bytes: self.bytes@ }
    }
}

impl StreamSoFar {
    /// More chunks can be asked for.
    #[verifier::type_invariant]
    spec fn unfinished(self) -> bool {
        self.chunks < u32::MAX
    }

    /// Nothing read yet.
    #[must_use]
    pub fn new() -> (so_far: Self)
        ensures
            so_far@ == (StreamSoFarView { chunks: 0, bytes: seq![] }),
    {
        let so_far = Self { chunks: 0, bytes: Vec::new() };
        assert(so_far@ =~= (StreamSoFarView { chunks: 0, bytes: seq![] }));
        so_far
    }

    /// The chunk to ask for next.
    #[must_use]
    pub fn index(&self) -> (index: u32)
        ensures
            index == self@.chunks,
            index < u32::MAX,
    {
        proof {
            use_type_invariant(self);
        }
        self.chunks
    }
}

impl StreamSoFarView {
    /// With one more chunk, not the last.
    pub open spec fn and(self, chunk: Seq<u8>) -> StreamSoFarView {
        StreamSoFarView { chunks: (self.chunks + 1) as u32, bytes: self.bytes + chunk }
    }

    /// With one more chunk, the last or not: a Stream may have as many chunks
    /// as can be counted.
    pub open spec fn taking(self, last: bool, chunk: Seq<u8>) -> Result<
        StreamReadView,
        WirelessHartError,
    > {
        if last {
            Ok(StreamReadView::Whole(self.bytes + chunk))
        } else if self.chunks + 1 < u32::MAX {
            Ok(StreamReadView::Unfinished(self.and(chunk)))
        } else {
            Err(WirelessHartError::Endless)
        }
    }

    /// With every one of `chunks`, none of them the last.
    pub open spec fn and_all(self, chunks: Seq<Seq<u8>>) -> StreamSoFarView
        decreases chunks.len(),
    {
        if chunks.len() == 0 {
            self
        } else {
            self.and_all(chunks.drop_last()).and(chunks.last())
        }
    }
}

/// Where a read has got to as a value.
pub enum StreamReadView {
    Unfinished(StreamSoFarView),
    Whole(Seq<u8>),
}

/// Where a read has got to with one more chunk.
#[derive(Debug)]
pub enum StreamRead {
    /// There are chunks to come.
    Unfinished(StreamSoFar),
    /// The whole Stream.
    Whole(Arrived),
}

/// A request on the air: what an answer to it looks like.
#[derive(Clone, Copy, Debug)]
pub struct Exchange {
    pub command: u16,
    pub sequence: u8,
}

impl GatewayView {
    /// The packet a request goes in.
    pub open spec fn request_packet(
        self,
        sequence: u8,
        command: u16,
        data: Seq<u8>,
    ) -> NpduView {
        NpduView::request(
            self.nickname,
            GATEWAY,
            seq![CommandView { number: command, data }],
        ).in_slot(0, sequence)
    }

    /// The DLPDU that packet goes in.
    pub open spec fn request_dlpdu(self, sequence: u8, command: u16, data: Seq<u8>) -> DlpduView {
        DlpduView {
            kind: Kind::Data,
            sequence,
            network: self.network,
            destination: self.nickname,
            source: GATEWAY,
            payload: self.request_packet(sequence, command, data).bytes(),
        }
    }
}

/// What a frame the radio heard says was published, or why it says nothing.
pub open spec fn published_in(radio: Seq<char>, frame: Seq<u8>) -> Result<
    PublishedView,
    WirelessHartError,
> {
    match DlpduView::read(frame) {
        Err(error) => Err(error),
        Ok(dlpdu) => match NpduView::read(dlpdu.payload) {
            Err(error) => Err(error),
            Ok(packet) => if packet.commands.len() == 0 {
                Err(WirelessHartError::NoCommand)
            } else {
                Ok(
                    PublishedView {
                        origin_uri: command_origin_of(
                            radio,
                            dlpdu.source,
                            packet.commands[0].number,
                        ) + "&asn="@ + crate::text::in_decimal(packet.asn as nat),
                        answer: packet.commands[0].data,
                    },
                )
            },
        },
    }
}

impl Exchange {
    /// What `received` makes of the exchange: the data of the answer, nothing
    /// yet, or why there will be none. A packet that is no response, or one
    /// to another sequence, is passed over.
    pub open spec fn outcome(self, received: Option<Seq<u8>>) -> Result<
        Option<Seq<u8>>,
        WirelessHartError,
    > {
        match received {
            None => Err(WirelessHartError::NoAnswer),
            Some(frame) => match DlpduView::read(frame) {
                Err(error) => Err(error),
                Ok(dlpdu) => match NpduView::read(dlpdu.payload) {
                    Err(error) => Err(error),
                    Ok(packet) => if !packet.response || packet.sequence != self.sequence {
                        Ok(None)
                    } else {
                        match CommandView::first(packet.commands, self.command) {
                            Some(answer) => Ok(Some(answer.data)),
                            None => Err(WirelessHartError::OtherCommand),
                        }
                    },
                },
            },
        }
    }

    /// Which way the request's slot is linked: a gateway transmits in up
    /// slots.
    #[must_use]
    pub fn direction(&self) -> (direction: Direction)
        ensures
            direction == Direction::Up,
    {
        Direction::Up
    }

    /// Take what the radio received, or that it received nothing in time:
    /// the data of the answer, status bytes first, or `None` to listen on.
    ///
    /// # Errors
    /// No answer in time, something that is not a packet, or an answer to
    /// something else.
    pub fn hear(&self, received: Option<&[u8]>) -> (heard: Result<
        Option<Vec<u8>>,
        WirelessHartError,
    >)
        ensures
            ({
                let outcome = self.outcome(
                    match received {
                        Some(frame) => Some(frame@),
                        None => None,
                    },
                );
                match heard {
                    Ok(Some(answer)) => outcome == Ok::<Option<Seq<u8>>, WirelessHartError>(
                        Some(answer@),
                    ),
                    Ok(None) => outcome == Ok::<Option<Seq<u8>>, WirelessHartError>(None),
                    Err(error) => outcome == Err::<Option<Seq<u8>>, WirelessHartError>(error),
                }
            }),
    {
        let frame = match received {
            Some(frame) => frame,
            None => {
                return Err(WirelessHartError::NoAnswer);
            },
        };
        let dlpdu = match Dlpdu::decode(frame) {
            Ok(dlpdu) => dlpdu,
            Err(error) => {
                return Err(error);
            },
        };
        let packet = match Npdu::decode(dlpdu.payload.as_slice()) {
            Ok(packet) => packet,
            Err(error) => {
                return Err(error);
            },
        };
        if !packet.response || packet.sequence != self.sequence {
            return Ok(None);
        }
        let ghost all = packet@.commands;
        let mut at: usize = 0;
        assert(all.skip(0) =~= all);
        while at < packet.commands.len()
            invariant
                at <= packet.commands@.len(),
                all == crate::npdu::commands_view(packet.commands@),
                CommandView::first(all, self.command) == CommandView::first(
                    all.skip(at as int),
                    self.command,
                ),
                self.outcome(Some(frame@)) == (match CommandView::first(all, self.command) {
                    Some(answer) => Ok::<Option<Seq<u8>>, WirelessHartError>(Some(answer.data)),
                    None => Err(WirelessHartError::OtherCommand),
                }),
                received == Some(frame),
            decreases packet.commands@.len() - at,
        {
            assert(all.skip(at as int)[0] == packet.commands@[at as int]@);
            assert(all.skip(at as int).drop_first() =~= all.skip(at + 1));
            if packet.commands[at].number == self.command {
                return Ok(Some(slice_to_vec(packet.commands[at].data.as_slice())));
            }
            at = at + 1;
        }
        Err(WirelessHartError::OtherCommand)
    }
}

impl WirelessHartTransport {
    /// A gateway talking to the device at `nickname` on network `network`,
    /// waiting a second for it.
    #[must_use]
    pub fn new(network: u16, nickname: u16) -> (gateway: Self)
        ensures
            gateway@ == (GatewayView { network, nickname, timeout: Timeout { secs: 1, nanos: 0 } }),
    {
        Self { network, nickname, timeout: Timeout { secs: 1, nanos: 0 } }
    }

    /// Give up on a device that does not answer within `timeout`.
    #[must_use]
    pub fn timing_out_after(self, timeout: Timeout) -> (gateway: Self)
        ensures
            gateway@ == (GatewayView { timeout, ..self@ }),
    {
        Self { network: self.network, nickname: self.nickname, timeout }
    }

    /// The device the gateway talks to.
    #[must_use]
    pub fn nickname(&self) -> (nickname: u16)
        ensures
            nickname == self@.nickname,
    {
        self.nickname
    }

    /// How long the gateway waits for it.
    #[must_use]
    pub fn timeout(&self) -> (timeout: Timeout)
        ensures
            timeout == self@.timeout,
    {
        self.timeout
    }

    /// `whart://<radio>/<nickname>`.
    #[must_use]
    pub fn origin(&self, radio: &str, nickname: u16) -> (origin: String)
        ensures
            origin@ == origin_of(radio@, nickname),
    {
        let mut origin = "whart://".to_string();
        origin.append(radio);
        origin.append("/");
        origin.append(hexadecimal(nickname).as_str());
        origin
    }

    /// `whart://<radio>/<nickname>?command=<command>`.
    fn command_origin(&self, radio: &str, nickname: u16, command: u16) -> (origin: String)
        ensures
            origin@ == command_origin_of(radio@, nickname, command),
    {
        let mut origin = self.origin(radio, nickname);
        origin.append("?command=");
        origin.append(decimal(command).as_str());
        origin
    }

    /// Ask the device `command` with `data`: the frame to transmit, and the
    /// exchange that takes what is received after it. The sequence is spent
    /// whether or not there is a frame.
    ///
    /// # Errors
    /// Data over what one command carries.
    pub fn request(&self, sequence: &mut Sequence, command: u16, data: &[u8]) -> (asked: Result<
        (Exchange, Vec<u8>),
        WirelessHartError,
    >)
        ensures
            final(sequence)@ == (old(sequence)@ + 1) % 256,
            match asked {
                Ok((exchange, frame)) => data@.len() <= MAX_COMMAND_DATA && exchange == (Exchange {
                    command,
                    sequence: (old(sequence)@ % 32) as u8,
                }) && frame@ == self@.request_dlpdu(old(sequence)@, command, data@).frame(),
                Err(error) => data@.len() > MAX_COMMAND_DATA && error
                    == WirelessHartError::TooManyCommands,
            },
            asked is Ok <==> data@.len() <= 83,
    {
        let taken: u8 = sequence.next_sequence();
        let asked = Command { number: command, data: slice_to_vec(data) };
        let mut commands: Vec<Command> = Vec::new();
        commands.push(asked);
        proof {
            let one = seq![CommandView { number: command, data: data@ }];
            assert(crate::npdu::commands_view(commands@) =~= one);
            crate::npdu::lemma_one_command_total(one[0]);
        }
        let packet = match Npdu::new(self.nickname, GATEWAY, commands) {
            Ok(packet) => packet.in_slot(0, taken),
            Err(error) => {
                return Err(error);
            },
        };
        proof {
            crate::npdu::lemma_packet_length(packet@);
        }
        let payload = packet.encode();
        let dlpdu = match Dlpdu::new(
            Kind::Data,
            taken,
            self.network,
            self.nickname,
            GATEWAY,
            payload.as_slice(),
        ) {
            Ok(dlpdu) => dlpdu,
            Err(error) => {
                return Err(error);
            },
        };
        Ok((Exchange { command, sequence: packet.sequence }, dlpdu.encode()))
    }

    /// Write a Stream to the device, a request at a time: the frame of the
    /// request that comes after the `sent` ones, with its exchange, or `None`
    /// once all are sent.
    ///
    /// # Errors
    /// As [`Self::request`].
    pub fn write_stream(
        &self,
        sequence: &mut Sequence,
        command: u16,
        requests: &Vec<Vec<u8>>,
        sent: usize,
    ) -> (asked: Result<Option<(Exchange, Vec<u8>)>, WirelessHartError>)
        ensures
            sent >= requests@.len() ==> final(sequence)@ == old(sequence)@ && asked matches Ok(
                None,
            ),
            sent < requests@.len() ==> final(sequence)@ == (old(sequence)@ + 1) % 256
                && match asked {
                Ok(Some((exchange, frame))) => {
                    let data = requests@[sent as int]@;
                    &&& data.len() <= MAX_COMMAND_DATA
                    &&& exchange == (Exchange {
                        command,
                        sequence: (old(sequence)@ % 32) as u8,
                    })
                    &&& frame@ == self@.request_dlpdu(old(sequence)@, command, data).frame()
                },
                Ok(None) => false,
                Err(error) => requests@[sent as int]@.len() > MAX_COMMAND_DATA && error
                    == WirelessHartError::TooManyCommands,
            },
    {
        if sent >= requests.len() {
            return Ok(None);
        }
        match self.request(sequence, command, requests[sent].as_slice()) {
            Ok(asked) => Ok(Some(asked)),
            Err(error) => Err(error),
        }
    }

    /// Read the Stream the device holds, a chunk at a time: what was read
    /// before, with the next `chunk` after it, and whether that is the last.
    /// The Stream's origin names the `command` that read it.
    ///
    /// # Errors
    /// A device that never says "last".
    pub fn read_stream(
        &self,
        radio: &str,
        command: u16,
        so_far: StreamSoFar,
        last: bool,
        chunk: &[u8],
    ) -> (read: Result<StreamRead, WirelessHartError>)
        ensures
            match read {
                Ok(StreamRead::Whole(arrived)) => so_far@.taking(last, chunk@) == Ok::<
                    StreamReadView,
                    WirelessHartError,
                >(StreamReadView::Whole(arrived@.bytes)) && arrived@.origin_uri
                    == command_origin_of(radio@, self@.nickname, command),
                Ok(StreamRead::Unfinished(more)) => so_far@.taking(last, chunk@) == Ok::<
                    StreamReadView,
                    WirelessHartError,
                >(StreamReadView::Unfinished(more@)),
                Err(error) => so_far@.taking(last, chunk@) == Err::<
                    StreamReadView,
                    WirelessHartError,
                >(error),
            },
    {
        proof {
            use_type_invariant(&so_far);
        }
        let chunks: u32 = so_far.chunks;
        let mut bytes = so_far.bytes;
        push_all(&mut bytes, chunk);
        if last {
            let origin_uri = self.command_origin(radio, self.nickname, command);
            return Ok(StreamRead::Whole(Arrived { origin_uri, bytes }));
        }
        if chunks + 1 == u32::MAX {
            return Err(WirelessHartError::Endless);
        }
        Ok(StreamRead::Unfinished(StreamSoFar { chunks: chunks + 1, bytes }))
    }

    /// What a device published, in the frame the radio received, or `None`
    /// when the air is quiet.
    ///
    /// # Errors
    /// Where the frame is not a packet, or a packet with no command.
    pub fn receive_one(&self, radio: &str, received: Option<&[u8]>) -> (taken: Result<
        Option<Published>,
        WirelessHartError,
    >)
        ensures
            match received {
                None => taken matches Ok(None),
                Some(frame) => match taken {
                    Ok(Some(published)) => published_in(radio@, frame@) == Ok::<
                        PublishedView,
                        WirelessHartError,
                    >(published@),
                    Ok(None) => false,
                    Err(error) => published_in(radio@, frame@) == Err::<
                        PublishedView,
                        WirelessHartError,
                    >(error),
                },
            },
    {
        let frame = match received {
            Some(frame) => frame,
            None => {
                return Ok(None);
            },
        };
        let dlpdu = match Dlpdu::decode(frame) {
            Ok(dlpdu) => dlpdu,
            Err(error) => {
                return Err(error);
            },
        };
        let packet = match Npdu::decode(dlpdu.payload.as_slice()) {
            Ok(packet) => packet,
            Err(error) => {
                return Err(error);
            },
        };
        if packet.commands.len() == 0 {
            return Err(WirelessHartError::NoCommand);
        }
        let command = &packet.commands[0];
        assert(packet@.commands[0] == command@);
        let mut origin_uri = self.command_origin(radio, dlpdu.source, command.number);
        origin_uri.append("&asn=");
        origin_uri.append(decimal(packet.asn).as_str());
        Ok(Some(Published { origin_uri, answer: slice_to_vec(command.data.as_slice()) }))
    }

    /// The gateway a Stream is sent through, and its own count: the device
    /// `named`, where the target names one, or this gateway's.
    ///
    /// # Errors
    /// A name that is not a nickname.
    pub fn sender(&self, named: Option<&str>) -> (sender: Result<
        (Self, Sequence),
        WirelessHartError,
    >)
        ensures
            ({
                let nickname = match named {
                    Some(name) => if name@.len() > 0 {
                        crate::text::named_number(name@)
                    } else {
                        Some(self@.nickname)
                    },
                    None => Some(self@.nickname),
                };
                match sender {
                    Ok((gateway, sequence)) => nickname == Some(gateway@.nickname)
                        && gateway@.network == self@.network && gateway@.timeout == self@.timeout
                        && sequence@ == 0,
                    Err(error) => nickname is None && error == WirelessHartError::NotANickname,
                }
            }),
    {
        let nickname: u16 = match named {
            Some(name) => if name.unicode_len() > 0 {
                match parse_hexadecimal(name) {
                    Some(nickname) => nickname,
                    None => {
                        return Err(WirelessHartError::NotANickname);
                    },
                }
            } else {
                self.nickname
            },
            None => self.nickname,
        };
        Ok((Self { network: self.network, nickname, timeout: self.timeout }, Sequence::new()))
    }
}

/// A Stream read in chunks is those chunks one after another, and as many of
/// them were read.
pub proof fn lemma_chunks_are_joined(chunks: Seq<Seq<u8>>)
    requires
        chunks.len() < u32::MAX,
    ensures
        ({
            let nothing = StreamSoFarView { chunks: 0, bytes: seq![] };
            nothing.and_all(chunks) == StreamSoFarView {
                chunks: chunks.len() as u32,
                bytes: chunks.flatten(),
            }
        }),
    decreases chunks.len(),
{
    let nothing = StreamSoFarView { chunks: 0, bytes: seq![] };
    chunks.lemma_flatten_and_flatten_alt_are_equivalent();
    if chunks.len() == 0 {
        assert(nothing.and_all(chunks) =~= StreamSoFarView { chunks: 0, bytes: chunks.flatten() });
    } else {
        lemma_chunks_are_joined(chunks.drop_last());
        chunks.drop_last().lemma_flatten_and_flatten_alt_are_equivalent();
        assert(nothing.and_all(chunks) =~= StreamSoFarView {
            chunks: chunks.len() as u32,
            bytes: chunks.flatten(),
        });
    }
}

/// A chunk goes in one packet both ways: under its flags byte on the way out,
/// and under two status bytes and its flags byte on the way back.
pub proof fn lemma_chunk_goes_in_one_packet(
    command: u16,
    status: Seq<u8>,
    flags: u8,
    chunk: Seq<u8>,
)
    requires
        status.len() == 2,
        chunk.len() <= MAX_CHUNK,
    ensures
        CommandView::total(seq![CommandView { number: command, data: seq![flags] + chunk }])
            <= crate::npdu::MAX_COMMANDS,
        CommandView::total(
            seq![CommandView { number: command, data: status + seq![flags] + chunk }],
        ) <= crate::npdu::MAX_COMMANDS,
{
    crate::npdu::lemma_one_command_total(CommandView { number: command, data: seq![flags] + chunk });
    crate::npdu::lemma_one_command_total(CommandView { number: command, data: status + seq![flags] + chunk });
}

/// An origin ends in its device: the last four characters name the nickname.
pub proof fn lemma_origin_names_the_device(radio: Seq<char>, nickname: u16)
    ensures
        ({
            let origin = origin_of(radio, nickname);
            crate::text::named_number(origin.skip(origin.len() - 4)) == Some(nickname)
        }),
{
    let origin = origin_of(radio, nickname);
    assert(origin.skip(origin.len() - 4) =~= crate::text::in_hexadecimal(nickname));
    crate::text::lemma_hexadecimal_reads_back(nickname);
}

/// A request is a data DLPDU on the gateway's network, to its device, from the
/// gateway. Its payload has, byte by byte, an acknowledged request in no slot
/// yet, between the same two, with the one command.
pub proof fn lemma_where_a_request_is(
    gateway: GatewayView,
    sequence: u8,
    command: u16,
    data: Seq<u8>,
)
    requires
        data.len() <= 83,
    ensures
        ({
            let dlpdu = gateway.request_dlpdu(sequence, command, data);
            let payload = dlpdu.payload;
            &&& dlpdu.kind == Kind::Data
            &&& dlpdu.sequence == sequence
            &&& dlpdu.network == gateway.network
            &&& dlpdu.destination == gateway.nickname
            &&& dlpdu.source == 0xf981
            &&& payload.len() == 20 + data.len()
            &&& payload[0] == 0 && payload[1] == 0x20
            &&& payload[2] == 0 && payload[3] == 0 && payload[4] == 0 && payload[5] == 0
            &&& 256 * payload[6] + payload[7] == gateway.nickname
            &&& payload[8] == 0xf9 && payload[9] == 0x81
            &&& payload[10] == 0 && payload[11] == sequence % 32
            &&& payload[12] == 0 && payload[13] == 0 && payload[14] == 0 && payload[15] == 0
            &&& payload[16] == 0x80 + sequence % 32
            &&& 256 * payload[17] + payload[18] == command
            &&& payload[19] == data.len()
            &&& payload.skip(20) == data
        }),
{
    let packet = gateway.request_packet(sequence, command, data);
    crate::npdu::lemma_where_the_headers_are(packet);
    crate::npdu::lemma_where_a_lone_command_is(packet);
}

/// What an exchange makes of what is received. Silence and what is no packet
/// fail it. A packet that is no response, or is under another sequence, is
/// passed over. Of a response under its own, it takes all the data of the
/// first command with the number asked, wherever that stands, and fails where
/// there is none.
pub proof fn lemma_what_an_exchange_takes(exchange: Exchange, frame: Seq<u8>, at: int)
    ensures
        exchange.outcome(None) == Err::<Option<Seq<u8>>, WirelessHartError>(
            WirelessHartError::NoAnswer,
        ),
        ({
            let outcome = exchange.outcome(Some(frame));
            match DlpduView::read(frame) {
                Err(error) => outcome == Err::<Option<Seq<u8>>, WirelessHartError>(error),
                Ok(dlpdu) => match NpduView::read(dlpdu.payload) {
                    Err(error) => outcome == Err::<Option<Seq<u8>>, WirelessHartError>(error),
                    Ok(packet) => {
                        let mine = packet.response && packet.sequence == exchange.sequence;
                        let commands = packet.commands;
                        &&& !mine <==> outcome == Ok::<Option<Seq<u8>>, WirelessHartError>(None)
                        &&& mine && 0 <= at < commands.len() && commands[at].number
                            == exchange.command && (forall|i: int|
                            0 <= i < at ==> (#[trigger] commands[i]).number != exchange.command)
                            ==> outcome == Ok::<Option<Seq<u8>>, WirelessHartError>(
                            Some(commands[at].data),
                        )
                        &&& mine && (forall|i: int|
                            0 <= i < commands.len() ==> (#[trigger] commands[i]).number
                                != exchange.command) <==> outcome == Err::<
                            Option<Seq<u8>>,
                            WirelessHartError,
                        >(WirelessHartError::OtherCommand)
                    },
                },
            }
        }),
{
    if let Ok(dlpdu) = DlpduView::read(frame) {
        if let Ok(packet) = NpduView::read(dlpdu.payload) {
            lemma_first_is_the_first(packet.commands, exchange.command, at);
        }
    }
}

/// The first command with a number is one with none such before it.
proof fn lemma_first_is_the_first(commands: Seq<CommandView>, number: u16, at: int)
    ensures
        0 <= at < commands.len() && commands[at].number == number && (forall|i: int|
            0 <= i < at ==> (#[trigger] commands[i]).number != number) ==> CommandView::first(
            commands,
            number,
        ) == Some(commands[at]),
        CommandView::first(commands, number) is None <==> forall|i: int|
            0 <= i < commands.len() ==> (#[trigger] commands[i]).number != number,
    decreases commands.len(),
{
    if commands.len() > 0 {
        let rest = commands.drop_first();
        lemma_first_is_the_first(rest, number, at - 1);
        assert forall|i: int| 0 <= i < rest.len() implies #[trigger] rest[i] == commands[i + 1] by {
        }
        if forall|i: int| 0 <= i < rest.len() ==> (#[trigger] rest[i]).number != number {
            assert forall|i: int|
                0 <= i < commands.len() && commands[0].number != number implies (
            #[trigger] commands[i]).number != number by {
                if i > 0 {
                    assert(rest[i - 1] == commands[i]);
                }
            }
        }
    }
}

/// An origin is spelled out: the scheme, the radio, the device in four
/// hexadecimal digits, and the command in decimal.
pub proof fn lemma_origin_is_spelled_out(radio: Seq<char>, nickname: u16, command: u16)
    ensures
        origin_of(radio, nickname) == "whart://"@ + radio + "/"@ + crate::text::in_hexadecimal(
            nickname,
        ),
        command_origin_of(radio, nickname, command) == "whart://"@ + radio + "/"@
            + crate::text::in_hexadecimal(nickname) + "?command="@ + crate::text::in_decimal(
            command as nat,
        ),
{
}

/// What a frame says was published: all the data of its first command, from
/// the device the DLPDU is from, under that command's number and the packet's
/// slot, whatever commands follow. What is no packet, or holds no command, says
/// nothing.
pub proof fn lemma_what_was_published(radio: Seq<char>, frame: Seq<u8>)
    ensures
        ({
            let published = published_in(radio, frame);
            match DlpduView::read(frame) {
                Err(error) => published == Err::<PublishedView, WirelessHartError>(error),
                Ok(dlpdu) => match NpduView::read(dlpdu.payload) {
                    Err(error) => published == Err::<PublishedView, WirelessHartError>(error),
                    Ok(packet) => {
                        &&& packet.commands.len() == 0 <==> published == Err::<
                            PublishedView,
                            WirelessHartError,
                        >(WirelessHartError::NoCommand)
                        &&& packet.commands.len() > 0 ==> {
                            &&& published is Ok
                            &&& published->Ok_0.answer == packet.commands[0].data
                            &&& published->Ok_0.origin_uri == "whart://"@ + radio + "/"@
                                + crate::text::in_hexadecimal(dlpdu.source) + "?command="@
                                + crate::text::in_decimal(packet.commands[0].number as nat)
                                + "&asn="@ + crate::text::in_decimal(packet.asn as nat)
                        }
                    },
                },
            }
        }),
{
}

/// Two numbers in decimal with a sign between them are told from any other
/// two.
proof fn lemma_decimals_tell_apart(
    first: nat,
    second: nat,
    other_first: nat,
    other_second: nat,
)
    requires
        crate::text::in_decimal(first) + "&asn="@ + crate::text::in_decimal(second)
            == crate::text::in_decimal(other_first) + "&asn="@ + crate::text::in_decimal(
            other_second,
        ),
    ensures
        first == other_first,
        second == other_second,
{
    reveal_strlit("&asn=");
    let a = crate::text::in_decimal(first);
    let b = crate::text::in_decimal(other_first);
    let left = a + "&asn="@ + crate::text::in_decimal(second);
    let right = b + "&asn="@ + crate::text::in_decimal(other_second);
    crate::text::lemma_decimal_reads_back(first);
    crate::text::lemma_decimal_reads_back(other_first);
    assert(left[a.len() as int] == '&');
    assert(right[b.len() as int] == '&');
    if a.len() < b.len() {
        assert(right[a.len() as int] == b[a.len() as int]);
    }
    if b.len() < a.len() {
        assert(left[b.len() as int] == a[b.len() as int]);
    }
    assert(a =~= left.take(a.len() as int));
    assert(b =~= right.take(b.len() as int));
    assert(crate::text::in_decimal(second) =~= left.skip(a.len() + 5int));
    assert(crate::text::in_decimal(other_second) =~= right.skip(b.len() + 5int));
    if first != other_first {
        crate::text::lemma_decimal_tells_apart(first, other_first);
    }
    if second != other_second {
        crate::text::lemma_decimal_tells_apart(second, other_second);
    }
}

/// Publications that differ in their device, their command or their slot have
/// different origins.
pub proof fn lemma_origins_tell_apart(radio: Seq<char>, frame: Seq<u8>, other: Seq<u8>)
    requires
        published_in(radio, frame) is Ok,
        published_in(radio, other) is Ok,
        published_in(radio, frame)->Ok_0.origin_uri == published_in(radio, other)->Ok_0.origin_uri,
    ensures
        ({
            let dlpdu = DlpduView::read(frame)->Ok_0;
            let packet = NpduView::read(dlpdu.payload)->Ok_0;
            let other_dlpdu = DlpduView::read(other)->Ok_0;
            let other_packet = NpduView::read(other_dlpdu.payload)->Ok_0;
            &&& dlpdu.source == other_dlpdu.source
            &&& packet.commands[0].number == other_packet.commands[0].number
            &&& packet.asn == other_packet.asn
        }),
{
    let dlpdu = DlpduView::read(frame)->Ok_0;
    let packet = NpduView::read(dlpdu.payload)->Ok_0;
    let other_dlpdu = DlpduView::read(other)->Ok_0;
    let other_packet = NpduView::read(other_dlpdu.payload)->Ok_0;
    let one = published_in(radio, frame)->Ok_0.origin_uri;
    let before = ("whart://"@ + radio + "/"@).len() as int;
    let tail = before + 4 + "?command="@.len();
    lemma_what_was_published(radio, frame);
    lemma_what_was_published(radio, other);
    let mine = crate::text::in_hexadecimal(dlpdu.source);
    let theirs = crate::text::in_hexadecimal(other_dlpdu.source);
    assert(one.subrange(before, before + 4) =~= mine);
    assert(one.subrange(before, before + 4) =~= theirs);
    crate::text::lemma_hexadecimal_reads_back(dlpdu.source);
    crate::text::lemma_hexadecimal_reads_back(other_dlpdu.source);
    assert(one.skip(tail) =~= crate::text::in_decimal(packet.commands[0].number as nat) + "&asn="@
        + crate::text::in_decimal(packet.asn as nat));
    assert(one.skip(tail) =~= crate::text::in_decimal(other_packet.commands[0].number as nat)
        + "&asn="@ + crate::text::in_decimal(other_packet.asn as nat));
    lemma_decimals_tell_apart(
        packet.commands[0].number as nat,
        packet.asn as nat,
        other_packet.commands[0].number as nat,
        other_packet.asn as nat,
    );
}

/// A chunk goes on the end of what was read before it: the last makes the
/// Stream whole, however many went before, and any other is counted, until one
/// more could not be.
pub proof fn lemma_chunk_goes_on_the_end(so_far: StreamSoFarView, chunk: Seq<u8>)
    requires
        so_far.chunks < u32::MAX,
    ensures
        so_far.taking(true, chunk) == Ok::<StreamReadView, WirelessHartError>(
            StreamReadView::Whole(so_far.bytes + chunk),
        ),
        so_far.chunks < u32::MAX - 1 ==> {
            let taken = so_far.taking(false, chunk);
            &&& taken is Ok
            &&& taken->Ok_0 is Unfinished
            &&& taken->Ok_0->Unfinished_0.chunks == so_far.chunks + 1
            &&& taken->Ok_0->Unfinished_0.bytes == so_far.bytes + chunk
        },
        so_far.chunks == u32::MAX - 1 ==> so_far.taking(false, chunk) == Err::<
            StreamReadView,
            WirelessHartError,
        >(WirelessHartError::Endless),
{
}

/// What was published and what has arrived, as values, are what they hold.
pub proof fn lemma_streams_are_their_fields(published: Published, arrived: Arrived)
    ensures
        published@.origin_uri == published.origin_uri@,
        published@.answer == published.answer@,
        arrived@.origin_uri == arrived.origin_uri@,
        arrived@.bytes == arrived.bytes@,
{
}

} // verus!
