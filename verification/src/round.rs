//! A Stream there and back: written to a device a request at a time, and read
//! from it a chunk at a time, over the air between them.
//!
//! How a Stream is cut into requests, and what a device's answers mean, is
//! not settled here: what is said holds of any device that keeps the Streams
//! it is given.
use vstd::prelude::*;

use crate::error::WirelessHartError;
use crate::gateway::GatewayView;
use crate::gateway::StreamReadView;
use crate::gateway::StreamSoFarView;
use crate::loopback::RadioView;
use crate::npdu::CommandView;
use crate::npdu::MAX_COMMAND_DATA;

verus! {

/// A device and the commands a Stream is written and read with.
#[verifier::reject_recursive_types(S)]
pub struct StreamDevice<S> {
    /// The device's next state, and the data it answers a command with.
    pub answer: spec_fn(S, CommandView) -> (S, Seq<u8>),
    /// The commands that write a Stream.
    pub writes: spec_fn(Seq<u8>) -> Seq<CommandView>,
    /// Whether an answer says that a write was done.
    pub accepted: spec_fn(Seq<u8>) -> bool,
    /// The command that reads a chunk, by its place.
    pub reads: spec_fn(nat) -> CommandView,
    /// What an answer says was read: whether the chunk is the last, and its
    /// bytes.
    pub chunk: spec_fn(Seq<u8>) -> Option<(bool, Seq<u8>)>,
}

/// Nothing read yet.
pub open spec fn nothing_read() -> StreamSoFarView {
    StreamSoFarView { chunks: 0, bytes: seq![] }
}

impl<S> StreamDevice<S> {
    /// Whether a command and what the device answers it with each go in one
    /// packet.
    pub open spec fn goes_in_one_packet(self, state: S, command: CommandView) -> bool {
        command.data.len() <= MAX_COMMAND_DATA && (self.answer)(state, command).1.len()
            <= MAX_COMMAND_DATA
    }

    /// Whether the device, asked directly, does every one of `writes`.
    pub open spec fn does(self, state: S, writes: Seq<CommandView>) -> bool
        decreases writes.len(),
    {
        writes.len() == 0 || {
            let (next, answer) = (self.answer)(state, writes[0]);
            &&& self.goes_in_one_packet(state, writes[0])
            &&& (self.accepted)(answer)
            &&& self.does(next, writes.drop_first())
        }
    }

    /// The device's state after `writes`.
    pub open spec fn written(self, state: S, writes: Seq<CommandView>) -> S {
        crate::exchange::answers_of(self.answer, state, writes).0
    }

    /// The commands that read `count` chunks from place `place` on.
    pub open spec fn asked_for(self, place: nat, count: nat) -> Seq<CommandView> {
        Seq::new(count, |i: int| (self.reads)((place + i) as nat))
    }

    /// Whether the device, asked directly from place `place` on, hands out
    /// `chunks`, with the last of them, and no other, marked as the last.
    pub open spec fn hands_out(self, state: S, place: nat, chunks: Seq<Seq<u8>>) -> bool
        decreases chunks.len(),
    {
        chunks.len() > 0 && {
            let command = (self.reads)(place);
            let (next, answer) = (self.answer)(state, command);
            &&& self.goes_in_one_packet(state, command)
            &&& (self.chunk)(answer) == Some((chunks.len() == 1, chunks[0]))
            &&& chunks.len() > 1 ==> self.hands_out(next, place + 1, chunks.drop_first())
        }
    }

    /// Whether the device, asked directly, keeps `payload`: it does what
    /// writes it, and then hands it out in `chunks`, no more of them than can
    /// be counted.
    pub open spec fn keeps_in(self, state: S, payload: Seq<u8>, chunks: Seq<Seq<u8>>) -> bool {
        let writes = (self.writes)(payload);
        &&& self.does(state, writes)
        &&& self.hands_out(self.written(state, writes), 0, chunks)
        &&& chunks.len() <= u32::MAX
        &&& chunks.flatten() == payload
    }

    /// The device's state after `payload` is written and read out in `count`
    /// chunks.
    pub open spec fn read_out(self, state: S, payload: Seq<u8>, count: nat) -> S {
        let written = self.written(state, (self.writes)(payload));
        crate::exchange::answers_of(self.answer, written, self.asked_for(0, count)).0
    }

    /// Whether the device, asked directly, keeps each of `payloads` after
    /// those before it, and hands it out in the chunks at its place in
    /// `chunks`.
    pub open spec fn keeps_each(
        self,
        state: S,
        payloads: Seq<Seq<u8>>,
        chunks: Seq<Seq<Seq<u8>>>,
    ) -> bool
        decreases payloads.len(),
    {
        &&& payloads.len() == chunks.len()
        &&& payloads.len() > 0 ==> {
            &&& self.keeps_in(state, payloads[0], chunks[0])
            &&& self.keeps_each(
                self.read_out(state, payloads[0], chunks[0].len()),
                payloads.drop_first(),
                chunks.drop_first(),
            )
        }
    }

    /// Writing over the air, a request each, up to the first that is not
    /// done: the state the device is left in, the air, and whether all were.
    pub open spec fn write_over_the_air(
        self,
        gateway: GatewayView,
        radio: RadioView,
        sequence: u8,
        state: S,
        writes: Seq<CommandView>,
    ) -> (S, RadioView, bool)
        decreases writes.len(),
    {
        if writes.len() == 0 {
            (state, radio, true)
        } else {
            let (next, air, outcome) = crate::exchange::exchange_over_the_air(
                gateway,
                radio,
                sequence,
                self.answer,
                state,
                writes[0],
            );
            match outcome {
                Ok(Some(answer)) if (self.accepted)(answer) => self.write_over_the_air(
                    gateway,
                    air,
                    ((sequence + 1) % 256) as u8,
                    next,
                    writes.drop_first(),
                ),
                _ => (next, air, false),
            }
        }
    }

    /// Reading over the air, a request for each chunk after those already
    /// read, up to the one marked as the last: the state the device is left
    /// in, the air, the gateway's count, and the whole Stream, if it came.
    pub open spec fn read_over_the_air(
        self,
        gateway: GatewayView,
        radio: RadioView,
        sequence: u8,
        state: S,
        so_far: StreamSoFarView,
    ) -> (S, RadioView, u8, Option<Seq<u8>>)
        decreases u32::MAX - so_far.chunks,
    {
        let (next, air, outcome) = crate::exchange::exchange_over_the_air(
            gateway,
            radio,
            sequence,
            self.answer,
            state,
            (self.reads)(so_far.chunks as nat),
        );
        let count = ((sequence + 1) % 256) as u8;
        match outcome {
            Ok(Some(answer)) => match (self.chunk)(answer) {
                Some((last, chunk)) => match so_far.taking(last, chunk) {
                    Ok(StreamReadView::Whole(bytes)) => (next, air, count, Some(bytes)),
                    Ok(StreamReadView::Unfinished(more)) => self.read_over_the_air(
                        gateway,
                        air,
                        count,
                        next,
                        more,
                    ),
                    Err(_) => (next, air, count, None),
                },
                None => (next, air, count, None),
            },
            _ => (next, air, count, None),
        }
    }

    /// A round over the air: `payload` written under a count of its own, and
    /// a Stream read back under the gateway's.
    #[verifier::opaque]
    pub open spec fn round_over_the_air(
        self,
        gateway: GatewayView,
        radio: RadioView,
        sequence: u8,
        state: S,
        payload: Seq<u8>,
    ) -> (S, RadioView, u8, Option<Seq<u8>>) {
        let (written, air, done) = self.write_over_the_air(
            gateway,
            radio,
            0,
            state,
            (self.writes)(payload),
        );
        if done {
            self.read_over_the_air(gateway, air, sequence, written, nothing_read())
        } else {
            (written, air, sequence, None)
        }
    }

    /// What each of some rounds brings back, one after another.
    pub open spec fn rounds_over_the_air(
        self,
        gateway: GatewayView,
        radio: RadioView,
        sequence: u8,
        state: S,
        payloads: Seq<Seq<u8>>,
    ) -> Seq<Option<Seq<u8>>>
        decreases payloads.len(),
    {
        if payloads.len() == 0 {
            seq![]
        } else {
            let (next, air, count, back) = self.round_over_the_air(
                gateway,
                radio,
                sequence,
                state,
                payloads[0],
            );
            seq![back] + self.rounds_over_the_air(gateway, air, count, next, payloads.drop_first())
        }
    }
}

/// Whether `answers`, taken over the air, say that `chunks` were read, with
/// the last of them, and no other, marked as the last.
pub open spec fn say_what_was_read(
    chunk: spec_fn(Seq<u8>) -> Option<(bool, Seq<u8>)>,
    answers: Seq<Result<Option<Seq<u8>>, WirelessHartError>>,
    chunks: Seq<Seq<u8>>,
) -> bool {
    &&& answers.len() == chunks.len()
    &&& forall|i: int|
        0 <= i < chunks.len() ==> ((#[trigger] answers[i]) matches Ok(Some(answer)) && chunk(answer)
            == Some((i == chunks.len() - 1, chunks[i])))
}

/// What a device does with writes asked directly it does over quiet air.
proof fn lemma_writes_go_through<S>(
    device: StreamDevice<S>,
    gateway: GatewayView,
    radio: RadioView,
    sequence: u8,
    state: S,
    writes: Seq<CommandView>,
)
    requires
        gateway.network == radio.network,
        gateway.nickname == radio.nickname,
        radio.to_gateway.len() == 0,
        device.does(state, writes),
    ensures
        ({
            let (left, air, done) = device.write_over_the_air(
                gateway,
                radio,
                sequence,
                state,
                writes,
            );
            &&& done
            &&& left == device.written(state, writes)
            &&& crate::exchange::quiet_again(radio, air)
        }),
    decreases writes.len(),
{
    if writes.len() > 0 {
        crate::exchange::lemma_one_exchange_changes_nothing(
            gateway,
            radio,
            sequence,
            device.answer,
            state,
            writes[0],
        );
        let (next, air, _) = crate::exchange::exchange_over_the_air(
            gateway,
            radio,
            sequence,
            device.answer,
            state,
            writes[0],
        );
        lemma_writes_go_through(
            device,
            gateway,
            air,
            ((sequence + 1) % 256) as u8,
            next,
            writes.drop_first(),
        );
    }
}

/// What a device that hands out `chunks` asked directly answers over quiet
/// air says that they were read.
proof fn lemma_answers_go_through<S>(
    device: StreamDevice<S>,
    gateway: GatewayView,
    radio: RadioView,
    sequence: u8,
    state: S,
    place: nat,
    chunks: Seq<Seq<u8>>,
)
    requires
        gateway.network == radio.network,
        gateway.nickname == radio.nickname,
        radio.to_gateway.len() == 0,
        device.hands_out(state, place, chunks),
    ensures
        say_what_was_read(
            device.chunk,
            crate::exchange::answers_over_the_air(
                gateway,
                radio,
                sequence,
                device.answer,
                state,
                device.asked_for(place, chunks.len()),
            ).1,
            chunks,
        ),
    decreases chunks.len(),
{
    let command = (device.reads)(place);
    crate::exchange::lemma_one_exchange_changes_nothing(
        gateway,
        radio,
        sequence,
        device.answer,
        state,
        command,
    );
    let (next, air, outcome) = crate::exchange::exchange_over_the_air(
        gateway,
        radio,
        sequence,
        device.answer,
        state,
        command,
    );
    let rest = chunks.drop_first();
    let asked = device.asked_for(place, chunks.len());
    let later = device.asked_for(place + 1, rest.len());
    assert(asked[0] == command);
    assert(asked.drop_first() =~= later);
    let count = ((sequence + 1) % 256) as u8;
    let answers = crate::exchange::answers_over_the_air(
        gateway,
        radio,
        sequence,
        device.answer,
        state,
        asked,
    ).1;
    let later_answers = crate::exchange::answers_over_the_air(
        gateway,
        air,
        count,
        device.answer,
        next,
        later,
    ).1;
    assert(answers == seq![outcome] + later_answers);
    if chunks.len() > 1 {
        lemma_answers_go_through(device, gateway, air, count, next, place + 1, rest);
        assert forall|i: int| 0 <= i < chunks.len() implies ((#[trigger] answers[i]) matches Ok(
            Some(answer),
        ) && (device.chunk)(answer) == Some((i == chunks.len() - 1, chunks[i]))) by {
            if i > 0 {
                assert(answers[i] == later_answers[i - 1]);
                assert(rest[i - 1] == chunks[i]);
            }
        }
    }
}

/// The chunks a device hands out asked directly are read over quiet air, and
/// joined after what was read before.
proof fn lemma_reads_go_through<S>(
    device: StreamDevice<S>,
    gateway: GatewayView,
    radio: RadioView,
    sequence: u8,
    state: S,
    so_far: StreamSoFarView,
    chunks: Seq<Seq<u8>>,
)
    requires
        gateway.network == radio.network,
        gateway.nickname == radio.nickname,
        radio.to_gateway.len() == 0,
        device.hands_out(state, so_far.chunks as nat, chunks),
        so_far.chunks + chunks.len() <= u32::MAX,
    ensures
        ({
            let asked = device.asked_for(so_far.chunks as nat, chunks.len());
            let (left, air, _, back) = device.read_over_the_air(
                gateway,
                radio,
                sequence,
                state,
                so_far,
            );
            &&& back == Some(so_far.bytes + chunks.flatten())
            &&& left == crate::exchange::answers_of(device.answer, state, asked).0
            &&& crate::exchange::quiet_again(radio, air)
        }),
    decreases chunks.len(),
{
    let place = so_far.chunks as nat;
    let command = (device.reads)(place);
    crate::exchange::lemma_one_exchange_changes_nothing(
        gateway,
        radio,
        sequence,
        device.answer,
        state,
        command,
    );
    let (next, air, _) = crate::exchange::exchange_over_the_air(
        gateway,
        radio,
        sequence,
        device.answer,
        state,
        command,
    );
    let rest = chunks.drop_first();
    let asked = device.asked_for(place, chunks.len());
    let later = device.asked_for(place + 1, rest.len());
    assert(asked[0] == command);
    assert(asked.drop_first() =~= later);
    assert(chunks.flatten() == chunks[0] + rest.flatten());
    if chunks.len() == 1 {
        assert(rest.flatten() =~= seq![]);
        assert(so_far.bytes + chunks[0] =~= so_far.bytes + chunks.flatten());
        assert(crate::exchange::answers_of(device.answer, next, later).0 == next);
    } else {
        let more = so_far.and(chunks[0]);
        lemma_reads_go_through(
            device,
            gateway,
            air,
            ((sequence + 1) % 256) as u8,
            next,
            more,
            rest,
        );
        assert(so_far.bytes + chunks[0] + rest.flatten() =~= so_far.bytes + chunks.flatten());
    }
}

/// A round brings a Stream back whole: where the device, asked directly, does
/// what writes `payload` and then hands it out in `chunks`, of which only the
/// last is marked as the last, the answers taken over quiet air say the same,
/// reading them gives `payload`, and the air is quiet again.
pub proof fn lemma_round_brings_the_stream_back<S>(
    device: StreamDevice<S>,
    gateway: GatewayView,
    radio: RadioView,
    sequence: u8,
    state: S,
    payload: Seq<u8>,
    chunks: Seq<Seq<u8>>,
)
    requires
        gateway.network == radio.network,
        gateway.nickname == radio.nickname,
        radio.to_gateway.len() == 0,
        device.keeps_in(state, payload, chunks),
    ensures
        ({
            let (written, between, done) = device.write_over_the_air(
                gateway,
                radio,
                0,
                state,
                (device.writes)(payload),
            );
            let answers = crate::exchange::answers_over_the_air(
                gateway,
                between,
                sequence,
                device.answer,
                written,
                device.asked_for(0, chunks.len()),
            ).1;
            let (left, air, _, back) = device.round_over_the_air(
                gateway,
                radio,
                sequence,
                state,
                payload,
            );
            &&& done
            &&& say_what_was_read(device.chunk, answers, chunks)
            &&& back == Some(payload)
            &&& left == device.read_out(state, payload, chunks.len())
            &&& crate::exchange::quiet_again(radio, air)
        }),
{
    reveal(StreamDevice::round_over_the_air);
    let writes = (device.writes)(payload);
    lemma_writes_go_through(device, gateway, radio, 0, state, writes);
    let (written, between, _) = device.write_over_the_air(gateway, radio, 0, state, writes);
    lemma_answers_go_through(device, gateway, between, sequence, written, 0, chunks);
    lemma_reads_go_through(device, gateway, between, sequence, written, nothing_read(), chunks);
    assert(nothing_read().bytes + payload =~= payload);
}

/// Every round brings its own Stream back whole, however many went before:
/// where the device, asked directly, keeps each of `payloads` after the
/// others, what each round over quiet air brings back is what it wrote.
pub proof fn lemma_every_round_brings_its_stream_back<S>(
    device: StreamDevice<S>,
    gateway: GatewayView,
    radio: RadioView,
    sequence: u8,
    state: S,
    payloads: Seq<Seq<u8>>,
    chunks: Seq<Seq<Seq<u8>>>,
)
    requires
        gateway.network == radio.network,
        gateway.nickname == radio.nickname,
        radio.to_gateway.len() == 0,
        device.keeps_each(state, payloads, chunks),
    ensures
        device.rounds_over_the_air(gateway, radio, sequence, state, payloads)
            == payloads.map_values(|payload: Seq<u8>| Some(payload)),
    decreases payloads.len(),
{
    let whole = |payload: Seq<u8>| Some(payload);
    if payloads.len() == 0 {
        assert(payloads.map_values(whole) =~= seq![]);
    } else {
        let payload = payloads[0];
        lemma_round_brings_the_stream_back(
            device,
            gateway,
            radio,
            sequence,
            state,
            payload,
            chunks[0],
        );
        let (next, air, count, _) = device.round_over_the_air(
            gateway,
            radio,
            sequence,
            state,
            payload,
        );
        let rest = payloads.drop_first();
        lemma_every_round_brings_its_stream_back(
            device,
            gateway,
            air,
            count,
            next,
            rest,
            chunks.drop_first(),
        );
        assert(payloads.map_values(whole) =~= seq![Some(payload)] + rest.map_values(whole));
    }
}

} // verus!
