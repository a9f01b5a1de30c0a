//! A request from beginning to end: what the gateway does with the radio, one
//! thing at a time, and what it makes of what the radio did.
use vstd::prelude::*;

use crate::error::WirelessHartError;
use crate::gateway::Exchange;
use crate::gateway::GatewayView;
use crate::gateway::Timeout;
use crate::gateway::WirelessHartTransport;
use crate::loopback::HeardView;
use crate::loopback::RadioView;
use crate::npdu::MAX_COMMAND_DATA;
use crate::tdma::Direction;

verus! {

/// What the gateway does next.
#[derive(Debug)]
pub enum Action {
    /// Put the frame in the next slot linked `direction`.
    Transmit { direction: Direction, frame: Vec<u8> },
    /// Listen, for no longer than `timeout`.
    Receive { timeout: Timeout },
    /// Take the answer: its data, status bytes first.
    Take(Vec<u8>),
    /// Fail, for what was or was not received.
    Fail(WirelessHartError),
    /// Give up, for what the radio reported.
    GiveUp,
}

/// What the gateway does next, as a value.
pub enum ActionView {
    Transmit { direction: Direction, frame: Seq<u8> },
    Receive { timeout: Timeout },
    Take(Seq<u8>),
    Fail(WirelessHartError),
    GiveUp,
}

impl View for Action {
    type V = ActionView;

    open spec fn view(&self) -> ActionView {
        match *self {
            Action::Transmit { direction, frame } => ActionView::Transmit {
                direction,
                frame: frame@,
            },
            Action::Receive { timeout } => ActionView::Receive { timeout },
            Action::Take(answer) => ActionView::Take(answer@),
            Action::Fail(error) => ActionView::Fail(error),
            Action::GiveUp => ActionView::GiveUp,
        }
    }
}

/// What the radio did.
#[derive(Debug)]
pub enum Event {
    /// The frame went out.
    Sent,
    /// A frame came in, or none did in time.
    Received(Option<Vec<u8>>),
    /// The radio refused the frame, or could not be read.
    Fault,
}

/// What the radio did, as a value.
pub enum EventView {
    Sent,
    Received(Option<Seq<u8>>),
    Fault,
}

impl View for Event {
    type V = EventView;

    open spec fn view(&self) -> EventView {
        match *self {
            Event::Sent => EventView::Sent,
            Event::Received(Some(frame)) => EventView::Received(Some(frame@)),
            Event::Received(None) => EventView::Received(None),
            Event::Fault => EventView::Fault,
        }
    }
}

/// How far a request has got.
#[derive(Clone, Copy, Debug, PartialEq, Eq, Structural)]
pub enum Stage {
    /// The frame is the radio's to transmit.
    Sending,
    /// The frame is out, and the answer is not in.
    Listening,
    /// There is nothing left to do.
    Over,
}

/// One request under way.
#[derive(Debug)]
pub struct Conversation {
    exchange: Exchange,
    timeout: Timeout,
    stage: Stage,
}

/// One request under way, as a value.
pub struct ConversationView {
    pub exchange: Exchange,
    pub timeout: Timeout,
    pub stage: Stage,
}

impl View for Conversation {
    type V = ConversationView;

    closed spec fn view(&self) -> ConversationView {
        ConversationView { exchange: self.exchange, timeout: self.timeout, stage: self.stage }
    }
}

impl ConversationView {
    /// The request `exchange` stands for, with its frame about to go out.
    pub open spec fn begun(gateway: GatewayView, exchange: Exchange) -> ConversationView {
        ConversationView { exchange, timeout: gateway.timeout, stage: Stage::Sending }
    }

    /// What follows what was received, or that nothing was: the answer is
    /// taken, anything passed over is listened past, and anything else ends
    /// the request.
    pub open spec fn hearing(self, received: Option<Seq<u8>>) -> (ConversationView, ActionView) {
        let over = ConversationView { stage: Stage::Over, ..self };
        match self.exchange.outcome(received) {
            Ok(Some(answer)) => (over, ActionView::Take(answer)),
            Ok(None) => (self, ActionView::Receive { timeout: self.timeout }),
            Err(error) => (over, ActionView::Fail(error)),
        }
    }

    /// What follows what the radio did. Only a frame that went out is
    /// listened for, and a fault ends the request at any stage.
    pub open spec fn after(self, event: EventView) -> (ConversationView, ActionView) {
        match (self.stage, event) {
            (Stage::Sending, EventView::Sent) => (
                ConversationView { stage: Stage::Listening, ..self },
                ActionView::Receive { timeout: self.timeout },
            ),
            (Stage::Listening, EventView::Received(received)) => self.hearing(received),
            _ => (ConversationView { stage: Stage::Over, ..self }, ActionView::GiveUp),
        }
    }

    /// Everything the gateway does for `events`, one thing for each.
    pub open spec fn acts(self, events: Seq<EventView>) -> Seq<ActionView>
        decreases events.len(),
    {
        if events.len() == 0 {
            seq![]
        } else {
            let (next, action) = self.after(events[0]);
            seq![action] + next.acts(events.drop_first())
        }
    }
}

impl WirelessHartTransport {
    /// Begin the request that `exchange` and `frame` are: the first thing to
    /// do is to transmit the frame.
    #[must_use]
    pub fn converse(&self, exchange: Exchange, frame: Vec<u8>) -> (begun: (Conversation, Action))
        ensures
            begun.0@ == ConversationView::begun(self@, exchange),
            begun.1@ == (ActionView::Transmit { direction: Direction::Up, frame: frame@ }),
    {
        let direction = exchange.direction();
        (
            Conversation { exchange, timeout: self.timeout(), stage: Stage::Sending },
            Action::Transmit { direction, frame },
        )
    }
}

impl Conversation {
    /// What to do next, now that the radio did `event`.
    pub fn next(&mut self, event: Event) -> (action: Action)
        ensures
            (final(self)@, action@) == old(self)@.after(event@),
    {
        match (self.stage, event) {
            (Stage::Sending, Event::Sent) => {
                self.stage = Stage::Listening;
                Action::Receive { timeout: self.timeout }
            },
            (Stage::Listening, Event::Received(received)) => {
                let heard = match &received {
                    Some(frame) => self.exchange.hear(Some(frame.as_slice())),
                    None => self.exchange.hear(None),
                };
                match heard {
                    Ok(Some(answer)) => {
                        self.stage = Stage::Over;
                        Action::Take(answer)
                    },
                    Ok(None) => Action::Receive { timeout: self.timeout },
                    Err(error) => {
                        self.stage = Stage::Over;
                        Action::Fail(error)
                    },
                }
            },
            _ => {
                self.stage = Stage::Over;
                Action::GiveUp
            },
        }
    }
}

/// Nothing is transmitted past the beginning, and once a request is over there
/// is nothing but giving up.
proof fn lemma_nothing_more_goes_out(conversation: ConversationView, events: Seq<EventView>)
    ensures
        conversation.acts(events).len() == events.len(),
        forall|i: int|
            0 <= i < events.len() ==> !((#[trigger] conversation.acts(events)[i]) is Transmit),
        conversation.stage == Stage::Over ==> forall|i: int|
            0 <= i < events.len() ==> (#[trigger] conversation.acts(events)[i]) is GiveUp,
    decreases events.len(),
{
    if events.len() > 0 {
        let (next, action) = conversation.after(events[0]);
        let rest = events.drop_first();
        lemma_nothing_more_goes_out(next, rest);
        assert forall|i: int| 0 <= i < events.len() implies !((#[trigger] conversation.acts(
            events,
        )[i]) is Transmit) && (conversation.stage == Stage::Over ==> conversation.acts(
            events,
        )[i] is GiveUp) by {
            if i > 0 {
                assert(conversation.acts(events)[i] == next.acts(rest)[i - 1]);
            }
        }
    }
}

/// What a request puts on the air: its frame, once, in an up slot, before
/// anything is listened for, whatever the radio does after. The frame's
/// sequence number is how many requests went before, as far as a byte holds
/// it. Where the radio does not send the frame, the gateway gives up and never
/// listens.
pub proof fn lemma_request_goes_out_once(
    gateway: GatewayView,
    earlier: nat,
    command: u16,
    data: Seq<u8>,
    events: Seq<EventView>,
)
    requires
        data.len() <= MAX_COMMAND_DATA,
    ensures
        ({
            let sequence = crate::gateway::count_after(earlier);
            let exchange = Exchange { command, sequence: (sequence % 32) as u8 };
            let first = ActionView::Transmit {
                direction: Direction::Up,
                frame: gateway.request_dlpdu(sequence, command, data).frame(),
            };
            let acts = seq![first] + ConversationView::begun(gateway, exchange).acts(events);
            &&& sequence == earlier % 256
            &&& acts.len() == events.len() + 1
            &&& acts[0] == first
            &&& forall|i: int| 1 <= i < acts.len() ==> !((#[trigger] acts[i]) is Transmit)
            &&& events.len() > 0 && events[0] is Sent ==> acts[1] == (ActionView::Receive {
                timeout: gateway.timeout,
            })
            &&& events.len() > 0 && !(events[0] is Sent) ==> forall|i: int|
                1 <= i < acts.len() ==> (#[trigger] acts[i]) is GiveUp
        }),
{
    crate::gateway::lemma_count_is_what_was_sent(earlier);
    let sequence = crate::gateway::count_after(earlier);
    let exchange = Exchange { command, sequence: (sequence % 32) as u8 };
    let begun = ConversationView::begun(gateway, exchange);
    let first = ActionView::Transmit {
        direction: Direction::Up,
        frame: gateway.request_dlpdu(sequence, command, data).frame(),
    };
    let after = begun.acts(events);
    let acts = seq![first] + after;
    lemma_nothing_more_goes_out(begun, events);
    assert forall|i: int| 1 <= i < acts.len() implies !((#[trigger] acts[i]) is Transmit) by {
        assert(acts[i] == after[i - 1]);
    }
    if events.len() > 0 && !(events[0] is Sent) {
        let rest = events.drop_first();
        let over = begun.after(events[0]).0;
        lemma_nothing_more_goes_out(over, rest);
        assert forall|i: int| 1 <= i < acts.len() implies (#[trigger] acts[i]) is GiveUp by {
            assert(acts[i] == after[i - 1]);
            if i > 1 {
                assert(after[i - 1] == over.acts(rest)[i - 2]);
            }
        }
    }
}

/// A gateway listens past everything that is passed over, and does with the
/// first thing that is not what the exchange makes of it.
pub proof fn lemma_listens_until_answered(
    conversation: ConversationView,
    passed_over: Seq<Seq<u8>>,
    received: Option<Seq<u8>>,
)
    requires
        conversation.stage == Stage::Listening,
        forall|i: int|
            0 <= i < passed_over.len() ==> conversation.exchange.outcome(
                Some(#[trigger] passed_over[i]),
            ) == Ok::<Option<Seq<u8>>, WirelessHartError>(None),
    ensures
        ({
            let events = passed_over.map_values(
                |frame: Seq<u8>| EventView::Received(Some(frame)),
            ).push(EventView::Received(received));
            let acts = conversation.acts(events);
            &&& acts.len() == passed_over.len() + 1
            &&& forall|i: int|
                0 <= i < passed_over.len() ==> (#[trigger] acts[i]) == (ActionView::Receive {
                    timeout: conversation.timeout,
                })
            &&& acts.last() == conversation.hearing(received).1
        }),
    decreases passed_over.len(),
{
    let hear = |frame: Seq<u8>| EventView::Received(Some(frame));
    let events = passed_over.map_values(hear).push(EventView::Received(received));
    let rest = events.drop_first();
    let acts = conversation.acts(events);
    if passed_over.len() == 0 {
        let next = conversation.after(events[0]).0;
        assert(next.acts(rest) =~= seq![]);
    } else {
        let later = passed_over.drop_first();
        assert forall|i: int| 0 <= i < later.len() implies conversation.exchange.outcome(
            Some(#[trigger] later[i]),
        ) == Ok::<Option<Seq<u8>>, WirelessHartError>(None) by {
            assert(later[i] == passed_over[i + 1]);
        }
        lemma_listens_until_answered(conversation, later, received);
        assert(rest =~= later.map_values(hear).push(EventView::Received(received)));
        assert(events[0] == EventView::Received(Some(passed_over[0])));
        let after = conversation.acts(rest);
        assert forall|i: int| 0 <= i < passed_over.len() implies (#[trigger] acts[i]) == (
        ActionView::Receive { timeout: conversation.timeout }) by {
            if i > 0 {
                assert(acts[i] == after[i - 1]);
            }
        }
    }
}

/// The answer is taken whole: while a conversation listens, the frame a device
/// answers its request in is followed by taking exactly what the device
/// answered, and the conversation is over.
#[verifier::rlimit(40)]
pub proof fn lemma_answer_is_taken_whole(
    conversation: ConversationView,
    gateway: GatewayView,
    radio: RadioView,
    sequence: u8,
    command: u16,
    data: Seq<u8>,
    answer: Seq<u8>,
)
    requires
        conversation.stage == Stage::Listening,
        conversation.exchange.command == command,
        conversation.exchange.sequence == sequence % 32,
        answer.len() <= MAX_COMMAND_DATA,
    ensures
        ({
            let heard = HeardView {
                packet: gateway.request_packet(sequence, command, data),
                sequence,
            };
            let packet = RadioView::answer_packet(heard, seq![answer]);
            let frame = radio.down_dlpdu(packet, sequence).frame();
            let (after, action) = conversation.after(EventView::Received(Some(frame)));
            &&& action == ActionView::Take(answer)
            &&& after.stage == Stage::Over
        }),
{
    let heard = HeardView { packet: gateway.request_packet(sequence, command, data), sequence };
    crate::npdu::lemma_one_command_total(crate::npdu::CommandView { number: command, data: answer });
    assert(crate::loopback::paired(heard.packet.commands, seq![answer]) =~= seq![
        crate::npdu::CommandView { number: command, data: answer },
    ]);
    crate::exchange::lemma_each_command_has_its_answer(radio, heard, seq![answer], 0);
}

/// What follows each thing the radio does. A frame sent is listened for as long
/// as the gateway waits, and so is anything after what is passed over. An
/// answer is taken as it is, what is no answer and silence fail, a fault gives
/// up at any stage, and what is over stays over. The request stays the one it
/// was.
pub proof fn lemma_what_follows(conversation: ConversationView, event: EventView)
    ensures
        ({
            let (after, action) = conversation.after(event);
            let listening = conversation.stage == Stage::Listening;
            &&& after.exchange == conversation.exchange
            &&& after.timeout == conversation.timeout
            &&& conversation.stage == Stage::Sending && event is Sent ==> after.stage
                == Stage::Listening && action == (ActionView::Receive {
                timeout: conversation.timeout,
            })
            &&& conversation.stage == Stage::Sending && !(event is Sent) ==> after.stage
                == Stage::Over && action is GiveUp
            &&& listening && !(event is Received) ==> after.stage == Stage::Over
                && action is GiveUp
            &&& conversation.stage == Stage::Over ==> after.stage == Stage::Over
                && action is GiveUp
            &&& listening && event is Received ==> match conversation.exchange.outcome(
                event->Received_0,
            ) {
                Ok(Some(answer)) => after.stage == Stage::Over && action == ActionView::Take(
                    answer,
                ),
                Ok(None) => after.stage == Stage::Listening && action == (ActionView::Receive {
                    timeout: conversation.timeout,
                }),
                Err(error) => after.stage == Stage::Over && action == ActionView::Fail(error),
            }
        }),
{
}

/// A request begins with its own exchange and its gateway's wait, about to be
/// sent.
pub proof fn lemma_request_begins_unsent(gateway: GatewayView, exchange: Exchange)
    ensures
        ConversationView::begun(gateway, exchange).exchange == exchange,
        ConversationView::begun(gateway, exchange).timeout == gateway.timeout,
        ConversationView::begun(gateway, exchange).stage == Stage::Sending,
{
}

/// What to do and what was done, as values, are what they hold.
pub proof fn lemma_actions_are_what_they_hold(action: Action, event: Event)
    ensures
        action matches Action::Transmit { direction, frame } ==> action@ == (ActionView::Transmit {
            direction,
            frame: frame@,
        }),
        action matches Action::Receive { timeout } ==> action@ == (ActionView::Receive { timeout }),
        action matches Action::Take(answer) ==> action@ == ActionView::Take(answer@),
        action matches Action::Fail(error) ==> action@ == ActionView::Fail(error),
        action is GiveUp ==> action@ is GiveUp,
        event is Sent ==> event@ is Sent,
        event is Fault ==> event@ is Fault,
        event matches Event::Received(Some(frame)) ==> event@ == EventView::Received(Some(frame@)),
        event matches Event::Received(None) ==> event@ == EventView::Received(None),
{
}

} // verus!
