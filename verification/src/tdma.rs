//! Time division: the network's clock counts ten-millisecond slots from
//! when it started — the absolute slot number — and a superframe is a
//! repeating cycle of them, each slot a link between two nicknames in one
//! direction. A DLPDU goes in the next slot linked its way, and the packet
//! inside it carries the slot's number.
use vstd::prelude::*;

verus! {

/// One slot, in milliseconds.
pub const SLOT_MILLIS: u64 = 10;

/// Which way a slot's link goes.
#[derive(Clone, Copy, Debug, PartialEq, Eq, Structural)]
pub enum Direction {
    /// The gateway transmits, and the device hears it.
    Up,
    /// The device transmits, and the gateway hears it.
    Down,
}

/// A superframe of alternating links, and where the clock is in it.
#[derive(Debug)]
pub struct Superframe {
    slots: u16,
    asn: u64,
}

/// A superframe as a value: how many slots its cycle has, and the absolute
/// slot number the clock is at.
pub struct SuperframeView {
    pub slots: u16,
    pub asn: u64,
}

impl SuperframeView {
    /// Which way the link in slot `asn` goes: by its place in the cycle, the
    /// even ones up and the odd ones down.
    pub open spec fn link(self, asn: int) -> Direction {
        if asn % (self.slots as int) % 2 == 0 {
            Direction::Up
        } else {
            Direction::Down
        }
    }

    /// The first slot from the clock on that is linked `direction`: never
    /// more than two slots away, even where a cycle of an odd number of
    /// slots puts two up slots together.
    pub open spec fn next(self, direction: Direction) -> int {
        if self.link(self.asn as int) == direction {
            self.asn as int
        } else if self.link(self.asn + 1) == direction {
            self.asn + 1
        } else {
            self.asn + 2
        }
    }

    /// The superframe once that slot is taken.
    pub open spec fn past(self, direction: Direction) -> SuperframeView {
        SuperframeView { slots: self.slots, asn: (self.next(direction) + 1) as u64 }
    }

    /// Whether the clock can count past that slot.
    pub open spec fn has_next(self, direction: Direction) -> bool {
        self.next(direction) < u64::MAX
    }
}

impl View for Superframe {
    type V = SuperframeView;

    closed spec fn view(&self) -> SuperframeView {
        SuperframeView { slots: self.slots, asn: self.asn }
    }
}

impl Clone for Superframe {
    fn clone(&self) -> (copy: Self)
        ensures
            copy@ == self@,
    {
        proof {
            use_type_invariant(self);
        }
        Superframe { slots: self.slots, asn: self.asn }
    }
}

impl Superframe {
    /// One slot each way at least.
    #[verifier::type_invariant]
    spec fn both_ways(self) -> bool {
        self.slots >= 2
    }

    /// A superframe of `slots` slots — at least two, one each way — with
    /// the even slots linked up and the odd ones down, starting at the
    /// network's first slot.
    #[must_use]
    pub fn new(slots: u16) -> (superframe: Self)
        ensures
            superframe@.slots == (if slots < 2 {
                2
            } else {
                slots
            }),
            superframe@.asn == 0,
    {
        Self {
            slots: if slots < 2 {
                2
            } else {
                slots
            },
            asn: 0,
        }
    }

    /// How many slots the cycle has.
    #[must_use]
    pub fn slots(&self) -> (slots: u16)
        ensures
            slots == self@.slots,
            slots >= 2,
    {
        proof {
            use_type_invariant(self);
        }
        self.slots
    }

    /// The absolute slot number the clock is at.
    #[must_use]
    pub fn asn(&self) -> (asn: u64)
        ensures
            asn == self@.asn,
    {
        self.asn
    }

    /// Which way the link in slot `asn` goes.
    #[must_use]
    pub fn direction_of(&self, asn: u64) -> (direction: Direction)
        ensures
            direction == self@.link(asn as int),
            direction == Direction::Up <==> asn % (self@.slots as u64) % 2 == 0,
            asn == 0 ==> direction == Direction::Up,
        no_unwind
    {
        proof {
            use_type_invariant(self);
            vstd::arithmetic::div_mod::lemma_small_mod(0, self.slots as nat);
        }
        if (asn % self.slots as u64) % 2 == 0 {
            Direction::Up
        } else {
            Direction::Down
        }
    }

    /// Take the next slot linked `direction`: the clock moves past it.
    pub fn next_slot(&mut self, direction: Direction) -> (taken: u64)
        requires
            old(self)@.has_next(direction),
        ensures
            taken == old(self)@.next(direction),
            final(self)@ == old(self)@.past(direction),
            old(self)@.asn <= taken < final(self)@.asn,
            old(self)@.link(taken as int) == direction,
            forall|slot: int|
                old(self)@.asn <= slot < taken ==> #[trigger] old(self)@.link(slot) != direction,
            direction == Direction::Up <==> taken as int % (old(self)@.slots as int) % 2 == 0,
            taken <= old(self)@.asn + 2,
            final(self)@.asn == taken + 1,
            final(self)@.slots == old(self)@.slots,
        no_unwind
    {
        proof {
            use_type_invariant(&*self);
            lemma_next_is_first(self@, direction);
        }
        while self.direction_of(self.asn) != direction
            invariant
                old(self)@.asn <= self@.asn <= old(self)@.next(direction),
                old(self)@.next(direction) < u64::MAX,
                old(self)@.link(old(self)@.next(direction)) == direction,
                self@.slots == old(self)@.slots,
                self@.slots >= 2,
            decreases old(self)@.next(direction) - self@.asn,
        {
            assert(self@.link(self@.asn as int) == old(self)@.link(self@.asn as int));
            self.asn = self.asn + 1;
        }
        assert(self@.link(self@.asn as int) == old(self)@.link(self@.asn as int));
        let taken: u64 = self.asn;
        self.asn = self.asn + 1;
        taken
    }

    /// The low sixteen bits of `asn`: what a packet carries of it.
    #[must_use]
    pub fn snippet(asn: u64) -> (low: u16)
        ensures
            low == asn % 0x1_0000,
    {
        (asn % 0x1_0000) as u16
    }
}

/// The place in the cycle moves on by one, or back to the first.
proof fn lemma_place_moves_on(slots: int, asn: int)
    requires
        slots >= 2,
    ensures
        (asn + 1) % slots == (if asn % slots + 1 == slots {
            0
        } else {
            asn % slots + 1
        }),
{
    vstd::arithmetic::div_mod::lemma_fundamental_div_mod(asn, slots);
    let quotient = asn / slots;
    let place = asn % slots;
    if place + 1 == slots {
        assert(asn + 1 == (quotient + 1) * slots) by (nonlinear_arith)
            requires
                asn == slots * quotient + place,
                place + 1 == slots,
        ;
        vstd::arithmetic::div_mod::lemma_fundamental_div_mod_converse(
            asn + 1,
            slots,
            quotient + 1,
            0,
        );
    } else {
        assert(slots * quotient == quotient * slots) by (nonlinear_arith);
        vstd::arithmetic::div_mod::lemma_fundamental_div_mod_converse(
            asn + 1,
            slots,
            quotient,
            place + 1,
        );
    }
}

/// In a superframe with both ways in it, the next slot linked `direction` is
/// linked so, at most two slots away, and none before it is.
pub proof fn lemma_next_is_first(superframe: SuperframeView, direction: Direction)
    requires
        superframe.slots >= 2,
    ensures
        superframe.asn <= superframe.next(direction) <= superframe.asn + 2,
        superframe.link(superframe.next(direction)) == direction,
        forall|slot: int|
            superframe.asn <= slot < superframe.next(direction) ==> #[trigger] superframe.link(slot)
                != direction,
{
    let slots = superframe.slots as int;
    let asn = superframe.asn as int;
    lemma_place_moves_on(slots, asn);
    lemma_place_moves_on(slots, asn + 1);
    assert(asn + 1 + 1 == asn + 2);
}

/// A superframe is a repeating cycle.
pub proof fn lemma_cycle_repeats(superframe: SuperframeView, asn: int)
    requires
        superframe.slots >= 2,
    ensures
        superframe.link(asn + superframe.slots) == superframe.link(asn),
{
    vstd::arithmetic::div_mod::lemma_mod_add_multiples_vanish(asn, superframe.slots as int);
}

/// Slots alternate: of two neighbours one goes up and one down, save the last
/// and the first of a cycle with an odd number of slots.
pub proof fn lemma_slots_alternate(superframe: SuperframeView, asn: int)
    requires
        superframe.slots >= 2,
        superframe.slots % 2 == 0 || (asn + 1) % (superframe.slots as int) != 0,
    ensures
        superframe.link(asn) != superframe.link(asn + 1),
{
    lemma_place_moves_on(superframe.slots as int, asn);
}

/// The clock only moves forward: a slot taken is behind it for good.
pub proof fn lemma_clock_moves_forward(superframe: SuperframeView, direction: Direction)
    requires
        superframe.has_next(direction),
    ensures
        superframe.asn <= superframe.next(direction) < superframe.past(direction).asn,
        superframe.past(direction).slots == superframe.slots,
{
}

/// In a cycle of an even number of slots, the down slot after an up slot is
/// the very next one.
pub proof fn lemma_down_follows_up(superframe: SuperframeView)
    requires
        superframe.slots >= 2,
        superframe.slots % 2 == 0,
        superframe.has_next(Direction::Up),
    ensures
        superframe.past(Direction::Up).next(Direction::Down) == superframe.next(Direction::Up) + 1,
{
    lemma_next_is_first(superframe, Direction::Up);
    lemma_slots_alternate(superframe, superframe.next(Direction::Up));
    let past = superframe.past(Direction::Up);
    assert(past.link(past.asn as int) == superframe.link(past.asn as int));
}

/// Even places go up and odd places go down, in every cycle of a superframe of
/// any size, the network's first slot being up.
pub proof fn lemma_even_places_go_up(superframe: SuperframeView, cycles: nat, place: nat)
    requires
        superframe.slots >= 2,
        place < superframe.slots,
    ensures
        superframe.link(0) == Direction::Up,
        place % 2 == 0 ==> superframe.link(cycles * superframe.slots + place) == Direction::Up,
        place % 2 == 1 ==> superframe.link(cycles * superframe.slots + place) == Direction::Down,
{
    let slots = superframe.slots as int;
    vstd::arithmetic::div_mod::lemma_fundamental_div_mod_converse(
        cycles * slots + place,
        slots,
        cycles as int,
        place as int,
    );
    vstd::arithmetic::div_mod::lemma_small_mod(0, superframe.slots as nat);
}

/// The slot taken is the first from the clock on whose place is even, for one
/// up, or odd, for one down. The clock is then one past it, and runs out only
/// within three slots of the last it counts.
pub proof fn lemma_first_slot_of_its_parity_is_taken(
    superframe: SuperframeView,
    direction: Direction,
)
    requires
        superframe.slots >= 2,
    ensures
        ({
            let slots = superframe.slots as int;
            let parity: int = if direction == Direction::Up {
                0
            } else {
                1
            };
            let taken = superframe.next(direction);
            &&& superframe.asn <= taken <= superframe.asn + 2
            &&& taken % slots % 2 == parity
            &&& forall|slot: int|
                superframe.asn <= slot < taken ==> #[trigger] (slot % slots) % 2 != parity
            &&& superframe.has_next(direction) <==> taken < u64::MAX
            &&& superframe.asn <= u64::MAX - 3 ==> superframe.has_next(direction)
            &&& taken < u64::MAX ==> superframe.past(direction).asn == taken + 1
            &&& superframe.past(direction).slots == superframe.slots
        }),
{
    lemma_next_is_first(superframe, direction);
    let slots = superframe.slots as int;
    assert forall|slot: int| superframe.asn <= slot < superframe.next(
        direction,
    ) implies #[trigger] (slot % slots) % 2 != (if direction == Direction::Up {
        0int
    } else {
        1int
    }) by {
        assert(superframe.link(slot) != direction);
    }
}

} // verus!
