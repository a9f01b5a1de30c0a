use std::time::Duration;

use wireless_hart::tdma::Direction;
use wireless_hart::tdma::Superframe;
use wireless_hart::tdma::SLOT_MILLIS;

#[test]
fn slots_alternate_and_the_clock_only_moves_forward() {
    let mut superframe = Superframe::new(4);
    assert_eq!(superframe.next_slot(Direction::Up), 0);
    assert_eq!(superframe.next_slot(Direction::Up), 2, "slot one goes down");
    assert_eq!(superframe.next_slot(Direction::Down), 3);
    assert_eq!(superframe.next_slot(Direction::Down), 5);
    assert_eq!(superframe.asn(), 6);
    assert_eq!(Superframe::new(1).slots(), 2, "one each way at least");
    assert_eq!(Superframe::snippet(0x1_2345), 0x2345);
    assert_eq!(Duration::from_millis(SLOT_MILLIS).as_millis(), 10);
}

#[test]
fn a_cycle_repeats_and_its_neighbours_alternate() {
    let superframe = Superframe::new(100);
    for asn in 0..300u64 {
        let way = superframe.direction_of(asn);
        assert_eq!(way, superframe.direction_of(asn + 100));
        assert_ne!(way, superframe.direction_of(asn + 1));
    }
}

#[test]
fn an_odd_cycle_goes_up_twice_where_it_starts_again() {
    let mut superframe = Superframe::new(3);
    assert_eq!(superframe.slots(), 3);
    assert_eq!(superframe.direction_of(2), Direction::Up);
    assert_eq!(superframe.direction_of(3), Direction::Up);
    assert_eq!(superframe.next_slot(Direction::Down), 1);
    assert_eq!(superframe.next_slot(Direction::Down), 4, "two up slots between");
    assert_eq!(superframe.next_slot(Direction::Up), 5);
    assert_eq!(superframe.next_slot(Direction::Up), 6);
    assert_eq!(superframe.clone().asn(), 7);
}

#[test]
fn no_slots_or_one_are_two() {
    assert_eq!(Superframe::new(0).slots(), 2);
    assert_eq!(Superframe::new(2).slots(), 2);
    assert_eq!(Superframe::new(u16::MAX).slots(), 65535);
}
