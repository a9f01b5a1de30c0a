//! The 802.15.4 frame check sequence, CRC-16/KERMIT: the remainder of the
//! message by x^16 + x^12 + x^5 + 1 over GF(2), each byte taken from its low
//! bit, with nothing before it and nothing added after.
use vstd::prelude::*;

verus! {

/// x^12 + x^5 + 1 with the bits reversed: what the register is reduced by.
pub const POLYNOMIAL: u16 = 0x8408;

/// The register after one bit leaves it.
pub open spec fn shifted(register: u16) -> u16 {
    if register & 1 == 1 {
        (register >> 1) ^ POLYNOMIAL
    } else {
        register >> 1
    }
}

/// The register after `bits` bits leave it.
pub open spec fn shifted_by(register: u16, bits: nat) -> u16
    decreases bits,
{
    if bits == 0 {
        register
    } else {
        shifted(shifted_by(register, (bits - 1) as nat))
    }
}

/// The check sequence of `message`.
pub open spec fn check_sequence(message: Seq<u8>) -> u16
    decreases message.len(),
{
    if message.len() == 0 {
        0
    } else {
        shifted_by(check_sequence(message.drop_last()) ^ (message.last() as u16), 8)
    }
}

/// The check sequence of `bytes`.
pub fn crc16(bytes: &[u8]) -> (check: u16)
    ensures
        check == check_sequence(bytes@),
{
    let mut register: u16 = 0;
    let mut taken: usize = 0;
    while taken < bytes.len()
        invariant
            taken <= bytes@.len(),
            register == check_sequence(bytes@.take(taken as int)),
        decreases bytes@.len() - taken,
    {
        let loaded: u16 = register ^ (bytes[taken] as u16);
        register = loaded;
        let mut bits: usize = 0;
        while bits < 8
            invariant
                bits <= 8,
                register == shifted_by(loaded, bits as nat),
            decreases 8 - bits,
        {
            register =
            if register & 1 == 1 {
                (register >> 1) ^ POLYNOMIAL
            } else {
                register >> 1
            };
            bits = bits + 1;
        }
        assert(bytes@.take(taken + 1).drop_last() =~= bytes@.take(taken as int));
        taken = taken + 1;
    }
    assert(bytes@.take(taken as int) =~= bytes@);
    register
}

/// One bit leaving keeps two different registers different.
proof fn lemma_shifted_injective(left: u16, right: u16)
    requires
        left != right,
    ensures
        shifted(left) != shifted(right),
{
    assert(shifted(left) != shifted(right)) by (bit_vector)
        requires
            left != right,
    ;
}

/// Any number of bits leaving keeps two different registers different.
proof fn lemma_shifted_by_injective(left: u16, right: u16, bits: nat)
    requires
        left != right,
    ensures
        shifted_by(left, bits) != shifted_by(right, bits),
    decreases bits,
{
    if bits > 0 {
        lemma_shifted_by_injective(left, right, (bits - 1) as nat);
        lemma_shifted_injective(
            shifted_by(left, (bits - 1) as nat),
            shifted_by(right, (bits - 1) as nat),
        );
    }
}

/// Two registers that differ in the low byte alone differ in the high byte
/// once eight bits have left them.
proof fn lemma_low_byte_reaches_the_high(left: u16, right: u16)
    requires
        left != right,
        left ^ right < 256,
    ensures
        shifted_by(left, 8) ^ shifted_by(right, 8) >= 256,
{
    let l1 = shifted(left);
    let l2 = shifted(l1);
    let l3 = shifted(l2);
    let l4 = shifted(l3);
    let l5 = shifted(l4);
    let l6 = shifted(l5);
    let l7 = shifted(l6);
    let l8 = shifted(l7);
    let r1 = shifted(right);
    let r2 = shifted(r1);
    let r3 = shifted(r2);
    let r4 = shifted(r3);
    let r5 = shifted(r4);
    let r6 = shifted(r5);
    let r7 = shifted(r6);
    let r8 = shifted(r7);
    reveal_with_fuel(shifted_by, 9);
    assert(l8 ^ r8 >= 256) by (bit_vector)
        requires
            left != right,
            left ^ right < 256,
            l1 == shifted(left),
            l2 == shifted(l1),
            l3 == shifted(l2),
            l4 == shifted(l3),
            l5 == shifted(l4),
            l6 == shifted(l5),
            l7 == shifted(l6),
            l8 == shifted(l7),
            r1 == shifted(right),
            r2 == shifted(r1),
            r3 == shifted(r2),
            r4 == shifted(r3),
            r5 == shifted(r4),
            r6 == shifted(r5),
            r7 == shifted(r6),
            r8 == shifted(r7),
    ;
}

/// Two messages that differ in their last byte alone have check sequences
/// that differ in the high byte.
pub proof fn lemma_last_byte_changes_the_high(before: Seq<u8>, left: u8, right: u8)
    requires
        left != right,
    ensures
        check_sequence(before.push(left)) / 256 != check_sequence(before.push(right)) / 256,
{
    let base = check_sequence(before);
    let v = left as u16;
    let w = right as u16;
    assert(before.push(left).drop_last() =~= before);
    assert(before.push(right).drop_last() =~= before);
    assert(base ^ v != base ^ w && (base ^ v) ^ (base ^ w) < 256) by (bit_vector)
        requires
            v != w,
            v < 256,
            w < 256,
    ;
    lemma_low_byte_reaches_the_high(base ^ v, base ^ w);
    let l = check_sequence(before.push(left));
    let r = check_sequence(before.push(right));
    assert(l / 256 != r / 256) by (bit_vector)
        requires
            l ^ r >= 256,
    ;
}

/// Two messages of one length that differ, and only within two neighbouring
/// bytes, have different check sequences.
pub proof fn lemma_neighbours_change_the_check(left: Seq<u8>, right: Seq<u8>, at: int)
    requires
        left.len() == right.len(),
        0 <= at < left.len(),
        left != right,
        forall|i: int| 0 <= i < left.len() && i != at && i != at + 1 ==> left[i] == right[i],
    ensures
        check_sequence(left) != check_sequence(right),
    decreases left.len(),
{
    let length = left.len() as int;
    let before = check_sequence(left.drop_last());
    let after = check_sequence(right.drop_last());
    let x = left.last() as u16;
    let y = right.last() as u16;
    if left.drop_last() =~= right.drop_last() {
        assert(x != y) by {
            if x == y {
                assert(left =~= left.drop_last().push(left.last()));
                assert(right =~= right.drop_last().push(right.last()));
            }
        }
        assert(before ^ x != before ^ y) by (bit_vector)
            requires
                x != y,
        ;
        lemma_shifted_by_injective(before ^ x, before ^ y, 8);
    } else if at + 1 == length - 1 {
        let shorter = left.drop_last();
        let other = right.drop_last();
        assert(shorter.drop_last() =~= other.drop_last());
        let base = check_sequence(shorter.drop_last());
        let v = shorter.last() as u16;
        let w = other.last() as u16;
        assert(v != w) by {
            if v == w {
                assert(shorter =~= shorter.drop_last().push(shorter.last()));
                assert(other =~= other.drop_last().push(other.last()));
            }
        }
        assert(base ^ v != base ^ w && (base ^ v) ^ (base ^ w) < 256) by (bit_vector)
            requires
                v != w,
                v < 256,
                w < 256,
        ;
        lemma_low_byte_reaches_the_high(base ^ v, base ^ w);
        assert(before ^ x != after ^ y) by (bit_vector)
            requires
                before ^ after >= 256,
                x < 256,
                y < 256,
        ;
        lemma_shifted_by_injective(before ^ x, after ^ y, 8);
    } else {
        assert(at < length - 1) by {
            if at == length - 1 {
                assert(left.drop_last() =~= right.drop_last());
            }
        }
        lemma_neighbours_change_the_check(left.drop_last(), right.drop_last(), at);
        assert(x == y);
        assert(before ^ x != after ^ x) by (bit_vector)
            requires
                before != after,
        ;
        lemma_shifted_by_injective(before ^ x, after ^ x, 8);
    }
}

/// The check sequence of nothing is zero, and one more byte changes it by the
/// byte and its own low half, over the register's low byte, taken four bits
/// down, three up and eight up, onto what the register keeps.
pub proof fn lemma_one_more_byte(before: Seq<u8>, byte: u8)
    ensures
        check_sequence(seq![]) == 0,
        ({
            let register = check_sequence(before);
            let low = (register ^ (byte as u16)) & 0xff;
            let mixed = (low ^ (low << 4)) & 0xff;
            check_sequence(before.push(byte)) == (register >> 8) ^ (mixed << 8) ^ (mixed << 3) ^ (
            mixed >> 4)
        }),
{
    let register = check_sequence(before);
    let wide = byte as u16;
    assert(before.push(byte).drop_last() =~= before);
    let r0 = register ^ wide;
    let r1 = shifted(r0);
    let r2 = shifted(r1);
    let r3 = shifted(r2);
    let r4 = shifted(r3);
    let r5 = shifted(r4);
    let r6 = shifted(r5);
    let r7 = shifted(r6);
    let r8 = shifted(r7);
    reveal_with_fuel(shifted_by, 9);
    let low = r0 & 0xff;
    let mixed = (low ^ (low << 4)) & 0xff;
    assert(r8 == (register >> 8) ^ (mixed << 8) ^ (mixed << 3) ^ (mixed >> 4)) by (bit_vector)
        requires
            wide < 256,
            r0 == register ^ wide,
            low == r0 & 0xff,
            mixed == (low ^ (low << 4)) & 0xff,
            r1 == shifted(r0),
            r2 == shifted(r1),
            r3 == shifted(r2),
            r4 == shifted(r3),
            r5 == shifted(r4),
            r6 == shifted(r5),
            r7 == shifted(r6),
            r8 == shifted(r7),
    ;
}

} // verus!
