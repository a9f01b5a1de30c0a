//! Sixteen-bit fields as two bytes, in either order, and appending to a
//! frame under construction.
use vstd::prelude::*;

verus! {

/// `value` as two bytes, the high one first: the order of the DLPDU and the
/// packet.
pub open spec fn big_endian(value: u16) -> Seq<u8> {
    seq![(value / 256) as u8, (value % 256) as u8]
}

/// `value` as two bytes, the low one first: the order of the MAC.
pub open spec fn little_endian(value: u16) -> Seq<u8> {
    seq![(value % 256) as u8, (value / 256) as u8]
}

/// The value whose high byte is `high` and whose low byte is `low`.
pub open spec fn joined(high: u8, low: u8) -> u16 {
    (high * 256 + low) as u16
}

/// Two bytes as one value.
pub(crate) fn join(high: u8, low: u8) -> (value: u16)
    ensures
        value == joined(high, low),
        value == 256 * high + low,
{
    high as u16 * 256 + low as u16
}

/// Append `value`, high byte first.
pub(crate) fn push_big_endian(out: &mut Vec<u8>, value: u16)
    ensures
        final(out)@ == old(out)@ + big_endian(value),
        final(out)@ == old(out)@.push((value / 256) as u8).push((value % 256) as u8),
{
    out.push((value / 256) as u8);
    out.push((value % 256) as u8);
}

/// Append `value`, low byte first.
pub(crate) fn push_little_endian(out: &mut Vec<u8>, value: u16)
    ensures
        final(out)@ == old(out)@ + little_endian(value),
        final(out)@ == old(out)@.push((value % 256) as u8).push((value / 256) as u8),
{
    out.push((value % 256) as u8);
    out.push((value / 256) as u8);
}

/// Append all of `bytes`.
pub(crate) fn push_all(out: &mut Vec<u8>, bytes: &[u8])
    ensures
        final(out)@ == old(out)@ + bytes@,
{
    out.extend_from_slice(bytes);
    assert(out@ =~= old(out)@ + bytes@);
}

/// Splitting a value into two bytes and joining them gives it back.
pub proof fn lemma_split_then_join(value: u16)
    ensures
        joined(big_endian(value)[0], big_endian(value)[1]) == value,
        joined(little_endian(value)[1], little_endian(value)[0]) == value,
{
}

/// Joining two bytes and splitting the value gives them back.
pub proof fn lemma_join_then_split(high: u8, low: u8)
    ensures
        big_endian(joined(high, low)) == seq![high, low],
        little_endian(joined(high, low)) == seq![low, high],
{
}

/// The high byte weighs two hundred and fifty-six times the low one, in
/// whichever order the two stand.
pub proof fn lemma_what_two_bytes_weigh(value: u16, high: u8, low: u8)
    ensures
        joined(high, low) == 256 * high + low,
        big_endian(value).len() == 2,
        256 * big_endian(value)[0] + big_endian(value)[1] == value,
        little_endian(value).len() == 2,
        little_endian(value)[0] + 256 * little_endian(value)[1] == value,
{
}

} // verus!
