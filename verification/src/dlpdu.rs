//! The data link protocol data unit as the 802.15.4 radio carries it: the
//! MAC header — frame control, sequence, PAN, two short addresses — then
//! the DLPDU header of IEC 62591 — an address specifier, a sequence, the
//! network identifier, destination and source nicknames, the DLPDU
//! specifier — the payload, a four-byte MIC, and the CRC-16 the MAC ends
//! with. Data and acknowledgement are the two kinds carried here.
//!
//! The MIC is AES-CCM* under the network key the network manager hands out
//! at join. This crate carries the field; a loopback radio, holding no key,
//! leaves it zero, and a keyed link fills and checks it.
use vstd::prelude::*;
use vstd::slice::slice_subrange;
use vstd::slice::slice_to_vec;

use crate::bytes::join;
use crate::bytes::push_all;
use crate::bytes::push_big_endian;
use crate::bytes::push_little_endian;
use crate::error::WirelessHartError;

pub use crate::crc::crc16;

verus! {

/// The most a PHY packet holds.
pub const MAX_PHY: usize = 127;

/// The MAC header with short addresses and its check sequence.
pub const MAC_OVERHEAD: usize = 9 + 2;

/// The DLPDU header and its MIC.
pub const DLPDU_OVERHEAD: usize = 9 + 4;

/// What one DLPDU carries: the network layer's whole packet.
pub const MAX_PAYLOAD: usize = MAX_PHY - MAC_OVERHEAD - DLPDU_OVERHEAD;

/// The gateway's well-known nickname.
pub const GATEWAY: u16 = 0xf981;

/// The network manager's well-known nickname.
pub const NETWORK_MANAGER: u16 = 0xf980;

/// Frame control, first byte: a data frame, PAN identifier compression.
pub const DATA_FRAME: u8 = 0x41;

/// Frame control, second byte: short addresses both ways.
pub const SHORT_FRAME: u8 = 0x88;

/// Address specifier: both nicknames short.
pub const SHORT_ADDRESSES: u8 = 0x00;

/// DLPDU specifier: a data DLPDU at normal priority.
pub const SPECIFIER_DATA: u8 = 0x07;

/// DLPDU specifier: an acknowledgement.
pub const SPECIFIER_ACK: u8 = 0x00;

/// What a DLPDU is.
#[derive(Clone, Copy, Debug, PartialEq, Eq, Structural)]
pub enum Kind {
    Data,
    Ack,
}

impl Kind {
    /// The specifier a DLPDU of this kind goes out with.
    pub open spec fn specifier(self) -> u8 {
        match self {
            Kind::Data => SPECIFIER_DATA,
            Kind::Ack => SPECIFIER_ACK,
        }
    }
}

/// One DLPDU between two nicknames on one network.
#[derive(Debug, PartialEq, Eq)]
pub struct Dlpdu {
    pub kind: Kind,
    pub sequence: u8,
    pub network: u16,
    pub destination: u16,
    pub source: u16,
    pub payload: Vec<u8>,
}

/// A DLPDU as a value: the same fields, the payload a sequence.
#[verifier::ext_equal]
pub struct DlpduView {
    pub kind: Kind,
    pub sequence: u8,
    pub network: u16,
    pub destination: u16,
    pub source: u16,
    pub payload: Seq<u8>,
}

impl View for Dlpdu {
    type V = DlpduView;

    open spec fn view(&self) -> DlpduView {
        DlpduView {
            kind: self.kind,
            sequence: self.sequence,
            network: self.network,
            destination: self.destination,
            source: self.source,
            payload: self.payload@,
        }
    }
}

impl Clone for Dlpdu {
    fn clone(&self) -> (copy: Self)
        ensures
            copy@ == self@,
    {
        Dlpdu {
            kind: self.kind,
            sequence: self.sequence,
            network: self.network,
            destination: self.destination,
            source: self.source,
            payload: slice_to_vec(self.payload.as_slice()),
        }
    }
}

impl DlpduView {
    /// Whether the PHY holds it.
    pub open spec fn fits(self) -> bool {
        self.payload.len() <= MAX_PAYLOAD
    }

    /// The nine bytes of the MAC header.
    pub open spec fn mac_header(self) -> Seq<u8> {
        seq![DATA_FRAME, SHORT_FRAME, self.sequence] + crate::bytes::little_endian(self.network)
            + crate::bytes::little_endian(self.destination) + crate::bytes::little_endian(
            self.source,
        )
    }

    /// The nine bytes of the DLPDU header.
    pub open spec fn dlpdu_header(self) -> Seq<u8> {
        seq![SHORT_ADDRESSES, self.sequence] + crate::bytes::big_endian(self.network)
            + crate::bytes::big_endian(self.destination) + crate::bytes::big_endian(self.source)
            + seq![self.kind.specifier()]
    }

    /// Everything the check sequence covers: the headers, the payload and an
    /// empty MIC.
    pub open spec fn body(self) -> Seq<u8> {
        self.mac_header() + self.dlpdu_header() + self.payload + seq![0u8, 0, 0, 0]
    }

    /// The frame as the radio carries it, check sequence last.
    pub open spec fn frame(self) -> Seq<u8> {
        self.body() + crate::bytes::little_endian(crate::crc::check_sequence(self.body()))
    }

    /// Why `bytes` are no DLPDU, the first reason there is.
    pub open spec fn refusal(bytes: Seq<u8>) -> Option<WirelessHartError> {
        let end = bytes.len() - 2;
        if bytes.len() > MAX_PHY {
            Some(WirelessHartError::FrameTooLong)
        } else if bytes.len() < MAC_OVERHEAD + DLPDU_OVERHEAD {
            Some(WirelessHartError::FrameCutOff)
        } else if crate::crc::check_sequence(bytes.take(end)) != crate::bytes::joined(
            bytes[end + 1],
            bytes[end],
        ) {
            Some(WirelessHartError::CheckSequence)
        } else if bytes[0] != DATA_FRAME || bytes[1] != SHORT_FRAME {
            Some(WirelessHartError::NotDataFrame)
        } else if bytes[9] != SHORT_ADDRESSES {
            Some(WirelessHartError::LongAddresses)
        } else if bytes[17] % 8 != SPECIFIER_DATA && bytes[17] % 8 != SPECIFIER_ACK {
            Some(WirelessHartError::UnknownSpecifier((bytes[17] % 8) as u8))
        } else {
            None
        }
    }

    /// The fields of a frame where the DLPDU header has them, and what lies
    /// between that header and the MIC.
    pub open spec fn fields(bytes: Seq<u8>) -> DlpduView {
        DlpduView {
            kind: if bytes[17] % 8 == SPECIFIER_DATA {
                Kind::Data
            } else {
                Kind::Ack
            },
            sequence: bytes[10],
            network: crate::bytes::joined(bytes[11], bytes[12]),
            destination: crate::bytes::joined(bytes[13], bytes[14]),
            source: crate::bytes::joined(bytes[15], bytes[16]),
            payload: bytes.subrange(18, bytes.len() - 6),
        }
    }

    /// The DLPDU `bytes` are, or why they are none.
    pub open spec fn read(bytes: Seq<u8>) -> Result<DlpduView, WirelessHartError> {
        match DlpduView::refusal(bytes) {
            Some(error) => Err(error),
            None => Ok(DlpduView::fields(bytes)),
        }
    }
}

impl Dlpdu {
    /// A DLPDU, refusing more than the PHY holds.
    ///
    /// # Errors
    /// A payload over [`MAX_PAYLOAD`].
    pub fn new(
        kind: Kind,
        sequence: u8,
        network: u16,
        destination: u16,
        source: u16,
        payload: &[u8],
    ) -> (made: Result<Self, WirelessHartError>)
        ensures
            match made {
                Ok(dlpdu) => payload@.len() <= MAX_PAYLOAD && dlpdu@ == (DlpduView {
                    kind,
                    sequence,
                    network,
                    destination,
                    source,
                    payload: payload@,
                }),
                Err(error) => payload@.len() > MAX_PAYLOAD && error
                    == WirelessHartError::PayloadTooLong,
            },
            made is Ok <==> payload@.len() <= 103,
    {
        if payload.len() > MAX_PAYLOAD {
            return Err(WirelessHartError::PayloadTooLong);
        }
        Ok(Self { kind, sequence, network, destination, source, payload: slice_to_vec(payload) })
    }

    /// The DLPDU as the radio carries it, check sequence last.
    #[must_use]
    pub fn encode(&self) -> (frame: Vec<u8>)
        ensures
            frame@ == self@.frame(),
    {
        let mut out: Vec<u8> = Vec::new();
        out.push(DATA_FRAME);
        out.push(SHORT_FRAME);
        out.push(self.sequence);
        push_little_endian(&mut out, self.network);
        push_little_endian(&mut out, self.destination);
        push_little_endian(&mut out, self.source);
        assert(out@ =~= self@.mac_header());
        out.push(SHORT_ADDRESSES);
        out.push(self.sequence);
        push_big_endian(&mut out, self.network);
        push_big_endian(&mut out, self.destination);
        push_big_endian(&mut out, self.source);
        out.push(
            match self.kind {
                Kind::Data => SPECIFIER_DATA,
                Kind::Ack => SPECIFIER_ACK,
            },
        );
        assert(out@ =~= self@.mac_header() + self@.dlpdu_header());
        push_all(&mut out, self.payload.as_slice());
        out.push(0);
        out.push(0);
        out.push(0);
        out.push(0);
        assert(out@ =~= self@.body());
        let check: u16 = crc16(out.as_slice());
        push_little_endian(&mut out, check);
        out
    }

    /// Exactly one DLPDU, its check sequence checked.
    ///
    /// # Errors
    /// More than the PHY holds, a frame cut off, not a data frame, a check
    /// sequence that does not check, or a specifier this crate does not
    /// carry.
    pub fn decode(bytes: &[u8]) -> (read: Result<Self, WirelessHartError>)
        ensures
            match read {
                Ok(dlpdu) => DlpduView::read(bytes@) == Ok::<DlpduView, WirelessHartError>(dlpdu@),
                Err(error) => DlpduView::read(bytes@) == Err::<DlpduView, WirelessHartError>(error),
            },
    {
        if bytes.len() > MAX_PHY {
            return Err(WirelessHartError::FrameTooLong);
        }
        if bytes.len() < MAC_OVERHEAD + DLPDU_OVERHEAD {
            return Err(WirelessHartError::FrameCutOff);
        }
        let end: usize = bytes.len() - 2;
        let body = slice_subrange(bytes, 0, end);
        assert(body@ =~= bytes@.take(end as int));
        if crc16(body) != join(bytes[end + 1], bytes[end]) {
            return Err(WirelessHartError::CheckSequence);
        }
        if bytes[0] != DATA_FRAME || bytes[1] != SHORT_FRAME {
            return Err(WirelessHartError::NotDataFrame);
        }
        if bytes[9] != SHORT_ADDRESSES {
            return Err(WirelessHartError::LongAddresses);
        }
        let specifier: u8 = bytes[17] % 8;
        let kind = if specifier == SPECIFIER_DATA {
            Kind::Data
        } else if specifier == SPECIFIER_ACK {
            Kind::Ack
        } else {
            return Err(WirelessHartError::UnknownSpecifier(specifier));
        };
        Ok(
            Self {
                kind,
                sequence: bytes[10],
                network: join(bytes[11], bytes[12]),
                destination: join(bytes[13], bytes[14]),
                source: join(bytes[15], bytes[16]),
                payload: slice_to_vec(slice_subrange(bytes, 18, bytes.len() - 6)),
            },
        )
    }
}

/// A frame is its payload and a fixed overhead, and one whose payload fits
/// is no more than the PHY holds.
pub proof fn lemma_frame_length(dlpdu: DlpduView)
    ensures
        dlpdu.frame().len() == MAC_OVERHEAD + DLPDU_OVERHEAD + dlpdu.payload.len(),
        dlpdu.fits() <==> dlpdu.frame().len() <= MAX_PHY,
{
}

/// What goes out reads back: every DLPDU the PHY holds is what its frame is
/// read as.
pub proof fn lemma_frame_reads_back(dlpdu: DlpduView)
    requires
        dlpdu.fits(),
    ensures
        DlpduView::read(dlpdu.frame()) == Ok::<DlpduView, WirelessHartError>(dlpdu),
{
    let frame = dlpdu.frame();
    let end = frame.len() - 2;
    assert(frame.take(end) =~= dlpdu.body());
    crate::bytes::lemma_split_then_join(crate::crc::check_sequence(dlpdu.body()));
    crate::bytes::lemma_split_then_join(dlpdu.network);
    crate::bytes::lemma_split_then_join(dlpdu.destination);
    crate::bytes::lemma_split_then_join(dlpdu.source);
    assert(frame.subrange(18, frame.len() - 6) =~= dlpdu.payload);
    assert(DlpduView::fields(frame) =~= dlpdu);
}

/// A frame that reads is refused once it is changed, where the change is
/// within two neighbouring bytes.
pub proof fn lemma_changed_neighbours_are_refused(frame: Seq<u8>, changed: Seq<u8>, at: int)
    requires
        DlpduView::read(frame) is Ok,
        changed.len() == frame.len(),
        changed != frame,
        0 <= at < frame.len(),
        forall|i: int| 0 <= i < frame.len() && i != at && i != at + 1 ==> changed[i] == frame[i],
    ensures
        DlpduView::read(changed) == Err::<DlpduView, WirelessHartError>(
            WirelessHartError::CheckSequence,
        ),
{
    let end = frame.len() - 2;
    let body = frame.take(end);
    let other = changed.take(end);
    crate::bytes::lemma_join_then_split(frame[end + 1], frame[end]);
    crate::bytes::lemma_join_then_split(changed[end + 1], changed[end]);
    if at + 1 < end {
        assert(body != other) by {
            if body == other {
                assert forall|i: int| 0 <= i < frame.len() implies changed[i] == frame[i] by {
                    if i < end {
                        assert(body[i] == other[i]);
                    }
                }
                assert(changed =~= frame);
            }
        }
        crate::crc::lemma_neighbours_change_the_check(body, other, at);
    } else if at + 1 == end && frame[at] != changed[at] {
        let before = body.drop_last();
        assert(body =~= before.push(frame[at]));
        assert(other =~= before.push(changed[at]));
        crate::crc::lemma_last_byte_changes_the_high(before, frame[at], changed[at]);
    } else {
        assert(body =~= other);
        assert(frame[end] != changed[end] || frame[end + 1] != changed[end + 1]) by {
            if frame[end] == changed[end] && frame[end + 1] == changed[end + 1] {
                assert forall|i: int| 0 <= i < frame.len() implies changed[i] == frame[i] by {
                    if i < end {
                        assert(body[i] == other[i]);
                    }
                }
                assert(changed =~= frame);
            }
        }
    }
}

/// Where a frame has what a DLPDU holds, byte by byte: the MAC's fields with
/// the low byte first, the DLPDU's own with the high byte first, the payload,
/// an empty MIC, and the check sequence of all that with its low byte first.
pub proof fn lemma_where_the_fields_are(dlpdu: DlpduView)
    ensures
        ({
            let frame = dlpdu.frame();
            let end = 18int + dlpdu.payload.len();
            &&& frame.len() == end + 6
            &&& frame[0] == 0x41 && frame[1] == 0x88 && frame[2] == dlpdu.sequence
            &&& frame[3] + 256 * frame[4] == dlpdu.network
            &&& frame[5] + 256 * frame[6] == dlpdu.destination
            &&& frame[7] + 256 * frame[8] == dlpdu.source
            &&& frame[9] == 0 && frame[10] == dlpdu.sequence
            &&& 256 * frame[11] + frame[12] == dlpdu.network
            &&& 256 * frame[13] + frame[14] == dlpdu.destination
            &&& 256 * frame[15] + frame[16] == dlpdu.source
            &&& dlpdu.kind == Kind::Data ==> frame[17] == 7
            &&& dlpdu.kind == Kind::Ack ==> frame[17] == 0
            &&& frame.subrange(18, end) == dlpdu.payload
            &&& frame.subrange(end, end + 4) == seq![0u8, 0, 0, 0]
            &&& frame[end + 4] + 256 * frame[end + 5] == crate::crc::check_sequence(
                frame.take(end + 4),
            )
        }),
{
    let frame = dlpdu.frame();
    let end = 18int + dlpdu.payload.len();
    assert(frame.take(end + 4) =~= dlpdu.body());
    assert(frame.subrange(18, end) =~= dlpdu.payload);
    assert(frame.subrange(end, end + 4) =~= seq![0u8, 0, 0, 0]);
}

/// What is read of a frame, byte by byte, from the DLPDU's own header alone.
pub proof fn lemma_what_the_fields_say(bytes: Seq<u8>)
    requires
        DlpduView::read(bytes) is Ok,
    ensures
        ({
            let dlpdu = DlpduView::read(bytes)->Ok_0;
            &&& dlpdu.kind == Kind::Data <==> bytes[17] % 8 == 7
            &&& dlpdu.kind == Kind::Ack <==> bytes[17] % 8 == 0
            &&& dlpdu.sequence == bytes[10]
            &&& dlpdu.network == 256 * bytes[11] + bytes[12]
            &&& dlpdu.destination == 256 * bytes[13] + bytes[14]
            &&& dlpdu.source == 256 * bytes[15] + bytes[16]
            &&& dlpdu.payload.len() == bytes.len() - 24
            &&& forall|i: int|
                0 <= i < dlpdu.payload.len() ==> #[trigger] dlpdu.payload[i] == bytes[18 + i]
        }),
{
}

/// What is a DLPDU and what is not, each reason with the bytes it is given
/// for: too many or too few, a check sequence that is not theirs, and the
/// three bytes and three bits that say what they are.
pub proof fn lemma_what_is_a_dlpdu(bytes: Seq<u8>)
    ensures
        ({
            let read = DlpduView::read(bytes);
            let length = bytes.len() as int;
            let checks = crate::crc::check_sequence(bytes.take(length - 2)) == bytes[length - 2]
                + 256 * bytes[length - 1];
            let sized = 24 <= length <= 127;
            let data = bytes[0] == 0x41 && bytes[1] == 0x88;
            let short = bytes[9] == 0;
            let carried = bytes[17] % 8 == 7 || bytes[17] % 8 == 0;
            &&& read is Ok <==> sized && checks && data && short && carried
            &&& length > 127 ==> read == Err::<DlpduView, WirelessHartError>(
                WirelessHartError::FrameTooLong,
            )
            &&& length < 24 ==> read == Err::<DlpduView, WirelessHartError>(
                WirelessHartError::FrameCutOff,
            )
            &&& sized && !checks ==> read == Err::<DlpduView, WirelessHartError>(
                WirelessHartError::CheckSequence,
            )
            &&& sized && checks && !data ==> read == Err::<DlpduView, WirelessHartError>(
                WirelessHartError::NotDataFrame,
            )
            &&& sized && checks && data && !short ==> read == Err::<DlpduView, WirelessHartError>(
                WirelessHartError::LongAddresses,
            )
            &&& sized && checks && data && short && !carried ==> read == Err::<
                DlpduView,
                WirelessHartError,
            >(WirelessHartError::UnknownSpecifier((bytes[17] % 8) as u8))
        }),
{
}

/// A DLPDU as a value has what the DLPDU has.
pub proof fn lemma_dlpdu_is_its_fields(dlpdu: Dlpdu)
    ensures
        dlpdu@.kind == dlpdu.kind,
        dlpdu@.sequence == dlpdu.sequence,
        dlpdu@.network == dlpdu.network,
        dlpdu@.destination == dlpdu.destination,
        dlpdu@.source == dlpdu.source,
        dlpdu@.payload == dlpdu.payload@,
{
}

} // verus!
