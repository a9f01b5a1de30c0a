//! What goes wrong on the air, and what to say about it.
use vstd::prelude::*;

use crate::text::decimal;

verus! {

/// Why a frame, a packet or an exchange was refused.
#[derive(Clone, Copy, Debug, PartialEq, Eq, Structural)]
pub enum WirelessHartError {
    /// A payload over what one DLPDU carries.
    PayloadTooLong,
    /// A frame over what the PHY holds.
    FrameTooLong,
    /// A frame that ends inside its headers.
    FrameCutOff,
    /// A check sequence that is not the frame's.
    CheckSequence,
    /// A frame control that is not that of a data frame with short addresses.
    NotDataFrame,
    /// An address specifier other than two short nicknames.
    LongAddresses,
    /// A DLPDU that is neither data nor an acknowledgement.
    UnknownSpecifier(u8),
    /// Commands over what one packet carries.
    TooManyCommands,
    /// A packet that ends inside its headers.
    PacketCutOff,
    /// A network or security control other than the one carried here.
    UnknownControl,
    /// A command that ends inside its number or its byte count.
    NumberCutOff,
    /// A command that ends before its byte count is met.
    DataCutOff,
    /// A device that did not answer in time.
    NoAnswer,
    /// An answer that holds no answer to the command asked.
    OtherCommand,
    /// A packet that holds no command.
    NoCommand,
    /// A Stream whose last chunk never comes.
    Endless,
    /// A target whose device is not a nickname.
    NotANickname,
}

/// The message of `error`, word for word.
pub open spec fn message_of(error: WirelessHartError) -> Seq<char> {
    match error {
        WirelessHartError::PayloadTooLong => "more than one DLPDU carries"@,
        WirelessHartError::FrameTooLong => "more than the PHY holds"@,
        WirelessHartError::FrameCutOff => "a DLPDU cut off inside its headers"@,
        WirelessHartError::CheckSequence => "a check sequence that does not check"@,
        WirelessHartError::NotDataFrame => "not a data frame with short addresses"@,
        WirelessHartError::LongAddresses => "long addresses this crate does not carry"@,
        WirelessHartError::UnknownSpecifier(specifier) => {
            "a DLPDU this crate does not carry: "@ + crate::text::in_decimal(specifier as nat)
        },
        WirelessHartError::TooManyCommands => "more commands than one packet carries"@,
        WirelessHartError::PacketCutOff => "a packet cut off inside its headers"@,
        WirelessHartError::UnknownControl => "a control byte this crate does not carry"@,
        WirelessHartError::NumberCutOff => "a command cut off inside its number"@,
        WirelessHartError::DataCutOff => "a command cut off before its byte count"@,
        WirelessHartError::NoAnswer => "the device did not answer"@,
        WirelessHartError::OtherCommand => "an answer to another command"@,
        WirelessHartError::NoCommand => "a packet with no command"@,
        WirelessHartError::Endless => "a Stream that never ends"@,
        WirelessHartError::NotANickname => "is not a nickname"@,
    }
}

impl WirelessHartError {
    /// What went wrong, in words. That of [`Self::NotANickname`] follows the
    /// text that is not one.
    pub fn message(&self) -> (text: String)
        ensures
            text@ == message_of(*self),
    {
        match self {
            WirelessHartError::PayloadTooLong => "more than one DLPDU carries".to_string(),
            WirelessHartError::FrameTooLong => "more than the PHY holds".to_string(),
            WirelessHartError::FrameCutOff => "a DLPDU cut off inside its headers".to_string(),
            WirelessHartError::CheckSequence => "a check sequence that does not check".to_string(),
            WirelessHartError::NotDataFrame => "not a data frame with short addresses".to_string(),
            WirelessHartError::LongAddresses => {
                "long addresses this crate does not carry".to_string()
            },
            WirelessHartError::UnknownSpecifier(specifier) => {
                let mut text = "a DLPDU this crate does not carry: ".to_string();
                text.append(decimal(*specifier as u16).as_str());
                text
            },
            WirelessHartError::TooManyCommands => {
                "more commands than one packet carries".to_string()
            },
            WirelessHartError::PacketCutOff => "a packet cut off inside its headers".to_string(),
            WirelessHartError::UnknownControl => {
                "a control byte this crate does not carry".to_string()
            },
            WirelessHartError::NumberCutOff => "a command cut off inside its number".to_string(),
            WirelessHartError::DataCutOff => "a command cut off before its byte count".to_string(),
            WirelessHartError::NoAnswer => "the device did not answer".to_string(),
            WirelessHartError::OtherCommand => "an answer to another command".to_string(),
            WirelessHartError::NoCommand => "a packet with no command".to_string(),
            WirelessHartError::Endless => "a Stream that never ends".to_string(),
            WirelessHartError::NotANickname => "is not a nickname".to_string(),
        }
    }

    /// Whether trying again may help: a device may be slow to answer, but
    /// what is malformed stays so.
    pub fn retryable(&self) -> (again: bool)
        ensures
            again == (*self == WirelessHartError::NoAnswer),
    {
        matches!(self, WirelessHartError::NoAnswer)
    }
}

/// The message of a specifier that is not carried ends in its number.
pub proof fn lemma_message_names_the_specifier(specifier: u8)
    ensures
        message_of(WirelessHartError::UnknownSpecifier(specifier))
            == "a DLPDU this crate does not carry: "@ + crate::text::in_decimal(specifier as nat),
{
}

} // verus!
