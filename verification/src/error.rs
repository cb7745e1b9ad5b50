//! The error type shared by the library.

use vstd::prelude::*;

verus! {

/// What can go wrong in the library.
#[derive(Debug, Clone)]
pub enum RtpSipError {
    /// An RTP, SRTP or DTMF operation failed; the text says how.
    Rtp(String),
    /// A codec is unknown or unusable; the text says which.
    Codec(String),
    /// No remote endpoint has been set.
    NotConnected,
    /// The engine is already running.
    AlreadyStarted,
    /// The channel between the receive task and its reader is gone.
    ChannelClosed,
}

impl RtpSipError {
    /// The error is an RTP error with exactly this text.
    pub open spec fn is_rtp(self, text: Seq<char>) -> bool {
        self matches RtpSipError::Rtp(s) && s@ == text
    }

    /// The error is a codec error with exactly this text.
    pub open spec fn is_codec(self, text: Seq<char>) -> bool {
        self matches RtpSipError::Codec(s) && s@ == text
    }

    /// The text that `message` gives for each error.
    pub open spec fn text(self) -> Seq<char> {
        match self {
            RtpSipError::Rtp(s) => "RTP error: "@ + s@,
            RtpSipError::Codec(s) => "Codec error: "@ + s@,
            RtpSipError::NotConnected => "Not connected"@,
            RtpSipError::AlreadyStarted => "Already started"@,
            RtpSipError::ChannelClosed => "Channel closed"@,
        }
    }

    /// Human-readable description.
    pub fn message(&self) -> (s: String)
        ensures
            s@ == self.text(),
    {
        match self {
            RtpSipError::Rtp(s) => String::from_str("RTP error: ").concat(s.as_str()),
            RtpSipError::Codec(s) => String::from_str("Codec error: ").concat(s.as_str()),
            RtpSipError::NotConnected => String::from_str("Not connected"),
            RtpSipError::AlreadyStarted => String::from_str("Already started"),
            RtpSipError::ChannelClosed => String::from_str("Channel closed"),
        }
    }
}

/// An RTP error with the given text.
pub fn rtp_error(text: &str) -> (e: RtpSipError)
    ensures
        e.is_rtp(text@),
{
    RtpSipError::Rtp(String::from_str(text))
}

} // verus!
