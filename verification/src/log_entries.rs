//! Channels of persisted execution log entries.
use vstd::prelude::*;

use crate::text::{chars_of, chars_eq, push_str};

verus! {

/// Which stream a log entry belongs to.
#[derive(Clone, Copy, Debug, PartialEq, Eq, Structural)]
pub enum LogEntryChannel {
    Raw,
    Normalized,
}

/// Name of a channel.
pub open spec fn channel_name(c: LogEntryChannel) -> Seq<char> {
    match c {
        LogEntryChannel::Raw => "raw"@,
        LogEntryChannel::Normalized => "normalized"@,
    }
}

impl LogEntryChannel {
    /// Name of the channel.
    pub fn as_str(&self) -> (r: &'static str)
        ensures
            r@ == channel_name(*self),
    {
        match self {
            LogEntryChannel::Raw => "raw",
            LogEntryChannel::Normalized => "normalized",
        }
    }

    /// The channel with the given name; other names are refused with a message naming them.
    pub fn parse(value: &str) -> (r: Result<LogEntryChannel, String>)
        ensures
            match r {
                Ok(c) => channel_name(c) == value@,
                Err(msg) => value@ != "raw"@ && value@ != "normalized"@
                    && msg@ == "Unknown log entry channel: "@ + value@,
            },
    {
        let v = chars_of(value);
        if chars_eq(&v, &chars_of("raw")) {
            Ok(LogEntryChannel::Raw)
        } else if chars_eq(&v, &chars_of("normalized")) {
            Ok(LogEntryChannel::Normalized)
        } else {
            let mut msg = String::new();
            push_str(&mut msg, "Unknown log entry channel: ");
            push_str(&mut msg, value);
            Err(msg)
        }
    }
}

impl std::str::FromStr for LogEntryChannel {
    type Err = String;

    fn from_str(value: &str) -> (r: Result<Self, Self::Err>)
        ensures
            match r {
                Ok(c) => channel_name(c) == value@,
                Err(msg) => value@ != "raw"@ && value@ != "normalized"@
                    && msg@ == "Unknown log entry channel: "@ + value@,
            },
    {
        LogEntryChannel::parse(value)
    }
}

} // verus!
