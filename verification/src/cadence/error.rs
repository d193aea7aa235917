use vstd::prelude::*;
use crate::text::push_str;

verus! {

/// Why a job could not be delivered or run.
#[derive(Debug, Clone, PartialEq, Eq)]
pub enum CadenceError {
    /// No channel is registered under the requested name.
    NoChannel,
    /// The channel refused the artifact.
    ArtifactNotAccepted,
    /// A channel or handler failed, with its message.
    Channel(String),
    /// A schedule's recurrence rule, given here, does not parse or does not
    /// validate from the schedule's start.
    InvalidRRule(String),
}

pub open spec fn cadence_error_message(e: CadenceError) -> Seq<char> {
    match e {
        CadenceError::NoChannel => "no channel registered"@,
        CadenceError::ArtifactNotAccepted => "artifact not accepted by channel"@,
        CadenceError::Channel(m) => "channel: "@ + m@,
        CadenceError::InvalidRRule(m) => "invalid rrule: "@ + m@,
    }
}

impl CadenceError {
    /// The error as shown to a reader.
    pub fn message(&self) -> (r: String)
        ensures
            r@ == cadence_error_message(*self),
    {
        match self {
            CadenceError::NoChannel => "no channel registered".to_string(),
            CadenceError::ArtifactNotAccepted => "artifact not accepted by channel".to_string(),
            CadenceError::Channel(m) => {
                let mut r = "channel: ".to_string();
                push_str(&mut r, m.as_str());
                r
            },
            CadenceError::InvalidRRule(m) => {
                let mut r = "invalid rrule: ".to_string();
                push_str(&mut r, m.as_str());
                r
            },
        }
    }
}

} // verus!
