use vstd::prelude::*;
use crate::text::push_str;

verus! {

/// What the Discord side of the bot can fail with.
#[derive(Debug, Clone, PartialEq, Eq)]
pub enum TowerError {
    /// The channel configuration could not be read; the message says why.
    ChannelConfig(String),
}

impl TowerError {
    /// The error as shown to a reader: `discord channel config: <why>`.
    pub fn message(&self) -> (r: String)
        ensures
            r@ == tower_error_message(*self),
    {
        match self {
            TowerError::ChannelConfig(why) => {
                let mut r = "discord channel config: ".to_string();
                push_str(&mut r, why.as_str());
                r
            },
        }
    }
}

pub open spec fn tower_error_message(e: TowerError) -> Seq<char> {
    match e {
        TowerError::ChannelConfig(why) => "discord channel config: "@ + why@,
    }
}

} // verus!
