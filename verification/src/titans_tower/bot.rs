use vstd::prelude::*;
use crate::text::push_str;

verus! {

/// Lets the command error handler decide whether an error may be shown to
/// the user as it is, or must be replaced by a generic reply and logged.
pub trait UserFacingError {
    fn is_user_facing(&self) -> bool;
}

/// What a user is told when a command fails with an error that must not be shown.
pub const INTERNAL_ERROR_REPLY: &'static str = "Internal error \u{2014} check the logs.";

/// What a user is told when a command panicked.
pub const PANIC_REPLY: &'static str = "Internal error \u{2014} the command panicked. Check the logs.";

/// The reply to a failed command: the error itself when it is meant for the
/// user, else the generic message.
pub open spec fn error_reply(user_facing: bool, message: Seq<char>) -> Seq<char> {
    if user_facing {
        "Error: "@ + message
    } else {
        INTERNAL_ERROR_REPLY@
    }
}

/// The reply to a failed command whose error reads `message`.
pub fn command_error_reply(user_facing: bool, message: &str) -> (r: String)
    ensures
        r@ == error_reply(user_facing, message@),
{
    if user_facing {
        let mut r = "Error: ".to_string();
        push_str(&mut r, message);
        r
    } else {
        INTERNAL_ERROR_REPLY.to_string()
    }
}

} // verus!
