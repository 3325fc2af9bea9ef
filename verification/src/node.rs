//! What a node does once a finished text has been kept: tell the clients
//! and the webhook.

use vstd::prelude::*;

verus! {

/// Who is told about a new record.
#[derive(Debug, Clone, Copy, PartialEq, Eq, Structural)]
pub struct Publication {
    /// Push the record to the connected clients.
    pub broadcast: bool,
    /// Post the record to the webhook.
    pub post: bool,
}

/// Who is told about a record, given whether it could be made durable and
/// whether a webhook is configured: nobody hears of a record that could not
/// be kept, the clients hear of every record that was, and the webhook as
/// well if there is one.
pub fn publication(stored: bool, webhook_configured: bool) -> (plan: Publication)
    ensures
        plan == (Publication { broadcast: stored, post: stored && webhook_configured }),
{
    Publication { broadcast: stored, post: stored && webhook_configured }
}

} // verus!
