//! The feedback webhook's payload: what a caller submits and how each
//! kind is titled. The HTTP delivery lives with the runtime outside the
//! library.

use vstd::prelude::*;

verus! {

/// Which webhook a submission feeds.
#[derive(Clone, Copy, Debug, PartialEq, Eq, Structural)]
pub enum WebhookType {
    Feedback,
    BugReport,
}

impl WebhookType {
    /// The embed title each kind is published under.
    pub fn title(&self) -> (r: String)
        ensures
            *self is Feedback ==> r@ == "Feedback"@,
            *self is BugReport ==> r@ == "Bug Report"@,
    {
        match self {
            WebhookType::Feedback => "Feedback".to_owned(),
            WebhookType::BugReport => "Bug Report".to_owned(),
        }
    }
}

/// A feedback submission.
#[derive(Debug)]
pub struct SendWebhookPayload {
    pub wh_type: WebhookType,
    pub content: String,
}

} // verus!
