//! Orchestration: one inbound command runs through authentication and
//! query construction to either a batched directory fetch or an immediate
//! failure response.  The surrounding application performs the one outbound
//! call and hands its outcome back to `directory::interpret_fetch` and
//! `message::format`; every decision in between is made here.

use vstd::prelude::*;
use crate::auth::authenticate;
use crate::message::OutboundMessage;
use crate::message::failure_message;
use crate::message::is_failure_message;
use crate::query::BatchQuery;
use crate::query::build;
use crate::query::login_names_of;
use crate::query::numeric_ids_of;

verus! {

/// One inbound invocation: the shared secret the caller presented and the
/// free-form command text.
#[derive(Debug)]
pub struct InboundCommand {
    pub token: String,
    pub text: String,
}

/// The credentials bundle one invocation runs with: the expected inbound
/// secret and the outbound directory credentials.  Fetched fresh for every
/// invocation and never kept.
#[derive(Debug)]
pub struct SecretsBundle {
    pub inbound_shared_secret: String,
    pub directory_client_id: String,
    pub directory_client_secret: String,
    pub directory_app_token: String,
}

/// What the handler decided to do with an inbound command.
pub enum PlanOutcome {
    /// Authentication and query construction succeeded: perform the one
    /// batched directory fetch for this query.
    Fetch(BatchQuery),
    /// The request ends here, with exactly this message.
    Respond(OutboundMessage),
}

/// Decides how to handle an inbound command.
///
/// A missing or mismatched shared secret, or a command text naming no
/// identifier, is terminal: the outcome is the one failure message for the
/// command text, and no directory call is made.  Otherwise the outcome is
/// the batched query to fetch; the fetch result then goes through
/// `directory::interpret_fetch` and `message::format` to the one response.
pub fn plan(command: &InboundCommand, expected_secret: &str) -> (r: PlanOutcome)
    ensures
        ({
            let tok = command.token@;
            let text = command.text@;
            let authed = tok.len() > 0 && tok == expected_secret@;
            let any = numeric_ids_of(text).len() > 0 || login_names_of(text).len() > 0;
            match r {
                PlanOutcome::Fetch(q) => authed && any && q.wf_for(text),
                PlanOutcome::Respond(m) => (!authed || !any) && is_failure_message(m, text),
            }
        }),
{
    match authenticate(command.token.as_str(), expected_secret) {
        Err(_) => PlanOutcome::Respond(failure_message(command.text.as_str())),
        Ok(()) => match build(command.text.as_str()) {
            Err(_) => PlanOutcome::Respond(failure_message(command.text.as_str())),
            Ok(q) => PlanOutcome::Fetch(q),
        },
    }
}

} // verus!
