//! What the canister answers on its HTTP routes and greeting.
use vstd::prelude::*;

use crate::ledger::{refusal_message, stored_of, Ledger, Submission};
use crate::sealing::{nonce_of, sealed};

verus! {

/// How an HTTP request reached the canister.
#[derive(Debug, Clone, Copy, PartialEq, Eq, Structural)]
pub enum CallKind {
    /// A read-only query call.
    Query,
    /// A state-changing update call.
    Update,
}

/// The answer to a form submission.
#[derive(Debug)]
pub enum FormReply {
    /// Ask the client to repeat the request as an update call.
    Upgrade,
    /// Refuse the request, with an optional message.
    BadRequest(Option<String>),
    /// The submission was stored.
    Accepted,
}

/// The message that refuses a request body that could not be read.
pub open spec fn invalid_body_message(err: Seq<char>) -> Seq<char> {
    "Content body seems invalid: "@ + err
}

/// Handles `POST /form/{form_id}`. A query call is upgraded; an update call
/// without a form id, or whose body could not be read, is refused; otherwise
/// the body is posted to the form, and refused with the ledger's message
/// when the ledger refuses it.
pub fn handle_form_post(
    ledger: &mut Ledger,
    call: CallKind,
    form_id: Option<String>,
    body: Result<Submission, String>,
) -> (r: FormReply)
    requires
        old(ledger).wf(),
    ensures
        final(ledger).wf(),
        match (call, form_id, body) {
            (CallKind::Query, _, _) => r is Upgrade && final(ledger)@ == old(ledger)@ && final(ledger).stored()
                == old(ledger).stored(),
            (CallKind::Update, None, _) => r matches FormReply::BadRequest(None) && final(ledger)@ == old(ledger)@
                && final(ledger).stored() == old(ledger).stored(),
            (CallKind::Update, Some(_), Err(e)) => r matches FormReply::BadRequest(Some(m))
                && m@ == invalid_body_message(e@) && final(ledger)@ == old(ledger)@ && final(ledger).stored()
                == old(ledger).stored(),
            (CallKind::Update, Some(id), Ok(entry)) => if old(ledger)@.accepts_entry(id@, entry@) {
                &&& r is Accepted
                &&& final(ledger)@ == old(ledger)@.with_entry(id@, entry@)
                &&& final(ledger).stored() == old(ledger).stored().insert(
                    id@,
                    stored_of(old(ledger).stored(), id@).push(
                        sealed(old(ledger)@.keys[id@], nonce_of(old(ledger)@.entries_of(id@).len()), entry@),
                    ),
                )
            } else {
                &&& r matches FormReply::BadRequest(Some(m))
                &&& m@ == refusal_message(old(ledger)@, id@, entry@)
                &&& final(ledger)@ == old(ledger)@
                &&& final(ledger).stored() == old(ledger).stored()
            },
        },
{
    match call {
        CallKind::Query => FormReply::Upgrade,
        CallKind::Update => {
            let id = match form_id {
                Some(id) => id,
                None => {
                    return FormReply::BadRequest(None);
                },
            };
            let entry = match body {
                Ok(entry) => entry,
                Err(e) => {
                    let mut m = String::from_str("Content body seems invalid: ");
                    m.append(e.as_str());
                    return FormReply::BadRequest(Some(m));
                },
            };
            match ledger.add_entry(id, entry) {
                Ok(_) => FormReply::Accepted,
                Err(err) => FormReply::BadRequest(Some(err.to_string())),
            }
        },
    }
}

/// The body of `GET /hello`.
pub fn hello_body() -> (s: String)
    ensures
        s@ == "Formchain Canister version 1"@,
{
    String::from_str("Formchain Canister version 1")
}

/// Greets `name`.
pub fn greet(name: String) -> (s: String)
    ensures
        s@ == "Hello, "@ + name@ + "!"@,
{
    let mut s = String::from_str("Hello, ");
    s.append(name.as_str());
    s.append("!");
    s
}

} // verus!
