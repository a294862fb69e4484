//! The connection loop's decisions: what to do for a decoded request, and
//! what to answer once the store has been asked.

use vstd::prelude::*;
use crate::dn::well_formed;
use crate::filter::SearchFilter;
use crate::session::{
    bind_outcome, planned_query, replies_view, search_replies, BindResult, LdapSession, Reply,
    ResultCode, SearchScope,
};
use crate::digest::sha512_hex;
use crate::store::{fetched_view, QueryView, StoreQuery, UserDef};

verus! {

/// A request as the codec hands it over.
#[derive(Debug)]
pub enum Request {
    /// A simple bind with a name and a plain credential.
    SimpleBind { dn: String, pw: String },
    /// A search below a base.
    Search { base: String, scope: SearchScope, filter: SearchFilter },
    /// The question who the session is bound as.
    Whoami,
    /// The end of the session, asked for by the client.
    Unbind,
    /// Anything the codec could not decode or does not serve.
    Undecodable,
}

/// What the connection loop does next.
#[derive(Clone, Debug, PartialEq, Eq)]
pub enum Step {
    /// Ask the store, then answer with what it gave.
    Lookup(StoreQuery),
    /// Answer at once; the store is not needed.
    Respond,
    /// Send a notice of disconnection with this code and message, then end
    /// the connection.
    Disconnect(ResultCode, String),
    /// End the connection without a word.
    Close,
}

/// The answer to a request.
#[derive(Clone, Debug, PartialEq, Eq)]
pub enum Response {
    Bind(BindResult),
    Search(Vec<Reply>),
    Whoami(String),
}

/// The step that a request calls for. A bind or a search with a well-formed
/// name asks the store first, with a malformed one it is answered at once;
/// so is the question who the session is. An unbind closes quietly, and a
/// request that could not be decoded closes with a notice.
pub open spec fn step_for(req: Request, step: Step) -> bool {
    match req {
        Request::SimpleBind { dn, pw } => if well_formed(dn@) {
            step matches Step::Lookup(q) && q@ == (QueryView { key: dn@, exact: true })
        } else {
            step == Step::Respond
        },
        Request::Search { base, scope, filter } => if well_formed(base@) {
            step matches Step::Lookup(q) && q@ == planned_query(base@, scope, filter)
        } else {
            step == Step::Respond
        },
        Request::Whoami => step == Step::Respond,
        Request::Unbind => step == Step::Close,
        Request::Undecodable => step matches Step::Disconnect(code, msg) && code
            == ResultCode::Other && msg@ == "Internal Server Error"@,
    }
}

/// The session after a request and the answer to it, by the kind of request:
/// each is what the operation of that kind gives. Requests that end the
/// connection have no answer and leave the session alone.
pub open spec fn answered(
    before: LdapSession,
    after: LdapSession,
    req: Request,
    fetched: Result<Vec<UserDef>, String>,
    answer: Option<Response>,
) -> bool {
    match req {
        Request::SimpleBind { dn, pw } => answer matches Some(Response::Bind(r)) && bind_outcome(
            before@,
            after@,
            r.code,
            r.message@,
            dn@,
            fetched_view(fetched),
            sha512_hex(pw@),
        ),
        Request::Search { base, scope, filter } => answer matches Some(Response::Search(replies))
            && after == before && replies_view(replies@) == search_replies(
            before@,
            base@,
            scope,
            filter,
            fetched_view(fetched),
        ),
        Request::Whoami => answer matches Some(Response::Whoami(text)) && after == before
            && text@ == "dn: "@ + before@.dn,
        Request::Unbind => answer is None && after == before,
        Request::Undecodable => answer is None && after == before,
    }
}

/// Decides the next step for a request.
pub fn next_step(req: &Request) -> (step: Step)
    ensures
        step_for(*req, step),
{
    match req {
        Request::SimpleBind { dn, pw: _ } => match LdapSession::bind_query(dn.as_str()) {
            Some(q) => Step::Lookup(q),
            None => Step::Respond,
        },
        Request::Search { base, scope, filter } => match LdapSession::search_query(
            base.as_str(),
            *scope,
            filter,
        ) {
            Some(q) => Step::Lookup(q),
            None => Step::Respond,
        },
        Request::Whoami => Step::Respond,
        Request::Unbind => Step::Close,
        Request::Undecodable => Step::Disconnect(
            ResultCode::Other,
            String::from_str("Internal Server Error"),
        ),
    }
}

/// Answers a request, given what the store returned for its lookup (anything
/// where `next_step` asked for none: it is not read then).
pub fn respond(session: &mut LdapSession, req: &Request, fetched: Result<Vec<UserDef>, String>)
    -> (answer: Option<Response>)
    ensures
        answered(*old(session), *final(session), *req, fetched, answer),
{
    match req {
        Request::SimpleBind { dn, pw } => Some(
            Response::Bind(session.do_bind(dn.as_str(), pw.as_str(), fetched)),
        ),
        Request::Search { base, scope, filter } => Some(
            Response::Search(session.do_search(base.as_str(), *scope, filter, fetched)),
        ),
        Request::Whoami => Some(Response::Whoami(session.do_whoami())),
        Request::Unbind => None,
        Request::Undecodable => None,
    }
}

} // verus!
