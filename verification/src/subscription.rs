//! The decision core of the subscription callback endpoint: from the
//! parsed pieces of an incoming callback request to the HTTP status and
//! body to answer with, and the subscription configuration model.

use vstd::prelude::*;
use vstd::string::StringExecFns;

verus! {

/// How subscriptions reach the client.
#[derive(Debug, Clone, PartialEq, Eq)]
pub enum SubscriptionMode {
    /// Through a callback URL the router exposes.
    Callback { public_url: String },
    /// Through a direct websocket connection to the subgraph.
    Passthrough,
}

impl Default for SubscriptionMode {
    fn default() -> (r: Self)
        ensures
            r is Passthrough,
    {
        SubscriptionMode::Passthrough
    }
}

/// A listening address.
#[derive(Debug, Clone, PartialEq, Eq)]
pub enum ListenAddr {
    SocketAddr(String),
}

/// The address the callback endpoint listens on by default.
pub fn default_listen_addr() -> (r: ListenAddr)
    ensures
        r is SocketAddr,
        r->SocketAddr_0@ == "127.0.0.1:4000"@,
{
    ListenAddr::SocketAddr(String::from_str("127.0.0.1:4000"))
}

/// What a callback request decodes to before the decision is taken.
pub enum CallbackEvent {
    /// The request path did not carry a well-formed subscription id.
    BadId,
    /// The request body could not be read or decoded; the text says why.
    BadBody(String),
    /// A well-formed payload for the subscription with the given id.
    Payload(u128),
}

/// The decision taken for a callback request.
pub enum CallbackDecision {
    /// Answer 400 with the given text, nothing published.
    Reject(String),
    /// Answer 404: no live subscription carries the id.
    NotFound,
    /// Publish the payload to the subscription and answer 200 `ok`.
    Publish(u128),
}

/// Decides a callback request: a malformed id or body is rejected, a
/// payload for an unknown subscription is not found, and a payload for a
/// live subscription is published.
pub fn callback_decision(event: CallbackEvent, subscription_exists: bool) -> (r: CallbackDecision)
    ensures
        event is BadId ==> r is Reject && r->Reject_0@ == "cannot convert the subscription id"@,
        event matches CallbackEvent::BadBody(why) ==> r == CallbackDecision::Reject(why),
        event matches CallbackEvent::Payload(id) ==> (
            if subscription_exists {
                r == CallbackDecision::Publish(id)
            } else {
                r is NotFound
            }
        ),
{
    match event {
        CallbackEvent::BadId => CallbackDecision::Reject(String::from_str("cannot convert the subscription id")),
        CallbackEvent::BadBody(why) => CallbackDecision::Reject(why),
        CallbackEvent::Payload(id) => {
            if subscription_exists {
                CallbackDecision::Publish(id)
            } else {
                CallbackDecision::NotFound
            }
        },
    }
}

/// The HTTP status code a callback decision answers with.
pub fn callback_status(decision: &CallbackDecision) -> (r: u16)
    ensures
        decision is Reject ==> r == 400,
        decision is NotFound ==> r == 404,
        decision is Publish ==> r == 200,
{
    match decision {
        CallbackDecision::Reject(_) => 400,
        CallbackDecision::NotFound => 404,
        CallbackDecision::Publish(_) => 200,
    }
}

/// Relies on `uuid::Uuid::from_str` (via `parse_str`): whether the text
/// is a well-formed UUID, and its 128-bit value, are functions of the
/// text alone.
pub uninterp spec fn uuid_of(s: Seq<char>) -> Option<u128>;

/// Relies on `uuid::Uuid::parse_str`: parses a subscription id from the
/// callback request path, as a 128-bit value.
#[verifier::external_body]
pub fn parse_subscription_id(s: &str) -> (r: Option<u128>)
    ensures
        r == uuid_of(s@),
{
    match uuid::Uuid::parse_str(s) {
        Ok(u) => Option::Some(u.as_u128()),
        Err(_) => Option::None,
    }
}

} // verus!
