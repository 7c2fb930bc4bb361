//! Address resolution: the strategies, their errors, and the address that
//! the reply of an address service yields.

use crate::ipv6::{is_ipv6_literal, is_ipv6_text, lemma_literal_is_trimmed};
use crate::text::{trim, trimmed};
use vstd::prelude::*;
use vstd::string::*;

verus! {

/// Why no address was resolved in a cycle.
#[derive(Debug, Clone, PartialEq, Eq)]
pub enum ResolveError {
    /// The address service's reply is no IPv6 address literal.
    InvalidAddress,
    /// The named interface does not exist or has no IPv6 address.
    InterfaceNotFound(String),
    /// No interface but loopback has an IPv6 address.
    NoAddressFound,
    /// The query itself failed; the text says how.
    Transport(String),
}

/// A `ResolveError` with its texts as character sequences.
pub enum ResolveErrorView {
    InvalidAddress,
    InterfaceNotFound(Seq<char>),
    NoAddressFound,
    Transport(Seq<char>),
}

impl View for ResolveError {
    type V = ResolveErrorView;

    open spec fn view(&self) -> ResolveErrorView {
        match *self {
            ResolveError::InvalidAddress => ResolveErrorView::InvalidAddress,
            ResolveError::InterfaceNotFound(name) => ResolveErrorView::InterfaceNotFound(name@),
            ResolveError::NoAddressFound => ResolveErrorView::NoAddressFound,
            ResolveError::Transport(cause) => ResolveErrorView::Transport(cause@),
        }
    }
}

/// The outcome of a resolution, with its texts as character sequences.
pub open spec fn resolution(r: Result<String, ResolveError>) -> Result<
    Seq<char>,
    ResolveErrorView,
> {
    match r {
        Ok(address) => Ok(address@),
        Err(e) => Err(e@),
    }
}

/// How the address is found.
#[derive(Debug, Clone, Copy, PartialEq, Eq, Structural)]
pub enum Ipv6Method {
    /// Ask an address service over HTTP.
    External,
    /// Read the addresses of the local network interfaces.
    Local,
}

/// The strategy chosen for a configured name, and whether the name was one
/// of the known ones. Where it was not, the choice is the fallback and the
/// caller owes its user a warning.
#[derive(Debug, Clone, Copy, PartialEq, Eq, Structural)]
pub struct MethodChoice {
    pub method: Ipv6Method,
    pub recognised: bool,
}

/// The strategy that a name stands for: `external` or `local`, exactly.
pub open spec fn method_named(name: Seq<char>) -> Option<Ipv6Method> {
    if name == "external"@ {
        Some(Ipv6Method::External)
    } else if name == "local"@ {
        Some(Ipv6Method::Local)
    } else {
        None
    }
}

/// The choice for a name: its strategy, or the External strategy as the
/// flagged fallback for any other name.
pub open spec fn method_choice(name: Seq<char>) -> MethodChoice {
    match method_named(name) {
        Some(method) => MethodChoice { method, recognised: true },
        None => MethodChoice { method: Ipv6Method::External, recognised: false },
    }
}

/// Tells whether `text` reads exactly as `word`.
pub fn text_is(text: &str, word: &str) -> (same: bool)
    ensures
        same == (text@ == word@),
{
    let a = String::from_str(text);
    let b = String::from_str(word);
    a == b
}

/// Chooses the strategy for a configured method name.
pub fn select_method(name: &str) -> (choice: MethodChoice)
    ensures
        choice == method_choice(name@),
{
    if text_is(name, "external") {
        MethodChoice { method: Ipv6Method::External, recognised: true }
    } else if text_is(name, "local") {
        MethodChoice { method: Ipv6Method::Local, recognised: true }
    } else {
        MethodChoice { method: Ipv6Method::External, recognised: false }
    }
}

/// The address that the body of an address service's reply yields: the
/// trimmed body where that is an IPv6 address literal.
pub open spec fn external_address(body: Seq<char>) -> Result<Seq<char>, ResolveErrorView> {
    if is_ipv6_literal(trimmed(body)) {
        Ok(trimmed(body))
    } else {
        Err(ResolveErrorView::InvalidAddress)
    }
}

/// A body that is itself an IPv6 address literal yields that literal.
pub proof fn lemma_literal_body_is_returned(body: Seq<char>)
    requires
        is_ipv6_literal(body),
    ensures
        external_address(body) == Ok::<Seq<char>, ResolveErrorView>(body),
{
    lemma_literal_is_trimmed(body);
}

/// Takes the address out of the body of an address service's reply: the
/// body without the white space around it, where that is an IPv6 address
/// literal. Any other body is an invalid address.
pub fn address_from_body(body: &str) -> (r: Result<String, ResolveError>)
    ensures
        resolution(r) == external_address(body@),
        is_ipv6_literal(body@) ==> r is Ok && r.unwrap()@ == body@,
        !is_ipv6_literal(trimmed(body@)) ==> r is Err && r.unwrap_err()@
            == ResolveErrorView::InvalidAddress,
        r is Ok ==> is_ipv6_literal(r.unwrap()@),
{
    proof {
        if is_ipv6_literal(body@) {
            lemma_literal_body_is_returned(body@);
        }
    }
    let address = trim(body);
    if is_ipv6_text(address.as_str()) {
        Ok(address)
    } else {
        Err(ResolveError::InvalidAddress)
    }
}

/// The error in words, for a log.
pub open spec fn resolve_error_text(e: ResolveErrorView) -> Seq<char> {
    match e {
        ResolveErrorView::InvalidAddress => "The address service did not return an IPv6 address"@,
        ResolveErrorView::InterfaceNotFound(name) => "No IPv6 address found for interface '"@
            + name + "'"@,
        ResolveErrorView::NoAddressFound => "No public IPv6 address found on any interface"@,
        ResolveErrorView::Transport(cause) => "Address query failed: "@ + cause,
    }
}

impl ResolveError {
    /// Says the error in words, for a log.
    pub fn message(&self) -> (text: String)
        ensures
            text@ == resolve_error_text(self@),
    {
        match self {
            ResolveError::InvalidAddress => String::from_str(
                "The address service did not return an IPv6 address",
            ),
            ResolveError::InterfaceNotFound(name) => {
                let mut text = String::from_str("No IPv6 address found for interface '");
                text.append(name.as_str());
                text.append("'");
                text
            },
            ResolveError::NoAddressFound => String::from_str(
                "No public IPv6 address found on any interface",
            ),
            ResolveError::Transport(cause) => {
                let mut text = String::from_str("Address query failed: ");
                text.append(cause.as_str());
                text
            },
        }
    }
}

} // verus!
