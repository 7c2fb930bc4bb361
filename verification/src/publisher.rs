//! The provider's update request and the judgement of its reply.

use crate::text::{decimal_text, format_decimal};
use vstd::prelude::*;
use vstd::string::*;

verus! {

/// Why the provider did not take the update.
#[derive(Debug, Clone, PartialEq, Eq)]
pub enum PublishError {
    /// The provider answered outside the success class.
    ProviderRejected { status: u16, body: String },
    /// The request itself failed; the text says how.
    Transport(String),
}

/// A `PublishError` with its texts as character sequences.
pub enum PublishErrorView {
    ProviderRejected { status: u16, body: Seq<char> },
    Transport(Seq<char>),
}

impl View for PublishError {
    type V = PublishErrorView;

    open spec fn view(&self) -> PublishErrorView {
        match *self {
            PublishError::ProviderRejected { status, body } => PublishErrorView::ProviderRejected {
                status,
                body: body@,
            },
            PublishError::Transport(cause) => PublishErrorView::Transport(cause@),
        }
    }
}

/// The outcome of a publication, with its texts as character sequences.
pub open spec fn publication(r: Result<(), PublishError>) -> Result<(), PublishErrorView> {
    match r {
        Ok(_) => Ok(()),
        Err(e) => Err(e@),
    }
}

/// The update request for a domain, its token and an address: the provider's
/// endpoint with the three as query parameters, and a verbose reply asked for.
pub open spec fn update_url_text(domain: Seq<char>, token: Seq<char>, address: Seq<char>) -> Seq<
    char,
> {
    "https://www.duckdns.org/update?domains="@ + domain + "&token="@ + token + "&ipv6="@ + address
        + "&verbose=true"@
}

/// Builds the URL of the update request. It holds the token: it is for the
/// request alone, never for a log.
pub fn update_url(domain: &str, token: &str, address: &str) -> (url: String)
    ensures
        url@ == update_url_text(domain@, token@, address@),
{
    let mut url = String::from_str("https://www.duckdns.org/update?domains=");
    url.append(domain);
    url.append("&token=");
    url.append(token);
    url.append("&ipv6=");
    url.append(address);
    url.append("&verbose=true");
    url
}

/// True for the status codes of the HTTP success class, 200 to 299.
pub open spec fn is_success_status(status: u16) -> bool {
    200 <= status < 300
}

/// What a reply of the provider means: success for a status of the success
/// class, a rejection with status and body for any other.
pub open spec fn provider_verdict(status: u16, body: Seq<char>) -> Result<(), PublishErrorView> {
    if is_success_status(status) {
        Ok(())
    } else {
        Err(PublishErrorView::ProviderRejected { status, body })
    }
}

/// Judges the provider's reply by its status class alone.
pub fn judge_response(status: u16, body: String) -> (r: Result<(), PublishError>)
    ensures
        publication(r) == provider_verdict(status, body@),
{
    if 200 <= status && status < 300 {
        Ok(())
    } else {
        Err(PublishError::ProviderRejected { status, body })
    }
}

/// The error in words, for a log. The provider's body is left out.
pub open spec fn publish_error_text(e: PublishErrorView) -> Seq<char> {
    match e {
        PublishErrorView::ProviderRejected { status, body } => "DuckDNS update failed with status: "@
            + decimal_text(status as nat),
        PublishErrorView::Transport(cause) => "DuckDNS update request failed: "@ + cause,
    }
}

impl PublishError {
    /// Says the error in words, for a log.
    pub fn message(&self) -> (text: String)
        ensures
            text@ == publish_error_text(self@),
    {
        match self {
            PublishError::ProviderRejected { status, body } => {
                let mut text = String::from_str("DuckDNS update failed with status: ");
                let code = format_decimal(*status);
                text.append(code.as_str());
                text
            },
            PublishError::Transport(cause) => {
                let mut text = String::from_str("DuckDNS update request failed: ");
                text.append(cause.as_str());
                text
            },
        }
    }
}

} // verus!
