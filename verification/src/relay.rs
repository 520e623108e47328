//! Requests that are relayed to MindNProgress, and what becomes of its answers.

use vstd::prelude::*;
use vstd::string::*;

use crate::device_address::IpAddress;
use crate::integration;
use crate::integration::MindNProgressIntegration;
use crate::navigation_error::MindNProgressNavigationError;
use crate::text;

verus! {

/// The header in which MindNProgress is told which device a selection is for.
pub const SELECTION_DEVICE_ADDRESS_HEADER: &'static str = "x-mnp-selection-device-address";

/// How a request is made.
#[derive(Debug, Clone, Copy, PartialEq, Eq, Structural)]
pub enum RelayMethod {
    /// Something is asked.
    Get,
    /// Something is to be done.
    Post,
}

/// A request to MindNProgress.
#[derive(Debug)]
pub struct RelayRequest {
    /// How it is made.
    pub method: RelayMethod,
    /// Where it goes.
    pub url: String,
    /// The token that goes with it.
    pub bearer_token: String,
    /// The device that it is for, if that is not this machine.
    pub device_address: Option<IpAddress>,
}

/// What MindNProgress says of a request that it refuses.
#[derive(Debug)]
pub struct MindNProgressErrorResponse {
    /// What is wrong.
    pub error: Option<String>,
    /// What is wrong, in another place.
    pub message: Option<String>,
    /// A fixed name for it.
    pub code: Option<String>,
}

/// The token that a file holds, if it could be read and is not blank.
pub open spec fn usable_token(content: Option<Seq<char>>) -> Option<Seq<char>> {
    match content {
        Some(content) => if text::blank(content) {
            None
        } else {
            Some(text::trimmed(content))
        },
        None => None,
    }
}

/// Whether a request asks for the link of a conversation, or for the selection of its card.
pub open spec fn is_relay(
    request: RelayRequest,
    integration: MindNProgressIntegration,
    token: Seq<char>,
    conversation_id: Seq<char>,
    select: bool,
    device_address: Option<IpAddress>,
) -> bool {
    &&& request.method == if select {
        RelayMethod::Post
    } else {
        RelayMethod::Get
    }
    &&& Some(request.url@) == integration::url_with_segments(
        integration.api_base_url@,
        integration::endpoint_segments(conversation_id, select),
    )
    &&& integration::goes_below(request.url@, integration.api_base_url@)
    &&& integration::is_kept_segment(conversation_id) ==> integration::has_segments(
        request.url@,
        integration.api_base_url@,
        integration::endpoint_segments(conversation_id, select),
    )
    &&& integration::is_plain_segment(conversation_id) ==> request.url@ == integration.api_base_url@
        + text::joined(integration::endpoint_segments(conversation_id, select), "/"@)
    &&& request.bearer_token@ == token
    &&& request.device_address == device_address
}

/// The request for the link of a conversation, or for the selection of its card. `token` is what
/// the file with the token holds, if it could be read.
pub fn relay_request(
    integration: &MindNProgressIntegration,
    token: Option<String>,
    conversation_id: &str,
    select: bool,
    device_address: Option<IpAddress>,
) -> (request: Result<RelayRequest, MindNProgressNavigationError>)
    requires
        integration.wf(),
        integration::fits_endpoint(conversation_id@),
    ensures
        match usable_token(text::opt_text(token)) {
            Some(token) => request matches Ok(request) && is_relay(
                request,
                *integration,
                token,
                conversation_id@,
                select,
                device_address,
            ),
            None => request matches Err(error) && error is NotConfigured,
        },
{
    let content: String = match token {
        Some(content) => content,
        None => {
            return Err(MindNProgressNavigationError::NotConfigured);
        },
    };
    let token: &str = text::trim(content.as_str());
    proof {
        text::lemma_trimmed_blank(content@);
    }
    if token.is_empty() {
        return Err(MindNProgressNavigationError::NotConfigured);
    }
    let method: RelayMethod = if select {
        RelayMethod::Post
    } else {
        RelayMethod::Get
    };
    match integration.endpoint(conversation_id, select) {
        Ok(url) => Ok(
            RelayRequest { method, url, bearer_token: token.to_owned(), device_address },
        ),
        Err(error) => Err(error),
    }
}

/// Whether a status says that a request was met.
pub open spec fn is_success(status: u16) -> bool {
    200 <= status < 300
}

/// Tells whether a status says that a request was met.
pub fn succeeded(status: u16) -> (r: bool)
    ensures
        r == is_success(status),
{
    200 <= status && status < 300
}

/// The answer of MindNProgress to a request that it met, if it makes sense.
pub fn met_request<T>(answer: Option<T>) -> (r: Result<T, MindNProgressNavigationError>)
    ensures
        match answer {
            Some(answer) => r == Ok::<T, MindNProgressNavigationError>(answer),
            None => r matches Err(error) && error is InvalidResponse,
        },
{
    match answer {
        Some(answer) => Ok(answer),
        None => Err(MindNProgressNavigationError::InvalidResponse),
    }
}

/// What is said of a request that MindNProgress refused: what it says itself, or else a general
/// message.
pub open spec fn refusal_message(body: Option<MindNProgressErrorResponse>) -> Seq<char> {
    match body {
        Some(MindNProgressErrorResponse { error: Some(error), .. }) => error@,
        Some(MindNProgressErrorResponse { message: Some(message), .. }) => message@,
        _ => "MindNProgress request failed."@,
    }
}

/// The name that MindNProgress gives for its refusal, if it gives one.
pub open spec fn refusal_code(body: Option<MindNProgressErrorResponse>) -> Option<Seq<char>> {
    match body {
        Some(body) => text::opt_text(body.code),
        None => None,
    }
}

/// Whether an error stands for a request that MindNProgress refused.
pub open spec fn is_refusal(
    error: MindNProgressNavigationError,
    status: u16,
    body: Option<MindNProgressErrorResponse>,
) -> bool {
    error matches MindNProgressNavigationError::Upstream { status: given, code, message } && given
        == status && text::opt_text(code) == refusal_code(body) && message@ == refusal_message(body)
}

/// The error for a request that MindNProgress refused, with what it says of that, if it makes
/// sense.
pub fn refused_request(status: u16, body: Option<MindNProgressErrorResponse>) -> (error:
    MindNProgressNavigationError)
    ensures
        is_refusal(error, status, body),
{
    let (code, stated): (Option<String>, Option<String>) = match body {
        Some(body) => (
            body.code,
            match body.error {
                Some(error) => Some(error),
                None => body.message,
            },
        ),
        None => (None, None),
    };
    let message: String = match stated {
        Some(message) => message,
        None => "MindNProgress request failed.".to_owned(),
    };
    MindNProgressNavigationError::Upstream { status, code, message }
}

} // verus!
