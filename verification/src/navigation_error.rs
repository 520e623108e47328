//! What can go wrong between a conversation and MindNProgress, and how it is answered.

use vstd::prelude::*;

use crate::text;

verus! {

/// Why a request could not be relayed to MindNProgress.
#[derive(Debug)]
pub enum MindNProgressNavigationError {
    /// The user has no such conversation.
    ConversationNotFound,
    /// The store failed.
    Storage,
    /// The integration is not set up on this device.
    NotConfigured,
    /// MindNProgress could not be reached.
    Unavailable,
    /// MindNProgress answered with something else than was expected.
    InvalidResponse,
    /// MindNProgress refused the request.
    Upstream { status: u16, code: Option<String>, message: String },
}

/// What an error says in a log.
pub open spec fn error_text(error: MindNProgressNavigationError) -> Seq<char> {
    match error {
        MindNProgressNavigationError::ConversationNotFound => "conversation not found"@,
        MindNProgressNavigationError::Storage => "integration storage failed"@,
        MindNProgressNavigationError::NotConfigured => "integration is not configured"@,
        MindNProgressNavigationError::Unavailable => "MindNProgress is unavailable"@,
        MindNProgressNavigationError::InvalidResponse => {
            "MindNProgress returned an invalid response"@
        },
        MindNProgressNavigationError::Upstream { .. } => "MindNProgress request failed"@,
    }
}

impl MindNProgressNavigationError {
    /// What the error says in a log.
    pub fn text(&self) -> (text: &'static str)
        ensures
            text@ == error_text(*self),
    {
        match self {
            MindNProgressNavigationError::ConversationNotFound => "conversation not found",
            MindNProgressNavigationError::Storage => "integration storage failed",
            MindNProgressNavigationError::NotConfigured => "integration is not configured",
            MindNProgressNavigationError::Unavailable => "MindNProgress is unavailable",
            MindNProgressNavigationError::InvalidResponse => {
                "MindNProgress returned an invalid response"
            },
            MindNProgressNavigationError::Upstream { .. } => "MindNProgress request failed",
        }
    }
}

/// An error as a client gets it.
#[derive(Debug)]
pub struct ApiError {
    /// The HTTP status.
    pub status: u16,
    /// A fixed name for the error.
    pub code: String,
    /// A message for the user.
    pub message: String,
}

impl ApiError {
    /// Whether this is the error with the given status, name and message.
    pub open spec fn is(self, status: u16, code: Seq<char>, message: Seq<char>) -> bool {
        &&& self.status == status
        &&& self.code@ == code
        &&& self.message@ == message
    }

    /// An error with a status, a name and a message.
    pub fn coded(status: u16, code: &str, message: String) -> (error: Self)
        ensures
            error.is(status, code@, message@),
    {
        ApiError { status, code: code.to_owned(), message }
    }

    /// The HTTP status.
    pub fn status_code(&self) -> (status: u16)
        ensures
            status == self.status,
    {
        self.status
    }

    /// The name of the error.
    pub fn error_code(&self) -> (code: &str)
        ensures
            code@ == self.code@,
    {
        self.code.as_str()
    }

    /// The message for the user.
    pub fn public_message(&self) -> (message: &str)
        ensures
            message@ == self.message@,
    {
        self.message.as_str()
    }
}

/// Whether a refusal of MindNProgress is one that clients know, and is handed on as it is.
pub open spec fn is_known_refusal(status: u16, code: Seq<char>) -> bool {
    ||| status == 400 && (code == "MNP_AI_CONVERSATION_ID_INVALID"@ || code
        == "MNP_SELECTION_ACCOUNT_REQUIRED"@ || code == "MNP_SELECTION_DEVICE_ADDRESS_INVALID"@
        || code == "MNP_SELECTION_DEVICE_REQUIRED"@)
    ||| status == 403 && (code == "MNP_LOCAL_SELECTION_REQUIRED"@ || code
        == "MNP_SELECTION_ACCOUNT_UNAVAILABLE"@ || code == "MNP_SELECTION_ACCOUNT_MISMATCH"@)
    ||| status == 404 && code == "MNP_AI_CONVERSATION_NOT_FOUND"@
    ||| status == 409 && (code == "MNP_LOCAL_VIEW_NOT_CONNECTED"@ || code
        == "MNP_MATCHING_VIEW_NOT_CONNECTED"@)
}

/// Whether an error is the answer to a refusal of MindNProgress: one that clients know comes
/// through with its status and name, a refused token and anything else counts as a failure of the
/// integration. The message comes through in any case.
pub open spec fn answers_upstream(
    error: ApiError,
    status: u16,
    code: Option<Seq<char>>,
    message: Seq<char>,
) -> bool {
    match code {
        Some(code) if is_known_refusal(status, code) => error.is(status, code, message),
        _ => if status == 401 {
            error.is(502, "MNP_INTEGRATION_AUTH_FAILED"@, message)
        } else {
            error.is(502, "MNP_INTEGRATION_UPSTREAM_ERROR"@, message)
        },
    }
}

/// Whether an error is the answer to a request that could not be relayed.
pub open spec fn answers(error: ApiError, cause: MindNProgressNavigationError) -> bool {
    match cause {
        MindNProgressNavigationError::ConversationNotFound => error.is(
            404,
            "MNP_AIONUI_CONVERSATION_NOT_FOUND"@,
            "Conversation was not found for the current user."@,
        ),
        MindNProgressNavigationError::Storage => error.is(
            500,
            "MNP_INTEGRATION_STORAGE_FAILED"@,
            "MindNProgress integration storage lookup failed."@,
        ),
        MindNProgressNavigationError::NotConfigured => error.is(
            502,
            "MNP_INTEGRATION_NOT_CONFIGURED"@,
            "MindNProgress integration is not configured on this device."@,
        ),
        MindNProgressNavigationError::Unavailable => error.is(
            502,
            "MNP_INTEGRATION_UNAVAILABLE"@,
            "MindNProgress is not available on this device."@,
        ),
        MindNProgressNavigationError::InvalidResponse => error.is(
            502,
            "MNP_INTEGRATION_RESPONSE_INVALID"@,
            "MindNProgress returned an invalid response."@,
        ),
        MindNProgressNavigationError::Upstream { status, code, message } => answers_upstream(
            error,
            status,
            text::opt_text(code),
            message@,
        ),
    }
}

/// Whatever MindNProgress refuses a request for, its message reaches the client, and the status is
/// its own only together with a name that clients know.
pub proof fn upstream_message_reaches_the_client(
    error: ApiError,
    status: u16,
    code: Option<Seq<char>>,
    message: Seq<char>,
)
    requires
        answers_upstream(error, status, code, message),
    ensures
        error.message@ == message,
        error.status == 502 || (error.status == status && code == Some(error.code@)
            && is_known_refusal(status, error.code@)),
{
}

fn is_known(status: u16, code: &str) -> (r: bool)
    ensures
        r == is_known_refusal(status, code@),
{
    if status == 400 {
        text::same(code, "MNP_AI_CONVERSATION_ID_INVALID") || text::same(
            code,
            "MNP_SELECTION_ACCOUNT_REQUIRED",
        ) || text::same(code, "MNP_SELECTION_DEVICE_ADDRESS_INVALID") || text::same(
            code,
            "MNP_SELECTION_DEVICE_REQUIRED",
        )
    } else if status == 403 {
        text::same(code, "MNP_LOCAL_SELECTION_REQUIRED") || text::same(
            code,
            "MNP_SELECTION_ACCOUNT_UNAVAILABLE",
        ) || text::same(code, "MNP_SELECTION_ACCOUNT_MISMATCH")
    } else if status == 404 {
        text::same(code, "MNP_AI_CONVERSATION_NOT_FOUND")
    } else if status == 409 {
        text::same(code, "MNP_LOCAL_VIEW_NOT_CONNECTED") || text::same(
            code,
            "MNP_MATCHING_VIEW_NOT_CONNECTED",
        )
    } else {
        false
    }
}

/// The answer to a request that MindNProgress refused.
pub fn map_upstream_error(status: u16, code: Option<&str>, message: String) -> (error: ApiError)
    ensures
        answers_upstream(
            error,
            status,
            match code {
                Some(code) => Some(code@),
                None => None,
            },
            message@,
        ),
{
    if let Some(code) = code {
        if is_known(status, code) {
            return ApiError::coded(status, code, message);
        }
    }
    if status == 401 {
        ApiError::coded(502, "MNP_INTEGRATION_AUTH_FAILED", message)
    } else {
        ApiError::coded(502, "MNP_INTEGRATION_UPSTREAM_ERROR", message)
    }
}

/// The answer to a request that could not be relayed.
pub fn map_navigation_error(cause: MindNProgressNavigationError) -> (error: ApiError)
    ensures
        answers(error, cause),
{
    match cause {
        MindNProgressNavigationError::ConversationNotFound => ApiError::coded(
            404,
            "MNP_AIONUI_CONVERSATION_NOT_FOUND",
            "Conversation was not found for the current user.".to_owned(),
        ),
        MindNProgressNavigationError::Storage => ApiError::coded(
            500,
            "MNP_INTEGRATION_STORAGE_FAILED",
            "MindNProgress integration storage lookup failed.".to_owned(),
        ),
        MindNProgressNavigationError::NotConfigured => ApiError::coded(
            502,
            "MNP_INTEGRATION_NOT_CONFIGURED",
            "MindNProgress integration is not configured on this device.".to_owned(),
        ),
        MindNProgressNavigationError::Unavailable => ApiError::coded(
            502,
            "MNP_INTEGRATION_UNAVAILABLE",
            "MindNProgress is not available on this device.".to_owned(),
        ),
        MindNProgressNavigationError::InvalidResponse => ApiError::coded(
            502,
            "MNP_INTEGRATION_RESPONSE_INVALID",
            "MindNProgress returned an invalid response.".to_owned(),
        ),
        MindNProgressNavigationError::Upstream { status, code, message } => {
            match code {
                Some(code) => map_upstream_error(status, Some(code.as_str()), message),
                None => map_upstream_error(status, None, message),
            }
        },
    }
}

} // verus!
