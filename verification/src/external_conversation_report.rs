//! The request to persist a report from outside, and its answer.

use vstd::prelude::*;

verus! {

/// Persist a visible external report without starting or interrupting an agent.
/// The operation ID is immutable and scoped to the target conversation.
#[derive(Debug, Clone)]
pub struct ExternalConversationReportRequest {
    /// What the report is known by within its conversation.
    pub operation_id: String,
    /// The report.
    pub content: String,
}

/// What became of a report.
#[derive(Debug, Clone)]
pub struct ExternalConversationReportResponse {
    /// What the report is known by within its conversation.
    pub operation_id: String,
    /// The conversation it belongs to.
    pub conversation_id: String,
    /// The message that holds it.
    pub message_id: String,
    /// The SHA-256 digest of the report, in hexadecimal.
    pub content_hash: String,
    /// Whether it had been delivered before.
    pub repeated: bool,
    /// Whether an agent is to act on it.
    pub execution_requested: bool,
}

} // verus!
