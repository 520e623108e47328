//! Reports from outside that are stored in a conversation once and never change.
//!
//! History-only delivery deliberately does not touch the runtime, leases or agent queue.

use sha2::{Digest, Sha256};
use vstd::prelude::*;
use vstd::string::*;
use vstd::utf8::*;

use crate::external_conversation_report::{
    ExternalConversationReportRequest, ExternalConversationReportResponse,
};
use crate::text;

verus! {

/// The SHA-256 digest of some bytes.
pub uninterp spec fn sha256(bytes: Seq<u8>) -> Seq<u8>;

/// What serde_json writes for a pair of texts.
pub uninterp spec fn json_pair(first: Seq<char>, second: Seq<char>) -> Seq<u8>;

/// What serde_json writes for an object with two members that are texts.
pub uninterp spec fn json_object(
    first_key: Seq<char>,
    first: Seq<char>,
    second_key: Seq<char>,
    second: Seq<char>,
) -> Seq<char>;

/// The text that serde_json reads as the member `key` of a document.
pub uninterp spec fn json_member(document: Seq<char>, key: Seq<char>) -> Option<Seq<char>>;

/// `Sha256::digest` of sha2: the SHA-256 digest, which has 32 bytes.
#[verifier::external_body]
fn sha256_digest(bytes: &[u8]) -> (digest: Vec<u8>)
    ensures
        digest@ == sha256(bytes@),
        digest@.len() == 32,
{
    Sha256::digest(bytes).to_vec()
}

/// Whether JSON writes a text as it stands: it has no quote, backslash or control character.
pub open spec fn needs_no_escape(s: Seq<char>) -> bool {
    forall|i: int|
        0 <= i < s.len() ==> (#[trigger] s[i]) >= ' ' && s[i] != '"' && s[i] != '\\'
}

/// A JSON array of two texts that are written as they stand.
pub open spec fn plain_json_pair(first: Seq<char>, second: Seq<char>) -> Seq<char> {
    seq!['[', '"'] + first + seq!['"', ',', '"'] + second + seq!['"', ']']
}

/// What holds of the bytes that a message ID is derived from: no other conversation or operation
/// gives the same bytes, and they are a compact array where nothing is escaped.
pub open spec fn is_report_key(
    bytes: Seq<u8>,
    conversation_id: Seq<char>,
    operation_id: Seq<char>,
) -> bool {
    &&& bytes == json_pair(conversation_id, operation_id)
    &&& forall|conversation: Seq<char>, operation: Seq<char>| #[trigger]
        json_pair(conversation, operation) == bytes ==> conversation == conversation_id
            && operation == operation_id
    &&& needs_no_escape(conversation_id) && needs_no_escape(operation_id) ==> bytes == encode_utf8(
        plain_json_pair(conversation_id, operation_id),
    )
}

/// `serde_json::to_vec` on a pair of texts, which it can always write: the bytes depend on the
/// two texts alone, no other pair is written as the same bytes, and they are a compact array of
/// the texts where nothing in them is escaped. How other characters are escaped is not stated.
#[verifier::external_body]
fn json_pair_bytes(first: &str, second: &str) -> (bytes: Vec<u8>)
    ensures
        bytes@ == json_pair(first@, second@),
        is_report_key(bytes@, first@, second@),
{
    serde_json::to_vec(&(first, second)).expect("string tuple")
}

/// Whether two keys differ and have no `$` in them, as the keys that serde_json reserves for
/// itself have.
pub open spec fn plain_keys(first: Seq<char>, second: Seq<char>) -> bool {
    first != second && !first.contains('$') && !second.contains('$')
}

/// `serde_json::Value::to_string` on an object with two members: the text depends on the keys and
/// the members alone, and both members can be read back from it where their keys differ and are
/// not reserved.
#[verifier::external_body]
fn json_object_text(first_key: &str, first: &str, second_key: &str, second: &str) -> (document:
    String)
    ensures
        document@ == json_object(first_key@, first@, second_key@, second@),
        plain_keys(first_key@, second_key@) ==> json_member(document@, first_key@) == Some(first@),
        plain_keys(first_key@, second_key@) ==> json_member(document@, second_key@) == Some(
            second@,
        ),
{
    let mut members = serde_json::Map::new();
    members.insert(first_key.to_owned(), serde_json::Value::String(first.to_owned()));
    members.insert(second_key.to_owned(), serde_json::Value::String(second.to_owned()));
    serde_json::Value::Object(members).to_string()
}

/// `serde_json::from_str` into a `Value`, and the member `key` of it: the member where the
/// document is an object that has it as a text, and none where it is not one, has no such member,
/// or cannot be read at all.
#[verifier::external_body]
fn json_text_member(document: &str, key: &str) -> (member: Option<String>)
    ensures
        text::opt_text(member) == json_member(document@, key@),
{
    let value: serde_json::Value = serde_json::from_str(document).unwrap_or_default();
    value[key].as_str().map(str::to_owned)
}

/// What can go wrong in a conversation.
#[derive(Debug)]
pub enum ConversationError {
    /// The request cannot be met as it stands.
    BadRequest { reason: String },
    /// There is no such conversation for the user.
    NotFound { id: String },
    /// There is no such message in the conversation.
    MessageNotFound { id: String },
    /// The request conflicts with what is there.
    Busy { reason: String },
    /// Something that should not happen did.
    Internal { reason: String },
    /// The store failed.
    Storage { reason: String },
}

/// A message of a conversation, as it is stored.
#[derive(Debug)]
pub struct MessageRow {
    /// The key of the row.
    pub id: String,
    /// The conversation it belongs to.
    pub conversation_id: String,
    /// What the message is known by.
    pub msg_id: Option<String>,
    /// The kind of message.
    pub message_type: String,
    /// What it says, as JSON.
    pub content: String,
    /// The side it is shown on.
    pub position: Option<String>,
    /// How far it has come.
    pub status: Option<String>,
    /// Whether it is kept from view.
    pub hidden: bool,
    /// When it was made, in milliseconds since 1970.
    pub created_at: i64,
    /// The turn of the agent that it belongs to.
    pub backend_turn_id: Option<String>,
}

/// The largest operation ID, in bytes.
pub const MAX_OPERATION_ID_BYTES: usize = 128;

/// The largest report, in bytes.
pub const MAX_REPORT_BYTES: usize = 262_144;

/// Whether an operation ID may have this character.
pub open spec fn is_operation_char(c: char) -> bool {
    ||| 'a' <= c <= 'z'
    ||| 'A' <= c <= 'Z'
    ||| '0' <= c <= '9'
    ||| c == '-' || c == '_' || c == ':' || c == '.' || c == '/'
}

/// Whether a report can be taken: its operation ID is a short name in plain characters, and it
/// says something without being too long.
pub open spec fn is_valid_report(request: ExternalConversationReportRequest) -> bool {
    &&& request.operation_id@.len() > 0
    &&& text::byte_len(request.operation_id@) <= MAX_OPERATION_ID_BYTES
    &&& forall|i: int|
        0 <= i < request.operation_id@.len() ==> is_operation_char(
            #[trigger] request.operation_id@[i],
        )
    &&& !text::blank(request.content@)
    &&& text::byte_len(request.content@) <= MAX_REPORT_BYTES
}

/// The ID of the message that holds a report: it is fixed by the conversation and the operation.
pub open spec fn report_message_id(conversation_id: Seq<char>, operation_id: Seq<char>) -> Seq<
    char,
> {
    "external-report-"@ + text::lower_hex(sha256(json_pair(conversation_id, operation_id)))
}

/// The hash of a report.
pub open spec fn report_content_hash(content: Seq<char>) -> Seq<char> {
    text::lower_hex(sha256(encode_utf8(content)))
}

/// Whether a row holds a report, visible and unaltered.
pub open spec fn is_report_row(
    row: MessageRow,
    conversation_id: Seq<char>,
    operation_id: Seq<char>,
    content: Seq<char>,
    created_at: i64,
) -> bool {
    &&& row.id@ == report_message_id(conversation_id, operation_id)
    &&& is_report_key(json_pair(conversation_id, operation_id), conversation_id, operation_id)
    &&& row.conversation_id@ == conversation_id
    &&& text::opt_text(row.msg_id) == Some(row.id@)
    &&& row.message_type@ == "text"@
    &&& row.content@ == json_object(
        "content"@,
        content,
        "external_report_operation_id"@,
        operation_id,
    )
    &&& json_member(row.content@, "content"@) == Some(content)
    &&& json_member(row.content@, "external_report_operation_id"@) == Some(operation_id)
    &&& text::opt_text(row.position) == Some("right"@)
    &&& text::opt_text(row.status) == Some("finish"@)
    &&& !row.hidden
    &&& row.created_at == created_at
    &&& row.backend_turn_id is None
}

/// Whether two rows are the same report.
pub open spec fn same_report(existing: MessageRow, expected: MessageRow) -> bool {
    &&& existing.content@ == expected.content@
    &&& !existing.hidden
    &&& existing.message_type@ == expected.message_type@
    &&& text::opt_text(existing.position) == text::opt_text(expected.position)
    &&& text::opt_text(existing.msg_id) == text::opt_text(expected.msg_id)
}

/// Whether a row is a visible report that says just what `instruction` says.
pub open spec fn report_matches(
    row: MessageRow,
    message_id: Seq<char>,
    instruction: Seq<char>,
) -> bool {
    &&& text::begins_with(message_id, "external-report-"@)
    &&& !row.hidden
    &&& row.message_type@ == "text"@
    &&& text::opt_text(row.position) == Some("right"@)
    &&& json_member(row.content@, "external_report_operation_id"@) is Some
    &&& json_member(row.content@, "content"@) == Some(instruction)
}

/// Sending a report again is the same report, whenever it comes.
pub proof fn resent_report_is_the_same(
    first: MessageRow,
    again: MessageRow,
    conversation_id: Seq<char>,
    operation_id: Seq<char>,
    content: Seq<char>,
    first_at: i64,
    again_at: i64,
)
    requires
        is_report_row(first, conversation_id, operation_id, content, first_at),
        is_report_row(again, conversation_id, operation_id, content, again_at),
    ensures
        first.id@ == again.id@,
        same_report(first, again),
{
}

/// A report is immutable: another content under the same operation is not the same report.
pub proof fn changed_report_is_not_the_same(
    first: MessageRow,
    changed: MessageRow,
    conversation_id: Seq<char>,
    operation_id: Seq<char>,
    content: Seq<char>,
    new_content: Seq<char>,
    first_at: i64,
    changed_at: i64,
)
    requires
        is_report_row(first, conversation_id, operation_id, content, first_at),
        is_report_row(changed, conversation_id, operation_id, new_content, changed_at),
        content != new_content,
    ensures
        first.id@ == changed.id@,
        !same_report(first, changed),
{
}

/// A stored report can stand in for an instruction if and only if it says the same.
pub proof fn stored_report_matches_only_its_content(
    row: MessageRow,
    conversation_id: Seq<char>,
    operation_id: Seq<char>,
    content: Seq<char>,
    created_at: i64,
    instruction: Seq<char>,
)
    requires
        is_report_row(row, conversation_id, operation_id, content, created_at),
    ensures
        report_matches(row, row.id@, instruction) <==> instruction == content,
{
    let prefix = "external-report-"@;
    assert(row.id@.take(prefix.len() as int) =~= prefix);
}

/// A report that was taken and is being stored.
#[derive(Debug)]
pub struct PreparedReport {
    /// What the report is known by within its conversation.
    pub operation_id: String,
    /// The hash of what it says.
    pub content_hash: String,
    /// The row that holds it.
    pub row: MessageRow,
}

/// Whether a report was prepared from a request.
pub open spec fn is_prepared(
    report: PreparedReport,
    conversation_id: Seq<char>,
    operation_id: Seq<char>,
    content: Seq<char>,
    created_at: i64,
) -> bool {
    &&& report.operation_id@ == operation_id
    &&& report.content_hash@ == report_content_hash(content)
    &&& report.content_hash@.len() == 64
    &&& report.row.id@.len() == 80
    &&& is_report_row(report.row, conversation_id, operation_id, content, created_at)
}

/// Whether two different texts have the same SHA-256 digest. None are known.
pub open spec fn is_sha256_collision(a: Seq<u8>, b: Seq<u8>) -> bool {
    a != b && sha256(a) == sha256(b)
}

/// Whether a text is an ID for a report: a fixed beginning and 64 lower-case hexadecimal digits.
pub open spec fn is_report_id(id: Seq<char>) -> bool {
    &&& id.len() == 80
    &&& text::begins_with(id, "external-report-"@)
    &&& forall|i: int| 16 <= i < 80 ==> text::is_hex_digit(#[trigger] id[i])
}

/// Every report has an ID of the same form.
pub proof fn report_ids_have_one_form(
    report: PreparedReport,
    conversation_id: Seq<char>,
    operation_id: Seq<char>,
    content: Seq<char>,
    created_at: i64,
)
    requires
        is_prepared(report, conversation_id, operation_id, content, created_at),
    ensures
        is_report_id(report.row.id@),
{
    reveal_strlit("external-report-");
    let digest = sha256(json_pair(conversation_id, operation_id));
    text::lemma_lower_hex(digest);
    assert(report.row.id@.take(16) =~= "external-report-"@);
    assert forall|i: int| 16 <= i < 80 implies text::is_hex_digit(
        #[trigger] report.row.id@[i],
    ) by {
        assert(report.row.id@[i] == text::lower_hex(digest)[i - 16]);
    }
}

/// An operation is scoped to its conversation: two reports have the same ID if they are for the
/// same conversation and operation, and only then, unless SHA-256 has a collision. Likewise two
/// contents with the same hash are the same.
pub proof fn reports_are_scoped(
    a: PreparedReport,
    conversation_a: Seq<char>,
    operation_a: Seq<char>,
    content_a: Seq<char>,
    created_a: i64,
    b: PreparedReport,
    conversation_b: Seq<char>,
    operation_b: Seq<char>,
    content_b: Seq<char>,
    created_b: i64,
)
    requires
        is_prepared(a, conversation_a, operation_a, content_a, created_a),
        is_prepared(b, conversation_b, operation_b, content_b, created_b),
        !is_sha256_collision(
            json_pair(conversation_a, operation_a),
            json_pair(conversation_b, operation_b),
        ),
        !is_sha256_collision(encode_utf8(content_a), encode_utf8(content_b)),
    ensures
        a.row.id@ == b.row.id@ <==> conversation_a == conversation_b && operation_a == operation_b,
        a.content_hash@ == b.content_hash@ <==> content_a == content_b,
{
    let key_a = json_pair(conversation_a, operation_a);
    let key_b = json_pair(conversation_b, operation_b);
    if a.row.id@ == b.row.id@ {
        let n = "external-report-"@.len() as int;
        assert(a.row.id@.skip(n) =~= text::lower_hex(sha256(key_a)));
        assert(b.row.id@.skip(n) =~= text::lower_hex(sha256(key_b)));
        text::lemma_lower_hex_injective(sha256(key_a), sha256(key_b));
    }
    if a.content_hash@ == b.content_hash@ {
        text::lemma_lower_hex_injective(
            sha256(encode_utf8(content_a)),
            sha256(encode_utf8(content_b)),
        );
        text::lemma_encode_injective(content_a, content_b);
    }
}

/// Whether a response is the answer for a report.
pub open spec fn is_response(
    response: ExternalConversationReportResponse,
    report: PreparedReport,
    repeated: bool,
) -> bool {
    &&& response.operation_id@ == report.operation_id@
    &&& response.conversation_id@ == report.row.conversation_id@
    &&& response.message_id@ == report.row.id@
    &&& response.content_hash@ == report.content_hash@
    &&& response.repeated == repeated
    &&& !response.execution_requested
}

/// Whether an error refuses a report for its payload.
pub open spec fn is_payload_error(error: ConversationError) -> bool {
    error matches ConversationError::BadRequest { reason } && reason@
        == "Invalid external report payload"@
}

/// Whether an error says that an operation has another content already.
pub open spec fn is_conflict_error(error: ConversationError) -> bool {
    error matches ConversationError::Busy { reason } && reason@
        == "External report operation ID already has different content"@
}

/// Where the delivery of a report stands, and with it what its owner is to do.
#[derive(Debug)]
pub enum ReportDelivery {
    /// Check that the user may deliver to the conversation.
    CheckingTarget { conversation_id: String, request: ExternalConversationReportRequest },
    /// Look for the row's message.
    LookingUp { report: PreparedReport },
    /// Insert the row. An existing one must not be overwritten.
    Inserting { report: PreparedReport },
    /// Look for the row's message again: another delivery was faster.
    LookingUpAgain { report: PreparedReport },
}

/// What came of inserting a row.
#[derive(Debug)]
pub enum InsertOutcome {
    /// The row was inserted.
    Inserted,
    /// There is a row with that key already.
    UniqueViolation,
    /// The row could not be inserted.
    Failed(ConversationError),
}

/// What the owner of a delivery reports.
#[derive(Debug)]
pub enum ReportEvent {
    /// The user may deliver to the conversation; this is the present time.
    TargetAccepted { now_ms: i64 },
    /// The user may not, or it could not be found out.
    TargetRejected(ConversationError),
    /// The message, if there is one, or why it could not be looked for.
    Found(Result<Option<MessageRow>, ConversationError>),
    /// What came of inserting the row.
    Inserted(InsertOutcome),
}

/// What comes next in a delivery.
#[derive(Debug)]
pub enum ReportStep {
    /// The delivery goes on.
    Continue(ReportDelivery),
    /// The report was stored just now. The row is to be shown to the user.
    Published { row: MessageRow, response: ExternalConversationReportResponse },
    /// The delivery is over, and there is nothing to show.
    Finished(Result<ExternalConversationReportResponse, ConversationError>),
}

/// Whether an event is an answer to what a delivery waits for.
pub open spec fn accepts(delivery: ReportDelivery, event: ReportEvent) -> bool {
    match delivery {
        ReportDelivery::CheckingTarget { .. } => event is TargetAccepted || event is TargetRejected,
        ReportDelivery::LookingUp { .. } => event is Found,
        ReportDelivery::Inserting { .. } => event is Inserted,
        ReportDelivery::LookingUpAgain { .. } => event is Found,
    }
}

/// Whether a step settles a delivery by a row that is there already.
pub open spec fn settled_by(step: ReportStep, report: PreparedReport, existing: MessageRow) -> bool {
    if same_report(existing, report.row) {
        step matches ReportStep::Finished(Ok(response)) && is_response(response, report, true)
    } else {
        step matches ReportStep::Finished(Err(error)) && is_conflict_error(error)
    }
}

/// Whether a step is what an event calls for.
pub open spec fn is_next(delivery: ReportDelivery, event: ReportEvent, step: ReportStep) -> bool {
    match (delivery, event) {
        (
            ReportDelivery::CheckingTarget { conversation_id, request },
            ReportEvent::TargetAccepted { now_ms },
        ) => step matches ReportStep::Continue(ReportDelivery::LookingUp { report }) && is_prepared(
            report,
            conversation_id@,
            request.operation_id@,
            request.content@,
            now_ms,
        ),
        (_, ReportEvent::TargetRejected(error)) => step == ReportStep::Finished(Err(error)),
        (_, ReportEvent::Found(Err(error))) => step == ReportStep::Finished(Err(error)),
        (ReportDelivery::LookingUp { report }, ReportEvent::Found(Ok(None))) => step
            == ReportStep::Continue(ReportDelivery::Inserting { report }),
        (ReportDelivery::LookingUp { report }, ReportEvent::Found(Ok(Some(existing)))) => settled_by(
            step,
            report,
            existing,
        ),
        (
            ReportDelivery::Inserting { report },
            ReportEvent::Inserted(InsertOutcome::Inserted),
        ) => step matches ReportStep::Published { row, response } && row == report.row
            && is_response(response, report, false),
        (
            ReportDelivery::Inserting { report },
            ReportEvent::Inserted(InsertOutcome::UniqueViolation),
        ) => step == ReportStep::Continue(ReportDelivery::LookingUpAgain { report }),
        (_, ReportEvent::Inserted(InsertOutcome::Failed(error))) => step == ReportStep::Finished(
            Err(error),
        ),
        (ReportDelivery::LookingUpAgain { .. }, ReportEvent::Found(Ok(None))) => step
            matches ReportStep::Finished(Err(ConversationError::Internal { reason })) && reason@
            == "External report disappeared after insert conflict"@,
        (
            ReportDelivery::LookingUpAgain { report },
            ReportEvent::Found(Ok(Some(existing))),
        ) => settled_by(step, report, existing),
        _ => false,
    }
}

/// The answer that a step ends a delivery with, if it does end well.
pub open spec fn answer(step: ReportStep) -> Option<ExternalConversationReportResponse> {
    match step {
        ReportStep::Continue(_) => None,
        ReportStep::Published { response, .. } => Some(response),
        ReportStep::Finished(Ok(response)) => Some(response),
        ReportStep::Finished(Err(_)) => None,
    }
}

/// Whether a delivery waits for the message of a report that was prepared from these values.
pub open spec fn is_looking_up(
    delivery: ReportDelivery,
    conversation_id: Seq<char>,
    operation_id: Seq<char>,
    content: Seq<char>,
    created_at: i64,
) -> bool {
    match delivery {
        ReportDelivery::LookingUp { report } => is_prepared(
            report,
            conversation_id,
            operation_id,
            content,
            created_at,
        ),
        ReportDelivery::LookingUpAgain { report } => is_prepared(
            report,
            conversation_id,
            operation_id,
            content,
            created_at,
        ),
        _ => false,
    }
}

/// A report that is stored already is answered as a repetition, with the message that holds it,
/// and nothing is stored or shown.
pub proof fn repeated_report_is_answered_by_the_stored_one(
    delivery: ReportDelivery,
    existing: MessageRow,
    step: ReportStep,
    conversation_id: Seq<char>,
    operation_id: Seq<char>,
    content: Seq<char>,
    first_at: i64,
    again_at: i64,
)
    requires
        is_looking_up(delivery, conversation_id, operation_id, content, again_at),
        is_report_row(existing, conversation_id, operation_id, content, first_at),
        is_next(delivery, ReportEvent::Found(Ok(Some(existing))), step),
    ensures
        step matches ReportStep::Finished(Ok(response)) && response.repeated
            && response.message_id@ == existing.id@ && response.operation_id@ == operation_id
            && response.conversation_id@ == conversation_id && response.content_hash@
            == report_content_hash(content),
{
}

/// An operation that has a report already is refused for any other content.
pub proof fn changed_report_is_refused(
    delivery: ReportDelivery,
    existing: MessageRow,
    step: ReportStep,
    conversation_id: Seq<char>,
    operation_id: Seq<char>,
    content: Seq<char>,
    new_content: Seq<char>,
    first_at: i64,
    again_at: i64,
)
    requires
        is_looking_up(delivery, conversation_id, operation_id, new_content, again_at),
        is_report_row(existing, conversation_id, operation_id, content, first_at),
        content != new_content,
        is_next(delivery, ReportEvent::Found(Ok(Some(existing))), step),
    ensures
        step matches ReportStep::Finished(Err(error)) && is_conflict_error(error),
{
}

/// Whatever happens to a report, its answer never says that an agent was set to work.
pub proof fn reports_never_request_execution(
    delivery: ReportDelivery,
    event: ReportEvent,
    step: ReportStep,
)
    requires
        is_next(delivery, event, step),
    ensures
        answer(step) matches Some(response) ==> !response.execution_requested,
{
}

/// A report is shown to the user just when its row was inserted, and that row is shown.
pub proof fn reports_are_shown_once_stored(
    delivery: ReportDelivery,
    event: ReportEvent,
    step: ReportStep,
)
    requires
        is_next(delivery, event, step),
    ensures
        step is Published <==> (event matches ReportEvent::Inserted(outcome)
            && outcome is Inserted),
        step matches ReportStep::Published { row, response } ==> (delivery
            matches ReportDelivery::Inserting { report } && row == report.row
            && !response.repeated),
{
}

fn is_operation_id(operation_id: &str) -> (r: bool)
    ensures
        r == forall|i: int|
            0 <= i < operation_id@.len() ==> is_operation_char(#[trigger] operation_id@[i]),
{
    for c in it: operation_id.chars()
        invariant
            it.seq() == operation_id@,
            forall|i: int|
                0 <= i < it.index() ==> is_operation_char(#[trigger] operation_id@[i]),
    {
        let plain: bool = ('a' <= c && c <= 'z') || ('A' <= c && c <= 'Z') || ('0' <= c && c
            <= '9') || c == '-' || c == '_' || c == ':' || c == '.' || c == '/';
        if !plain {
            return false;
        }
    }
    true
}

/// Starts the delivery of a report to a conversation, unless its payload is refused.
pub fn append_external_report(
    conversation_id: &str,
    request: ExternalConversationReportRequest,
) -> (delivery: Result<ReportDelivery, ConversationError>)
    ensures
        delivery is Ok <==> is_valid_report(request),
        delivery matches Ok(delivery) ==> (delivery matches ReportDelivery::CheckingTarget {
            conversation_id: target,
            request: taken,
        } && target@ == conversation_id@ && taken == request),
        delivery matches Err(error) ==> is_payload_error(error),
{
    if request.operation_id.as_str().is_empty() || text::str_byte_len(request.operation_id.as_str())
        > MAX_OPERATION_ID_BYTES || !is_operation_id(request.operation_id.as_str())
        || text::is_blank(request.content.as_str()) || text::str_byte_len(request.content.as_str())
        > MAX_REPORT_BYTES {
        return Err(
            ConversationError::BadRequest { reason: "Invalid external report payload".to_owned() },
        );
    }
    Ok(ReportDelivery::CheckingTarget { conversation_id: conversation_id.to_owned(), request })
}

/// Works out the row for a report.
pub fn prepare_report(
    conversation_id: String,
    request: ExternalConversationReportRequest,
    now_ms: i64,
) -> (report: PreparedReport)
    ensures
        is_prepared(
            report,
            conversation_id@,
            request.operation_id@,
            request.content@,
            now_ms,
        ),
{
    let operation = request.operation_id;
    let content = request.content;
    let mut message_id: String = "external-report-".to_owned();
    let key = json_pair_bytes(conversation_id.as_str(), operation.as_str());
    text::append_lower_hex(&mut message_id, sha256_digest(key.as_slice()).as_slice());
    let mut content_hash: String = String::new();
    text::append_lower_hex(
        &mut content_hash,
        sha256_digest(content.as_str().as_bytes()).as_slice(),
    );
    proof {
        reveal_strlit("external-report-");
        text::lemma_lower_hex(sha256(json_pair(conversation_id@, operation@)));
        text::lemma_lower_hex(sha256(encode_utf8(content@)));
        assert(content_hash@ =~= report_content_hash(content@));
        reveal_strlit("content");
        reveal_strlit("external_report_operation_id");
        assert("content"@.len() != "external_report_operation_id"@.len());
        assert(plain_keys("content"@, "external_report_operation_id"@));
    }
    let row = MessageRow {
        id: message_id.clone(),
        conversation_id,
        msg_id: Some(message_id),
        message_type: "text".to_owned(),
        content: json_object_text(
            "content",
            content.as_str(),
            "external_report_operation_id",
            operation.as_str(),
        ),
        position: Some("right".to_owned()),
        status: Some("finish".to_owned()),
        hidden: false,
        created_at: now_ms,
        backend_turn_id: None,
    };
    PreparedReport { operation_id: operation, content_hash, row }
}

/// Refuses a row that is not the same report as the one expected.
pub fn ensure_same_report(existing: &MessageRow, expected: &MessageRow) -> (r: Result<
    (),
    ConversationError,
>)
    ensures
        r is Ok <==> same_report(*existing, *expected),
        r matches Err(error) ==> is_conflict_error(error),
{
    if !text::same(existing.content.as_str(), expected.content.as_str()) || existing.hidden
        || !text::same(existing.message_type.as_str(), expected.message_type.as_str())
        || !text::same_opt(&existing.position, &expected.position) || !text::same_opt(
        &existing.msg_id,
        &expected.msg_id,
    ) {
        return Err(
            ConversationError::Busy {
                reason: "External report operation ID already has different content".to_owned(),
            },
        );
    }
    Ok(())
}

impl PreparedReport {
    fn into_response(self, repeated: bool) -> (response: ExternalConversationReportResponse)
        ensures
            is_response(response, self, repeated),
    {
        ExternalConversationReportResponse {
            operation_id: self.operation_id,
            conversation_id: self.row.conversation_id,
            message_id: self.row.id,
            content_hash: self.content_hash,
            repeated,
            execution_requested: false,
        }
    }

    fn settle(self, existing: &MessageRow) -> (step: ReportStep)
        ensures
            settled_by(step, self, *existing),
    {
        match ensure_same_report(existing, &self.row) {
            Ok(()) => ReportStep::Finished(Ok(self.into_response(true))),
            Err(error) => ReportStep::Finished(Err(error)),
        }
    }

    fn published(self) -> (step: ReportStep)
        ensures
            step matches ReportStep::Published { row, response } && row == self.row && is_response(
                response,
                self,
                false,
            ),
    {
        let response = ExternalConversationReportResponse {
            operation_id: self.operation_id,
            conversation_id: self.row.conversation_id.clone(),
            message_id: self.row.id.clone(),
            content_hash: self.content_hash,
            repeated: false,
            execution_requested: false,
        };
        ReportStep::Published { row: self.row, response }
    }
}

impl ReportDelivery {
    /// Takes what the owner reports, and says what comes next.
    pub fn handle(self, event: ReportEvent) -> (step: ReportStep)
        requires
            accepts(self, event),
        ensures
            is_next(self, event, step),
    {
        match event {
            ReportEvent::TargetAccepted { now_ms } => match self {
                ReportDelivery::CheckingTarget { conversation_id, request } => {
                    let report = prepare_report(conversation_id, request, now_ms);
                    ReportStep::Continue(ReportDelivery::LookingUp { report })
                },
                other => ReportStep::Continue(other),
            },
            ReportEvent::TargetRejected(error) => ReportStep::Finished(Err(error)),
            ReportEvent::Found(Err(error)) => ReportStep::Finished(Err(error)),
            ReportEvent::Found(Ok(found)) => match (self, found) {
                (ReportDelivery::LookingUp { report }, Some(existing)) => report.settle(&existing),
                (ReportDelivery::LookingUp { report }, None) => ReportStep::Continue(
                    ReportDelivery::Inserting { report },
                ),
                (ReportDelivery::LookingUpAgain { report }, Some(existing)) => report.settle(
                    &existing,
                ),
                (_, _) => ReportStep::Finished(
                    Err(
                        ConversationError::Internal {
                            reason: "External report disappeared after insert conflict".to_owned(),
                        },
                    ),
                ),
            },
            ReportEvent::Inserted(InsertOutcome::Failed(error)) => ReportStep::Finished(Err(error)),
            ReportEvent::Inserted(InsertOutcome::Inserted) => match self {
                ReportDelivery::Inserting { report } => report.published(),
                other => ReportStep::Continue(other),
            },
            ReportEvent::Inserted(InsertOutcome::UniqueViolation) => match self {
                ReportDelivery::Inserting { report } => ReportStep::Continue(
                    ReportDelivery::LookingUpAgain { report },
                ),
                other => ReportStep::Continue(other),
            },
        }
    }
}

/// Takes what came of looking for a message, and checks that it is a visible report that says
/// just what the instruction says.
///
/// Only such a report can suppress the normal user-message insert. Arbitrary message IDs must
/// never hide a prompt.
pub fn validate_external_report_message(
    message_id: &str,
    instruction: &str,
    found: Result<Option<MessageRow>, ConversationError>,
) -> (r: Result<(), ConversationError>)
    ensures
        match found {
            Err(error) => r == Err::<(), ConversationError>(error),
            Ok(None) => r matches Err(ConversationError::MessageNotFound { id }) && id@
                == message_id@,
            Ok(Some(row)) => if report_matches(row, message_id@, instruction@) {
                r is Ok
            } else {
                r matches Err(ConversationError::BadRequest { reason }) && reason@
                    == "The visible external report does not match the instruction"@
            },
        },
{
    match found {
        Err(error) => Err(error),
        Ok(None) => Err(ConversationError::MessageNotFound { id: message_id.to_owned() }),
        Ok(Some(row)) => {
            let operation = json_text_member(row.content.as_str(), "external_report_operation_id");
            let content = json_text_member(row.content.as_str(), "content");
            if !text::starts_with(message_id, "external-report-") || row.hidden || !text::same(
                row.message_type.as_str(),
                "text",
            ) || !text::is_text(&row.position, "right") || operation.is_none() || !text::is_text(
                &content,
                instruction,
            ) {
                return Err(
                    ConversationError::BadRequest {
                        reason: "The visible external report does not match the instruction".to_owned(),
                    },
                );
            }
            Ok(())
        },
    }
}

} // verus!
