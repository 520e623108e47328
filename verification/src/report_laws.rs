//! What is taken as a report, what is stored of it and how it is answered, told field by field.

use vstd::prelude::*;
use vstd::string::*;
use vstd::utf8::*;

use crate::external_conversation_report::ExternalConversationReportRequest;
use crate::external_report;
use crate::external_report::{
    ConversationError, InsertOutcome, MessageRow, PreparedReport, ReportDelivery, ReportEvent,
    ReportStep,
};
use crate::text;

verus! {

/// A report is taken just where its operation ID has 1 to 128 bytes, all of them letters, digits
/// or one of `-_:./`, and where its content is not blank and has at most 256 KiB. It is taken as
/// it stands, and refused as a bad request.
pub proof fn reports_are_taken_by_size_and_characters(
    conversation_id: &str,
    request: ExternalConversationReportRequest,
    delivery: Result<ReportDelivery, ConversationError>,
)
    requires
        call_ensures(
            external_report::append_external_report,
            (conversation_id, request),
            delivery,
        ),
    ensures
        delivery is Ok <==> {
            &&& 1 <= encode_utf8(request.operation_id@).len() <= 128
            &&& forall|i: int|
                0 <= i < request.operation_id@.len() ==> {
                    let c = #[trigger] request.operation_id@[i];
                    ||| 'a' <= c <= 'z'
                    ||| 'A' <= c <= 'Z'
                    ||| '0' <= c <= '9'
                    ||| c == '-' || c == '_' || c == ':' || c == '.' || c == '/'
                }
            &&& exists|i: int|
                0 <= i < request.content@.len() && !text::is_whitespace(
                    #[trigger] request.content@[i],
                )
            &&& encode_utf8(request.content@).len() <= 256 * 1024
        },
        delivery matches Ok(delivery) ==> (delivery matches ReportDelivery::CheckingTarget {
            conversation_id: target,
            request: taken,
        } && target@ == conversation_id@ && taken.operation_id@ == request.operation_id@
            && taken.content@ == request.content@),
        delivery matches Err(error) ==> (error matches ConversationError::BadRequest { reason }
            && reason@ == "Invalid external report payload"@),
{
    text::lemma_byte_len_bounds(request.operation_id@);
    if external_report::is_valid_report(request) {
        assert(exists|i: int|
            0 <= i < request.content@.len() && !text::is_whitespace(
                #[trigger] request.content@[i],
            ));
        assert forall|i: int| 0 <= i < request.operation_id@.len() implies {
            let c = #[trigger] request.operation_id@[i];
            ||| 'a' <= c <= 'z'
            ||| 'A' <= c <= 'Z'
            ||| '0' <= c <= '9'
            ||| c == '-' || c == '_' || c == ':' || c == '.' || c == '/'
        } by {
            assert(external_report::is_operation_char(request.operation_id@[i]));
        }
    }
    if {
        &&& 1 <= encode_utf8(request.operation_id@).len() <= 128
        &&& forall|i: int|
            0 <= i < request.operation_id@.len() ==> {
                let c = #[trigger] request.operation_id@[i];
                ||| 'a' <= c <= 'z'
                ||| 'A' <= c <= 'Z'
                ||| '0' <= c <= '9'
                ||| c == '-' || c == '_' || c == ':' || c == '.' || c == '/'
            }
        &&& exists|i: int|
            0 <= i < request.content@.len() && !text::is_whitespace(
                #[trigger] request.content@[i],
            )
        &&& encode_utf8(request.content@).len() <= 256 * 1024
    } {
        assert(!text::blank(request.content@));
        assert forall|i: int|
            0 <= i < request.operation_id@.len() implies external_report::is_operation_char(
            #[trigger] request.operation_id@[i],
        ) by {
        }
        assert(external_report::is_valid_report(request));
    }
}

/// The row of a report has an ID that is made of the digest of the conversation and the operation,
/// in that order, and holds the content as it stands. The content's hash is that of its bytes.
pub proof fn rows_hold_the_report(
    conversation_id: String,
    request: ExternalConversationReportRequest,
    now_ms: i64,
    report: PreparedReport,
)
    requires
        call_ensures(
            external_report::prepare_report,
            (conversation_id, request, now_ms),
            report,
        ),
    ensures
        report.operation_id@ == request.operation_id@,
        report.content_hash@ == text::lower_hex(
            external_report::sha256(encode_utf8(request.content@)),
        ),
        report.row.id@ == "external-report-"@ + text::lower_hex(
            external_report::sha256(
                external_report::json_pair(conversation_id@, request.operation_id@),
            ),
        ),
        report.row.msg_id matches Some(id) && id@ == report.row.id@,
        report.row.conversation_id@ == conversation_id@,
        report.row.message_type@ == "text"@,
        report.row.content@ == external_report::json_object(
            "content"@,
            request.content@,
            "external_report_operation_id"@,
            request.operation_id@,
        ),
        report.row.position matches Some(position) && position@ == "right"@,
        report.row.status matches Some(status) && status@ == "finish"@,
        !report.row.hidden,
        report.row.created_at == now_ms,
        report.row.backend_turn_id is None,
{
}

/// A stored row is the same report as another just where it is visible and both have the same
/// content, kind, position and message ID, whatever else they hold.
pub proof fn sameness_goes_by_what_is_shown(
    existing: &MessageRow,
    expected: &MessageRow,
    r: Result<(), ConversationError>,
)
    requires
        call_ensures(external_report::ensure_same_report, (existing, expected), r),
    ensures
        r is Ok <==> {
            &&& !existing.hidden
            &&& existing.content@ == expected.content@
            &&& existing.message_type@ == expected.message_type@
            &&& existing.position is Some == expected.position is Some
            &&& existing.position is Some ==> existing.position->0@ == expected.position->0@
            &&& existing.msg_id is Some == expected.msg_id is Some
            &&& existing.msg_id is Some ==> existing.msg_id->0@ == expected.msg_id->0@
        },
        r matches Err(error) ==> (error matches ConversationError::Busy { reason } && reason@
            == "External report operation ID already has different content"@),
{
}

/// A message stands for an instruction just where its ID begins as those of reports do and it is a
/// visible text on the right that names an operation and says the same, whatever else it holds. A
/// message that is not there, and a store that failed, are told apart.
pub proof fn only_a_visible_report_stands_for_an_instruction(
    message_id: &str,
    instruction: &str,
    found: Result<Option<MessageRow>, ConversationError>,
    r: Result<(), ConversationError>,
)
    requires
        call_ensures(
            external_report::validate_external_report_message,
            (message_id, instruction, found),
            r,
        ),
    ensures
        match found {
            Err(error) => r == Err::<(), ConversationError>(error),
            Ok(None) => r matches Err(ConversationError::MessageNotFound { id }) && id@
                == message_id@,
            Ok(Some(row)) => {
                &&& r is Ok <==> {
                    &&& exists|rest: Seq<char>| message_id@ == "external-report-"@ + rest
                    &&& !row.hidden
                    &&& row.message_type@ == "text"@
                    &&& row.position is Some
                    &&& row.position->0@ == "right"@
                    &&& external_report::json_member(
                        row.content@,
                        "external_report_operation_id"@,
                    ) is Some
                    &&& external_report::json_member(row.content@, "content"@) == Some(
                        instruction@,
                    )
                }
                &&& r matches Err(error) ==> (error matches ConversationError::BadRequest { reason }
                    && reason@ == "The visible external report does not match the instruction"@)
            },
        },
{
    let prefix = "external-report-"@;
    if text::begins_with(message_id@, prefix) {
        let rest = message_id@.skip(prefix.len() as int);
        assert(message_id@ =~= prefix + rest);
    }
    if exists|rest: Seq<char>| message_id@ == prefix + rest {
        let rest = choose|rest: Seq<char>| message_id@ == prefix + rest;
        assert(message_id@.take(prefix.len() as int) =~= prefix);
    }
}

/// What the store or the check of the target failed with is the answer as it stands.
pub proof fn failures_are_answered_as_they_are(
    delivery: ReportDelivery,
    event: ReportEvent,
    step: ReportStep,
    error: ConversationError,
)
    requires
        call_ensures(ReportDelivery::handle, (delivery, event), step),
        event == ReportEvent::TargetRejected(error) || event == ReportEvent::Found(Err(error))
            || event == ReportEvent::Inserted(InsertOutcome::Failed(error)),
    ensures
        step == ReportStep::Finished(Err(error)),
{
}

/// A report goes on to be looked for with the row that is prepared for it at the time of the
/// check.
pub proof fn accepted_reports_are_looked_for(
    conversation_id: String,
    request: ExternalConversationReportRequest,
    now_ms: i64,
    step: ReportStep,
    report: PreparedReport,
)
    requires
        call_ensures(
            ReportDelivery::handle,
            (
                ReportDelivery::CheckingTarget { conversation_id, request },
                ReportEvent::TargetAccepted { now_ms },
            ),
            step,
        ),
        call_ensures(
            external_report::prepare_report,
            (conversation_id, request, now_ms),
            report,
        ),
    ensures
        step matches ReportStep::Continue(ReportDelivery::LookingUp { report: sought })
            && sought.operation_id@ == report.operation_id@ && sought.content_hash@
            == report.content_hash@ && sought.row.id@ == report.row.id@
            && sought.row.conversation_id@ == report.row.conversation_id@ && sought.row.content@
            == report.row.content@ && sought.row.created_at == now_ms,
{
}

/// A report that is not there is inserted as it was prepared, and one that another delivery
/// inserted first is looked for again. One that is gone then is an internal error.
pub proof fn missing_reports_are_inserted_once(
    report: PreparedReport,
    absent: ReportStep,
    taken: ReportStep,
    gone: ReportStep,
)
    requires
        call_ensures(
            ReportDelivery::handle,
            (ReportDelivery::LookingUp { report }, ReportEvent::Found(Ok(None))),
            absent,
        ),
        call_ensures(
            ReportDelivery::handle,
            (
                ReportDelivery::Inserting { report },
                ReportEvent::Inserted(InsertOutcome::UniqueViolation),
            ),
            taken,
        ),
        call_ensures(
            ReportDelivery::handle,
            (ReportDelivery::LookingUpAgain { report }, ReportEvent::Found(Ok(None))),
            gone,
        ),
    ensures
        absent == ReportStep::Continue(ReportDelivery::Inserting { report }),
        taken == ReportStep::Continue(ReportDelivery::LookingUpAgain { report }),
        gone matches ReportStep::Finished(Err(ConversationError::Internal { reason })) && reason@
            == "External report disappeared after insert conflict"@,
{
}

/// A report that was inserted is shown as it was inserted and answered as new. One that is there
/// already is answered as repeated where [`external_report::ensure_same_report`] finds it the
/// same, and by that function's error where not. The answer names the operation, the conversation,
/// the message and the hash, and asks for no execution.
pub proof fn reports_are_answered_by_what_is_stored(
    report: PreparedReport,
    existing: MessageRow,
    again: bool,
    inserted: ReportStep,
    found: ReportStep,
    same: Result<(), ConversationError>,
)
    requires
        call_ensures(
            ReportDelivery::handle,
            (
                ReportDelivery::Inserting { report },
                ReportEvent::Inserted(InsertOutcome::Inserted),
            ),
            inserted,
        ),
        call_ensures(
            ReportDelivery::handle,
            (
                if again {
                    ReportDelivery::LookingUpAgain { report }
                } else {
                    ReportDelivery::LookingUp { report }
                },
                ReportEvent::Found(Ok(Some(existing))),
            ),
            found,
        ),
        call_ensures(external_report::ensure_same_report, (&existing, &report.row), same),
    ensures
        inserted matches ReportStep::Published { row, response } && row == report.row
            && !response.repeated && !response.execution_requested && response.operation_id@
            == report.operation_id@ && response.conversation_id@ == report.row.conversation_id@
            && response.message_id@ == report.row.id@ && response.content_hash@
            == report.content_hash@,
        same is Ok ==> (found matches ReportStep::Finished(Ok(response)) && response.repeated
            && !response.execution_requested && response.operation_id@ == report.operation_id@
            && response.conversation_id@ == report.row.conversation_id@ && response.message_id@
            == report.row.id@ && response.content_hash@ == report.content_hash@),
        same is Err ==> (found matches ReportStep::Finished(
            Err(ConversationError::Busy { reason }),
        ) && reason@ == "External report operation ID already has different content"@),
{
}

} // verus!
