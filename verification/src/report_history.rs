//! What becomes of several deliveries under one operation into one store, whether they come one
//! after the other, at the same time, or through services that were started anew in between.

use vstd::prelude::*;

use crate::external_conversation_report::ExternalConversationReportResponse;
use crate::external_report;
use crate::external_report::{
    ConversationError, InsertOutcome, MessageRow, PreparedReport, ReportDelivery, ReportEvent,
    ReportStep,
};

verus! {

/// How far one delivery has come.
pub enum Progress {
    /// It goes on.
    Running(ReportDelivery),
    /// It was answered.
    Answered(Result<ExternalConversationReportResponse, ConversationError>),
}

/// A store, what was shown to the user, and the deliveries that use them.
pub struct ReportSystem {
    /// The messages of the conversation, by their IDs.
    pub rows: Map<Seq<char>, MessageRow>,
    /// The messages that were shown, in order.
    pub shown: Seq<MessageRow>,
    /// The deliveries.
    pub deliveries: Seq<Progress>,
}

/// The message with the given ID, if there is one.
pub open spec fn stored(rows: Map<Seq<char>, MessageRow>, id: Seq<char>) -> Option<MessageRow> {
    if rows.dom().contains(id) {
        Some(rows[id])
    } else {
        None
    }
}

/// Whether an event is what a store that does not fail reports to a delivery. Of two insertions
/// with the same key only the first one is made.
pub open spec fn is_store_event(
    rows: Map<Seq<char>, MessageRow>,
    delivery: ReportDelivery,
    event: ReportEvent,
) -> bool {
    match delivery {
        ReportDelivery::CheckingTarget { .. } => event is TargetAccepted,
        ReportDelivery::LookingUp { report } => event == ReportEvent::Found(
            Ok(stored(rows, report.row.id@)),
        ),
        ReportDelivery::Inserting { report } => event == ReportEvent::Inserted(
            if rows.dom().contains(report.row.id@) {
                InsertOutcome::UniqueViolation
            } else {
                InsertOutcome::Inserted
            },
        ),
        ReportDelivery::LookingUpAgain { report } => event == ReportEvent::Found(
            Ok(stored(rows, report.row.id@)),
        ),
    }
}

/// The messages after a delivery has made its move.
pub open spec fn rows_after(rows: Map<Seq<char>, MessageRow>, delivery: ReportDelivery) -> Map<
    Seq<char>,
    MessageRow,
> {
    match delivery {
        ReportDelivery::Inserting { report } => if rows.dom().contains(report.row.id@) {
            rows
        } else {
            rows.insert(report.row.id@, report.row)
        },
        _ => rows,
    }
}

/// What was shown once a step was taken.
pub open spec fn shown_after(shown: Seq<MessageRow>, step: ReportStep) -> Seq<MessageRow> {
    match step {
        ReportStep::Published { row, .. } => shown.push(row),
        _ => shown,
    }
}

/// How far a delivery has come once a step was taken.
pub open spec fn progress_after(step: ReportStep) -> Progress {
    match step {
        ReportStep::Continue(delivery) => Progress::Running(delivery),
        ReportStep::Published { response, .. } => Progress::Answered(Ok(response)),
        ReportStep::Finished(result) => Progress::Answered(result),
    }
}

/// Whether one delivery has made one move.
pub open spec fn advances(
    before: ReportSystem,
    after: ReportSystem,
    k: int,
    event: ReportEvent,
    step: ReportStep,
) -> bool {
    &&& 0 <= k < before.deliveries.len()
    &&& before.deliveries[k] matches Progress::Running(delivery)
    &&& is_store_event(before.rows, delivery, event)
    &&& external_report::is_next(delivery, event, step)
    &&& after.rows == rows_after(before.rows, delivery)
    &&& after.shown == shown_after(before.shown, step)
    &&& after.deliveries == before.deliveries.update(k, progress_after(step))
}

/// Whether some delivery has made one move.
pub open spec fn moves(before: ReportSystem, after: ReportSystem) -> bool {
    exists|k: int, event: ReportEvent, step: ReportStep| #[trigger]
        advances(before, after, k, event, step)
}

/// Whether each state follows on the one before it by one move of some delivery, in any order.
pub open spec fn is_history(history: Seq<ReportSystem>) -> bool
    decreases history.len(),
{
    history.len() > 1 ==> is_history(history.drop_last()) && moves(
        history[history.len() - 2],
        history.last(),
    )
}

/// Whether deliveries under one operation begin, each with its own content, into a store that has
/// no report for the operation.
pub open spec fn is_start(
    system: ReportSystem,
    conversation_id: Seq<char>,
    operation_id: Seq<char>,
    contents: Seq<Seq<char>>,
) -> bool {
    &&& system.deliveries.len() == contents.len()
    &&& contents.len() > 0
    &&& !system.rows.dom().contains(
        external_report::report_message_id(conversation_id, operation_id),
    )
    &&& forall|k: int|
        0 <= k < contents.len() ==> is_begun(
            #[trigger] system.deliveries[k],
            conversation_id,
            operation_id,
            contents[k],
        )
}

/// Whether a delivery of a report begins.
pub open spec fn is_begun(
    progress: Progress,
    conversation_id: Seq<char>,
    operation_id: Seq<char>,
    content: Seq<char>,
) -> bool {
    progress matches Progress::Running(
        ReportDelivery::CheckingTarget { conversation_id: target, request },
    ) && target@ == conversation_id && request.operation_id@ == operation_id && request.content@
        == content
}

/// Whether a delivery of a report was answered well.
pub open spec fn is_answered(
    progress: Progress,
    conversation_id: Seq<char>,
    operation_id: Seq<char>,
    content: Seq<char>,
) -> bool {
    progress matches Progress::Answered(Ok(response)) && response.message_id@
        == external_report::report_message_id(conversation_id, operation_id)
        && response.content_hash@ == external_report::report_content_hash(content)
        && response.operation_id@ == operation_id && response.conversation_id@ == conversation_id
        && !response.execution_requested
}

/// Whether a delivery was refused because its operation has another content.
pub open spec fn is_refused(progress: Progress) -> bool {
    progress matches Progress::Answered(Err(error)) && external_report::is_conflict_error(error)
}

/// Whether a delivery was answered as the first one of its report.
pub open spec fn is_new(progress: Progress) -> bool {
    progress matches Progress::Answered(Ok(response)) && !response.repeated
}

/// Whether the delivery at place `w`, and no other, was answered as the first one of its report.
pub open spec fn is_only_new(deliveries: Seq<Progress>, w: int) -> bool {
    &&& 0 <= w < deliveries.len()
    &&& is_new(deliveries[w])
    &&& forall|j: int| 0 <= j < deliveries.len() && #[trigger] is_new(deliveries[j]) ==> j == w
}

/// Whether a store has just one message more than before, which holds the report, and that message
/// was shown once.
pub open spec fn has_one_report(
    start: ReportSystem,
    system: ReportSystem,
    conversation_id: Seq<char>,
    operation_id: Seq<char>,
    content: Seq<char>,
) -> bool {
    let id = external_report::report_message_id(conversation_id, operation_id);
    let row = system.rows[id];
    &&& system.rows == start.rows.insert(id, row)
    &&& system.shown == start.shown.push(row)
    &&& external_report::is_report_row(
        row,
        conversation_id,
        operation_id,
        content,
        row.created_at,
    )
}

spec fn is_ready(
    report: PreparedReport,
    conversation_id: Seq<char>,
    operation_id: Seq<char>,
    content: Seq<char>,
) -> bool {
    external_report::is_prepared(
        report,
        conversation_id,
        operation_id,
        content,
        report.row.created_at,
    )
}

spec fn is_on_its_way(
    progress: Progress,
    kept: Option<Seq<char>>,
    conversation_id: Seq<char>,
    operation_id: Seq<char>,
    content: Seq<char>,
) -> bool {
    match progress {
        Progress::Running(ReportDelivery::CheckingTarget { .. }) => is_begun(
            progress,
            conversation_id,
            operation_id,
            content,
        ),
        Progress::Running(ReportDelivery::LookingUp { report }) => is_ready(
            report,
            conversation_id,
            operation_id,
            content,
        ),
        Progress::Running(ReportDelivery::Inserting { report }) => is_ready(
            report,
            conversation_id,
            operation_id,
            content,
        ),
        Progress::Running(ReportDelivery::LookingUpAgain { report }) => kept is Some && is_ready(
            report,
            conversation_id,
            operation_id,
            content,
        ),
        Progress::Answered(_) => kept matches Some(kept) && if content == kept {
            is_answered(progress, conversation_id, operation_id, content)
        } else {
            is_refused(progress)
        },
    }
}

/// What holds at any time: `w` is the delivery that was first, if one was.
spec fn is_sound(
    start: ReportSystem,
    system: ReportSystem,
    conversation_id: Seq<char>,
    operation_id: Seq<char>,
    contents: Seq<Seq<char>>,
    w: Option<int>,
) -> bool {
    let id = external_report::report_message_id(conversation_id, operation_id);
    let kept = match w {
        Some(w) => Some(contents[w]),
        None => None,
    };
    &&& system.deliveries.len() == contents.len()
    &&& system.rows.dom().contains(id) <==> w is Some
    &&& forall|k: int|
        0 <= k < contents.len() ==> is_on_its_way(
            #[trigger] system.deliveries[k],
            kept,
            conversation_id,
            operation_id,
            contents[k],
        )
    &&& match w {
        Some(w) => is_only_new(system.deliveries, w) && has_one_report(
            start,
            system,
            conversation_id,
            operation_id,
            contents[w],
        ),
        None => system.rows == start.rows && system.shown == start.shown,
    }
}

proof fn lemma_move_is_sound(
    start: ReportSystem,
    before: ReportSystem,
    after: ReportSystem,
    conversation_id: Seq<char>,
    operation_id: Seq<char>,
    contents: Seq<Seq<char>>,
    w: Option<int>,
) -> (next: Option<int>)
    requires
        is_sound(start, before, conversation_id, operation_id, contents, w),
        moves(before, after),
    ensures
        is_sound(start, after, conversation_id, operation_id, contents, next),
{
    let id = external_report::report_message_id(conversation_id, operation_id);
    let (k, event, step) = choose|k: int, event: ReportEvent, step: ReportStep| #[trigger]
        advances(before, after, k, event, step);
    let delivery = before.deliveries[k]->Running_0;
    let kept = match w {
        Some(w) => Some(contents[w]),
        None => None,
    };
    assert(is_on_its_way(
        before.deliveries[k],
        kept,
        conversation_id,
        operation_id,
        contents[k],
    ));
    let next = if step is Published {
        Some(k)
    } else {
        w
    };
    let next_kept = match next {
        Some(next) => Some(contents[next]),
        None => None,
    };
    assert(step is Published ==> w is None);
    assert(is_on_its_way(
        progress_after(step),
        next_kept,
        conversation_id,
        operation_id,
        contents[k],
    ));
    assert forall|j: int| 0 <= j < contents.len() implies is_on_its_way(
        #[trigger] after.deliveries[j],
        next_kept,
        conversation_id,
        operation_id,
        contents[j],
    ) by {
        if j != k {
            assert(after.deliveries[j] == before.deliveries[j]);
        }
    }
    if let Some(first) = w {
        assert(first != k);
        assert(after.deliveries[first] == before.deliveries[first]);
        assert(!is_new(progress_after(step)));
        assert forall|j: int|
            0 <= j < after.deliveries.len() && #[trigger] is_new(after.deliveries[j]) implies j
            == first by {
            if j != k {
                assert(is_new(before.deliveries[j]));
            }
        }
    } else if step is Published {
        assert forall|j: int|
            0 <= j < after.deliveries.len() && #[trigger] is_new(after.deliveries[j]) implies j
            == k by {
            if j != k {
                assert(after.deliveries[j] == before.deliveries[j]);
                assert(is_on_its_way(
                    before.deliveries[j],
                    None,
                    conversation_id,
                    operation_id,
                    contents[j],
                ));
            }
        }
    }
    next
}

proof fn lemma_history_is_sound(
    history: Seq<ReportSystem>,
    conversation_id: Seq<char>,
    operation_id: Seq<char>,
    contents: Seq<Seq<char>>,
) -> (w: Option<int>)
    requires
        history.len() > 0,
        is_history(history),
        is_start(history[0], conversation_id, operation_id, contents),
    ensures
        is_sound(history[0], history.last(), conversation_id, operation_id, contents, w),
    decreases history.len(),
{
    if history.len() > 1 {
        let before = history.drop_last();
        let w = lemma_history_is_sound(before, conversation_id, operation_id, contents);
        lemma_move_is_sound(
            history[0],
            before.last(),
            history.last(),
            conversation_id,
            operation_id,
            contents,
            w,
        )
    } else {
        None
    }
}

/// However deliveries under one operation overlap, and whatever their contents, just one of them
/// is answered as new. The store has gained one message, which holds the content of that delivery
/// and was shown once. Every delivery of the same content is answered with that message and the
/// hash of that content, and every delivery of another content is refused.
pub proof fn operation_keeps_one_content(
    history: Seq<ReportSystem>,
    conversation_id: Seq<char>,
    operation_id: Seq<char>,
    contents: Seq<Seq<char>>,
)
    requires
        history.len() > 0,
        is_history(history),
        is_start(history[0], conversation_id, operation_id, contents),
        forall|k: int|
            0 <= k < history.last().deliveries.len() ==> (#[trigger] history.last().deliveries[k])
                is Answered,
    ensures
        history.last().deliveries.len() == contents.len(),
        exists|w: int| #[trigger]
            is_only_new(history.last().deliveries, w) && has_one_report(
                history[0],
                history.last(),
                conversation_id,
                operation_id,
                contents[w],
            ) && forall|k: int|
                0 <= k < contents.len() ==> if contents[k] == contents[w] {
                    is_answered(
                        #[trigger] history.last().deliveries[k],
                        conversation_id,
                        operation_id,
                        contents[w],
                    )
                } else {
                    is_refused(history.last().deliveries[k])
                },
{
    let w = lemma_history_is_sound(history, conversation_id, operation_id, contents);
    let last = history.last().deliveries;
    assert(last[0] is Answered);
    let first = w->0;
    assert(is_only_new(last, first));
    assert forall|k: int| 0 <= k < contents.len() implies if contents[k] == contents[first] {
        is_answered(#[trigger] last[k], conversation_id, operation_id, contents[first])
    } else {
        is_refused(last[k])
    } by {
        assert(last[k] is Answered);
    }
}

/// However often a report is delivered, and however the deliveries overlap, all of them are
/// answered with the same message and hash, just one of them is answered as new, and the store has
/// gained one message, which was shown once.
pub proof fn report_is_stored_once(
    history: Seq<ReportSystem>,
    conversation_id: Seq<char>,
    operation_id: Seq<char>,
    content: Seq<char>,
    n: nat,
)
    requires
        history.len() > 0,
        is_history(history),
        is_start(history[0], conversation_id, operation_id, Seq::new(n, |k: int| content)),
        forall|k: int|
            0 <= k < history.last().deliveries.len() ==> (#[trigger] history.last().deliveries[k])
                is Answered,
    ensures
        history.last().deliveries.len() == n,
        forall|k: int|
            0 <= k < n ==> is_answered(
                #[trigger] history.last().deliveries[k],
                conversation_id,
                operation_id,
                content,
            ),
        exists|w: int| is_only_new(history.last().deliveries, w),
        has_one_report(history[0], history.last(), conversation_id, operation_id, content),
{
    operation_keeps_one_content(
        history,
        conversation_id,
        operation_id,
        Seq::new(n, |k: int| content),
    );
}

/// At no time has the store more than one message for an operation, nor was more than one shown,
/// whether or not every delivery comes to its end.
pub proof fn report_is_never_stored_twice(
    history: Seq<ReportSystem>,
    conversation_id: Seq<char>,
    operation_id: Seq<char>,
    contents: Seq<Seq<char>>,
)
    requires
        history.len() > 0,
        is_history(history),
        is_start(history[0], conversation_id, operation_id, contents),
    ensures
        ({
            let start = history[0];
            let now = history.last();
            ||| now.rows == start.rows && now.shown == start.shown
            ||| exists|w: int|
                0 <= w < contents.len() && has_one_report(
                    start,
                    now,
                    conversation_id,
                    operation_id,
                    #[trigger] contents[w],
                )
        }),
{
    let w = lemma_history_is_sound(history, conversation_id, operation_id, contents);
    if let Some(first) = w {
        assert(has_one_report(
            history[0],
            history.last(),
            conversation_id,
            operation_id,
            contents[first],
        ));
    }
}

} // verus!
