use aioncore::external_conversation_report::{
    ExternalConversationReportRequest, ExternalConversationReportResponse,
};
use aioncore::external_report::{
    append_external_report, ensure_same_report, prepare_report, validate_external_report_message,
    ConversationError, InsertOutcome, MessageRow, ReportDelivery, ReportEvent, ReportStep,
};

fn report() -> ExternalConversationReportRequest {
    ExternalConversationReportRequest {
        operation_id: "mnp-report-1".into(),
        content: "# 완료 전문\n검증 결과 원문".into(),
    }
}

fn copy(row: &MessageRow) -> MessageRow {
    MessageRow {
        id: row.id.clone(),
        conversation_id: row.conversation_id.clone(),
        msg_id: row.msg_id.clone(),
        message_type: row.message_type.clone(),
        content: row.content.clone(),
        position: row.position.clone(),
        status: row.status.clone(),
        hidden: row.hidden,
        created_at: row.created_at,
        backend_turn_id: row.backend_turn_id.clone(),
    }
}

/// A conversation of `user_1` whose messages are held in memory.
#[derive(Default)]
struct Store {
    rows: Vec<MessageRow>,
    shown: Vec<MessageRow>,
    now_ms: i64,
    hide_from_first_lookup: bool,
    lose_after_conflict: bool,
    refuse_insert: bool,
}

impl Store {
    fn find(&self, message_id: &str) -> Option<MessageRow> {
        self.rows.iter().find(|row| row.id == message_id).map(copy)
    }

    fn deliver(
        &mut self,
        user_id: &str,
        conversation_id: &str,
        request: ExternalConversationReportRequest,
    ) -> Result<ExternalConversationReportResponse, ConversationError> {
        let mut delivery = append_external_report(conversation_id, request)?;
        loop {
            let event = match &delivery {
                ReportDelivery::CheckingTarget { conversation_id, .. } => {
                    if user_id == "user_1" && conversation_id == "conv-1" {
                        self.now_ms += 1;
                        ReportEvent::TargetAccepted { now_ms: self.now_ms }
                    } else {
                        ReportEvent::TargetRejected(ConversationError::NotFound {
                            id: conversation_id.clone(),
                        })
                    }
                }
                ReportDelivery::LookingUp { .. } if self.hide_from_first_lookup => {
                    ReportEvent::Found(Ok(None))
                }
                ReportDelivery::LookingUpAgain { .. } if self.lose_after_conflict => {
                    ReportEvent::Found(Ok(None))
                }
                ReportDelivery::LookingUp { report } | ReportDelivery::LookingUpAgain { report } => {
                    ReportEvent::Found(Ok(self.find(&report.row.id)))
                }
                ReportDelivery::Inserting { .. } if self.refuse_insert => {
                    ReportEvent::Inserted(InsertOutcome::Failed(ConversationError::Storage {
                        reason: "disk full".to_owned(),
                    }))
                }
                ReportDelivery::Inserting { report } => {
                    if self.find(&report.row.id).is_some() {
                        ReportEvent::Inserted(InsertOutcome::UniqueViolation)
                    } else {
                        self.rows.push(copy(&report.row));
                        ReportEvent::Inserted(InsertOutcome::Inserted)
                    }
                }
            };
            match delivery.handle(event) {
                ReportStep::Continue(next) => delivery = next,
                ReportStep::Published { row, response } => {
                    self.shown.push(row);
                    return Ok(response);
                }
                ReportStep::Finished(result) => return result,
            }
        }
    }
}

#[test]
fn external_report_is_visible_once_while_busy_and_survives_service_restart() {
    let mut store = Store::default();
    let first = store.deliver("user_1", "conv-1", report()).unwrap();
    // A delivery that did not see the first one loses the race for the key.
    store.hide_from_first_lookup = true;
    let second = store.deliver("user_1", "conv-1", report()).unwrap();
    store.hide_from_first_lookup = false;
    assert_eq!(first.message_id, second.message_id);
    assert_ne!(first.repeated, second.repeated);
    assert!(!first.execution_requested);
    let row = store.find(&first.message_id).unwrap();
    assert!(!row.hidden);
    assert_eq!(
        serde_json::from_str::<serde_json::Value>(&row.content).unwrap()["content"],
        report().content
    );
    assert_eq!(store.shown.len(), 1);
    assert!(!store.shown[0].hidden);
    assert_eq!(store.shown[0].msg_id.as_deref(), Some(first.message_id.as_str()));

    let retried = store.deliver("user_1", "conv-1", report()).unwrap();
    assert!(retried.repeated);
    assert_eq!(retried.message_id, first.message_id);
    assert_eq!(store.shown.len(), 1);
    let found = |message_id: &str| Ok(store.find(message_id));
    validate_external_report_message(
        &first.message_id,
        &report().content,
        found(&first.message_id),
    )
    .unwrap();
    assert!(matches!(
        validate_external_report_message(&first.message_id, "different", found(&first.message_id)),
        Err(ConversationError::BadRequest { .. })
    ));
    assert!(matches!(
        validate_external_report_message(&first.message_id, &report().content, Ok(None)),
        Err(ConversationError::MessageNotFound { .. })
    ));

    let mut conflicting = report();
    conflicting.content = "다른 결과".into();
    assert!(matches!(
        store.deliver("user_1", "conv-1", conflicting),
        Err(ConversationError::Busy { .. })
    ));
    assert_eq!(store.rows.len(), 1);
}

#[test]
fn external_report_rejects_invalid_payload_and_foreign_or_missing_conversations() {
    let mut store = Store::default();
    for invalid in [
        ExternalConversationReportRequest {
            operation_id: "".into(),
            ..report()
        },
        ExternalConversationReportRequest {
            operation_id: "a".repeat(129),
            ..report()
        },
        ExternalConversationReportRequest {
            operation_id: "bad\noperation".into(),
            ..report()
        },
        ExternalConversationReportRequest {
            content: " \n".into(),
            ..report()
        },
        ExternalConversationReportRequest {
            content: "a".repeat(256 * 1024 + 1),
            ..report()
        },
    ] {
        assert!(matches!(
            store.deliver("user_1", "conv-1", invalid),
            Err(ConversationError::BadRequest { .. })
        ));
    }
    assert!(matches!(
        store.deliver("other-user", "conv-1", report()),
        Err(ConversationError::NotFound { .. })
    ));
    assert!(matches!(
        store.deliver("user_1", "missing", report()),
        Err(ConversationError::NotFound { .. })
    ));
    assert!(store.rows.is_empty());
}

#[test]
fn largest_payload_is_taken() {
    let mut store = Store::default();
    let largest = ExternalConversationReportRequest {
        operation_id: "A-z_0:9./".repeat(14) + "ab",
        content: "a".repeat(256 * 1024),
    };
    assert_eq!(largest.operation_id.len(), 128);
    assert!(store.deliver("user_1", "conv-1", largest).is_ok());
}

#[test]
fn row_is_fixed_by_conversation_operation_and_content() {
    let prepared = prepare_report("conv-1".to_owned(), report(), 42);
    let id = "external-report-f53eaa5d80110bb109c36341cbe36c21518ab52f9708e3a55c51ec189ff82483";
    assert_eq!(prepared.row.id, id);
    assert_eq!(prepared.row.msg_id.as_deref(), Some(id));
    assert_eq!(
        prepared.content_hash,
        "c5d0405c786925afb936b5381fed1eab0b30d25a3f6150af49e4879a539c7bcd"
    );
    assert_eq!(prepared.row.conversation_id, "conv-1");
    assert_eq!(prepared.row.message_type, "text");
    assert_eq!(
        prepared.row.content,
        "{\"content\":\"# 완료 전문\\n검증 결과 원문\",\"external_report_operation_id\":\"mnp-report-1\"}"
    );
    assert_eq!(prepared.row.position.as_deref(), Some("right"));
    assert_eq!(prepared.row.status.as_deref(), Some("finish"));
    assert!(!prepared.row.hidden);
    assert_eq!(prepared.row.created_at, 42);
    assert!(prepared.row.backend_turn_id.is_none());

    let quoted = ExternalConversationReportRequest {
        operation_id: "op".to_owned(),
        content: "hello".to_owned(),
    };
    let prepared = prepare_report("a\"b".to_owned(), quoted, 0);
    assert_eq!(
        prepared.row.id,
        "external-report-fbfcf255211cb0c8a9a6a91ffc2b1eeb89384cc698c808679f9da7c5bde6c22e"
    );
    assert_eq!(
        prepared.content_hash,
        "2cf24dba5fb0a30e26e83b2ac5b9e29e1b161e5c1fa7425e73043362938b9824"
    );
}

/// Takes one step of a delivery on a store, and gives its answer if that was the last one.
fn advance(
    store: &mut Store,
    delivery: ReportDelivery,
) -> Result<ReportDelivery, Result<ExternalConversationReportResponse, ConversationError>> {
    let event = match &delivery {
        ReportDelivery::CheckingTarget { .. } => ReportEvent::TargetAccepted { now_ms: 5 },
        ReportDelivery::LookingUp { report } | ReportDelivery::LookingUpAgain { report } => {
            ReportEvent::Found(Ok(store.find(&report.row.id)))
        }
        ReportDelivery::Inserting { report } => {
            ReportEvent::Inserted(if store.find(&report.row.id).is_some() {
                InsertOutcome::UniqueViolation
            } else {
                store.rows.push(copy(&report.row));
                InsertOutcome::Inserted
            })
        }
    };
    match delivery.handle(event) {
        ReportStep::Continue(next) => Ok(next),
        ReportStep::Published { row, response } => {
            store.shown.push(row);
            Err(Ok(response))
        }
        ReportStep::Finished(result) => Err(result),
    }
}

/// Delivers reports at the same time, in an order that is told by the digits of a number.
fn overlap(
    requests: [ExternalConversationReportRequest; 3],
    order: u32,
) -> (Store, Vec<Result<ExternalConversationReportResponse, ConversationError>>) {
    let mut store = Store::default();
    let mut running: Vec<Option<ReportDelivery>> = requests
        .into_iter()
        .map(|request| append_external_report("conv-1", request).ok())
        .collect();
    let mut answers: Vec<_> = (0..3).map(|_| None).collect();
    let mut rest = order;
    let mut turn = 0;
    while running.iter().any(Option::is_some) {
        let k = if turn < 8 { (rest % 3) as usize } else { turn % 3 };
        rest /= 3;
        turn += 1;
        if let Some(delivery) = running[k].take() {
            match advance(&mut store, delivery) {
                Ok(next) => running[k] = Some(next),
                Err(answer) => answers[k] = Some(answer),
            }
        }
    }
    (store, answers.into_iter().map(|answer| answer.expect("an answer")).collect())
}

#[test]
fn overlapping_deliveries_store_one_report() {
    for order in 0..6_561u32 {
        let (store, answers) = overlap([report(), report(), report()], order);
        let answers: Vec<_> = answers.into_iter().map(Result::unwrap).collect();
        assert_eq!(answers.iter().filter(|answer| !answer.repeated).count(), 1);
        assert!(answers.iter().all(|answer| answer.message_id == answers[0].message_id));
        assert!(answers.iter().all(|answer| answer.content_hash == answers[0].content_hash));
        assert_eq!(store.rows.len(), 1);
        assert_eq!(store.shown.len(), 1);
    }
}

#[test]
fn overlapping_deliveries_of_other_contents_are_refused() {
    let other = || ExternalConversationReportRequest { content: "다른 결과".into(), ..report() };
    for order in 0..6_561u32 {
        let (store, answers) = overlap([report(), other(), report()], order);
        assert_eq!(store.rows.len(), 1);
        assert_eq!(store.shown.len(), 1);
        let kept = &store.rows[0].content;
        for (k, answer) in answers.iter().enumerate() {
            let request = if k == 1 { other() } else { report() };
            let expected = prepare_report("conv-1".to_owned(), request, 1);
            match answer {
                Ok(response) => {
                    assert_eq!(*kept, expected.row.content);
                    assert_eq!(response.content_hash, expected.content_hash);
                }
                Err(ConversationError::Busy { .. }) => assert_ne!(*kept, expected.row.content),
                Err(error) => panic!("{error:?}"),
            }
        }
        let new = answers
            .iter()
            .filter(|answer| matches!(answer, Ok(response) if !response.repeated));
        assert_eq!(new.count(), 1);
    }
}

#[test]
fn report_ids_have_one_form() {
    for conversation in ["conv-1", "", "다른 대화"] {
        let prepared = prepare_report(conversation.to_owned(), report(), 1);
        let digits = prepared.row.id.strip_prefix("external-report-").expect("the prefix");
        assert_eq!(digits.len(), 64);
        assert!(digits.chars().all(|c| matches!(c, '0'..='9' | 'a'..='f')));
        assert_eq!(prepared.content_hash.len(), 64);
    }
}

#[test]
fn operations_are_scoped_to_their_conversation() {
    let here = prepare_report("conv-1".to_owned(), report(), 1);
    let there = prepare_report("conv-2".to_owned(), report(), 1);
    let mut other = report();
    other.operation_id = "mnp-report-2".to_owned();
    let other = prepare_report("conv-1".to_owned(), other, 1);
    assert_ne!(here.row.id, there.row.id);
    assert_ne!(here.row.id, other.row.id);
    assert_eq!(here.content_hash, there.content_hash);
}

#[test]
fn altered_row_is_not_the_same_report() {
    let expected = prepare_report("conv-1".to_owned(), report(), 1).row;
    let later = prepare_report("conv-1".to_owned(), report(), 2).row;
    assert!(ensure_same_report(&later, &expected).is_ok());
    let alterations: [fn(&mut MessageRow); 5] = [
        |row| row.content.push(' '),
        |row| row.hidden = true,
        |row| row.message_type = "tips".to_owned(),
        |row| row.position = None,
        |row| row.msg_id = Some("other".to_owned()),
    ];
    for alter in alterations {
        let mut altered = copy(&expected);
        alter(&mut altered);
        match ensure_same_report(&altered, &expected) {
            Err(ConversationError::Busy { reason }) => {
                assert_eq!(reason, "External report operation ID already has different content")
            }
            other => panic!("{other:?}"),
        }
    }
}

#[test]
fn failures_of_the_store_end_a_delivery() {
    let mut store = Store { refuse_insert: true, ..Store::default() };
    match store.deliver("user_1", "conv-1", report()) {
        Err(ConversationError::Storage { reason }) => assert_eq!(reason, "disk full"),
        other => panic!("{other:?}"),
    }

    let mut store = Store::default();
    store.deliver("user_1", "conv-1", report()).unwrap();
    store.hide_from_first_lookup = true;
    store.lose_after_conflict = true;
    match store.deliver("user_1", "conv-1", report()) {
        Err(ConversationError::Internal { reason }) => {
            assert_eq!(reason, "External report disappeared after insert conflict")
        }
        other => panic!("{other:?}"),
    }
}

#[test]
fn only_a_visible_report_stands_in_for_an_instruction() {
    let row = prepare_report("conv-1".to_owned(), report(), 1).row;
    let id = row.id.clone();
    let check = |id: &str, row: MessageRow| {
        validate_external_report_message(id, &report().content, Ok(Some(row)))
    };
    assert!(check(&id, copy(&row)).is_ok());
    assert!(check("message-1", copy(&row)).is_err());
    let alterations: [fn(&mut MessageRow); 6] = [
        |row| row.hidden = true,
        |row| row.message_type = "tips".to_owned(),
        |row| row.position = Some("left".to_owned()),
        |row| row.content = "not json".to_owned(),
        |row| row.content = "[\"# 완료 전문\"]".to_owned(),
        |row| row.content = row.content.replace("external_report_operation_id", "operation"),
    ];
    for alter in alterations {
        let mut altered = copy(&row);
        alter(&mut altered);
        match check(&id, altered) {
            Err(ConversationError::BadRequest { reason }) => assert_eq!(
                reason,
                "The visible external report does not match the instruction"
            ),
            other => panic!("{other:?}"),
        }
    }
    let failed = Err(ConversationError::Storage { reason: "gone".to_owned() });
    assert!(matches!(
        validate_external_report_message(&id, "x", failed),
        Err(ConversationError::Storage { .. })
    ));
}
