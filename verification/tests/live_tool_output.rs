use aioncore::live_tool_output::{
    trim_to_recent_bytes, LiveToolOutputBuffer, LIVE_TOOL_OUTPUT_EMIT_INTERVAL,
    LIVE_TOOL_OUTPUT_PREVIEW_BYTES, TRUNCATION_MARKER,
};

const MILLIS: u128 = 1_000_000;

#[test]
fn first_output_is_emitted_immediately() {
    let mut buffer = LiveToolOutputBuffer::with_policy(64, 200 * MILLIS);
    let update = buffer.push_at("call-1", "line 1\n", 0);

    assert_eq!(update.output.as_deref(), Some("line 1\n"));
    assert!(!update.truncation_started);
}

#[test]
fn burst_updates_are_coalesced_into_the_next_snapshot() {
    let mut buffer = LiveToolOutputBuffer::with_policy(64, 200 * MILLIS);
    let started_at: u128 = 17;

    let first = buffer.push_at("call-1", "line 1\n", started_at);
    let coalesced = buffer.push_at("call-1", "line 2\n", started_at + 50 * MILLIS);
    let next = buffer.push_at("call-1", "line 3\n", started_at + 200 * MILLIS);

    assert_eq!(first.output.as_deref(), Some("line 1\n"));
    assert!(coalesced.output.is_none());
    assert_eq!(next.output.as_deref(), Some("line 1\nline 2\nline 3\n"));
}

#[test]
fn oversized_output_keeps_a_bounded_utf8_tail() {
    let preview_bytes = 64;
    let mut buffer = LiveToolOutputBuffer::with_policy(preview_bytes, 0);
    let update = buffer.push_at("call-1", &"가".repeat(40), 0);
    let output = update
        .output
        .expect("oversized first output should still emit a preview");

    assert!(update.truncation_started);
    assert!(output.starts_with(TRUNCATION_MARKER));
    assert!(output.len() <= preview_bytes);
    assert!(std::str::from_utf8(output.as_bytes()).is_ok());
    // 49 bytes are left beside the marker's 15: sixteen characters of three bytes each.
    assert_eq!(output, format!("{}{}", TRUNCATION_MARKER, "가".repeat(16)));
}

#[test]
fn large_burst_stays_bounded_and_reports_coalescing() {
    let preview_bytes = 1024;
    let mut buffer = LiveToolOutputBuffer::with_policy(preview_bytes, 1_000 * MILLIS);
    let started_at: u128 = 0;

    for _ in 0..10_000 {
        let _ = buffer.push_at("call-1", &"x".repeat(1024), started_at);
    }
    let final_update = buffer.push_at("call-1", "done", started_at + 1_000 * MILLIS);
    let stats = buffer.remove("call-1").expect("tracked call should have statistics");

    assert!(final_update
        .output
        .as_ref()
        .is_some_and(|output| output.len() <= preview_bytes));
    assert!(stats.truncated);
    assert_eq!(stats.emitted_frames, 2);
    assert_eq!(stats.coalesced_frames, 9_999);
    assert_eq!(stats.received_bytes, 10_000 * 1024 + 4);
}

#[test]
fn retain_drops_completed_call_state() {
    let mut buffer = LiveToolOutputBuffer::with_policy(64, 0);
    let _ = buffer.push_at("open", "a", 0);
    let _ = buffer.push_at("closed", "b", 0);

    buffer.retain(|call_id| call_id == "open");

    assert!(buffer.remove("closed").is_none());
    assert!(buffer.remove("open").is_some());
}

#[test]
fn retain_asks_once_for_each_call() {
    let mut buffer = LiveToolOutputBuffer::with_policy(64, 0);
    for call in ["a", "b", "c", "d"] {
        let _ = buffer.push_at(call, "x", 7);
    }
    let mut asked = Vec::new();
    buffer.retain(|call_id| {
        asked.push(call_id.to_owned());
        call_id == "b" || call_id == "d"
    });
    asked.sort();
    assert_eq!(asked, vec!["a", "b", "c", "d"]);
    assert_eq!(buffer.push_at("b", "y", 8).output.as_deref(), Some("xy"));
    assert_eq!(buffer.remove("d").map(|stats| stats.received_bytes), Some(1));
    assert!(buffer.remove("a").is_none());
    assert!(buffer.remove("c").is_none());
}

#[test]
fn clear_forgets_every_call() {
    let mut buffer = LiveToolOutputBuffer::new();
    let _ = buffer.push("a", "x");
    let _ = buffer.push("b", "y");
    buffer.clear();
    assert!(buffer.remove("a").is_none());
    assert!(buffer.remove("b").is_none());
}

#[test]
fn clock_decides_when_a_frame_is_due() {
    assert_eq!(LIVE_TOOL_OUTPUT_PREVIEW_BYTES, 65_536);
    assert_eq!(LIVE_TOOL_OUTPUT_EMIT_INTERVAL, 200 * MILLIS);
    let mut buffer = LiveToolOutputBuffer::with_policy(64, u128::MAX);
    assert_eq!(buffer.push("call", "a").output.as_deref(), Some("a"));
    assert!(buffer.push("call", "b").output.is_none());

    let mut eager = LiveToolOutputBuffer::with_policy(64, 0);
    assert_eq!(eager.push("call", "a").output.as_deref(), Some("a"));
    assert_eq!(eager.push("call", "b").output.as_deref(), Some("ab"));
}

#[test]
fn clock_that_goes_back_does_not_hold_a_frame_up() {
    let mut buffer = LiveToolOutputBuffer::with_policy(64, 200 * MILLIS);
    let _ = buffer.push_at("call", "a", 500 * MILLIS);
    assert_eq!(buffer.push_at("call", "b", 400 * MILLIS).output.as_deref(), Some("ab"));
}

#[test]
fn truncation_is_reported_once_and_stays() {
    let mut buffer = LiveToolOutputBuffer::with_policy(20, 0);
    assert!(!buffer.push_at("call", "12345678901234567890", 0).truncation_started);
    let full = buffer.push_at("call", "x", 0);
    assert!(full.truncation_started);
    assert_eq!(full.output.as_deref(), Some("…[truncated]\n7890x"));
    let more = buffer.push_at("call", "y", 0);
    assert!(!more.truncation_started);
    assert_eq!(more.output.as_deref(), Some("…[truncated]\n890xy"));
    assert_eq!(more.received_bytes, 22);
}

#[test]
fn trimming_never_splits_a_character() {
    let mut value = "ab가나".to_owned();
    trim_to_recent_bytes(&mut value, 5);
    assert_eq!(value, "나");
    trim_to_recent_bytes(&mut value, 3);
    assert_eq!(value, "나");
    trim_to_recent_bytes(&mut value, 0);
    assert_eq!(value, "");
}
