use aioncore::subscription_usage::{
    read_subscription_usage, ClaudeSubscriptionUsage, CodexSubscriptionUsage,
    CodexSubscriptionUsageWindow, ProviderUsageState, SubscriptionUsageSnapshot,
    SubscriptionUsageState,
};

fn provider_state(value: &serde_json::Value) -> Option<ProviderUsageState> {
    match value.as_str()? {
        "loading" => Some(ProviderUsageState::Loading),
        "ready" => Some(ProviderUsageState::Ready),
        "unavailable" => Some(ProviderUsageState::Unavailable),
        _ => None,
    }
}

fn usage_state(value: &serde_json::Value) -> Option<SubscriptionUsageState> {
    match value.as_str()? {
        "loading" => Some(SubscriptionUsageState::Loading),
        "ready" => Some(SubscriptionUsageState::Ready),
        "partial" => Some(SubscriptionUsageState::Partial),
        "unavailable" => Some(SubscriptionUsageState::Unavailable),
        _ => None,
    }
}

fn decode(content: &str) -> Option<SubscriptionUsageSnapshot> {
    let value: serde_json::Value = serde_json::from_str(content).ok()?;
    let weekly = &value["codex"]["weekly"];
    Some(SubscriptionUsageSnapshot {
        schema_version: value["schemaVersion"].as_u64()? as u32,
        state: usage_state(&value["state"])?,
        generated_at: value["generatedAt"].as_str()?.to_owned(),
        updated_at: value["updatedAt"].as_str().map(str::to_owned),
        retry_after_ms: value["retryAfterMs"].as_u64(),
        claude: ClaudeSubscriptionUsage {
            state: ProviderUsageState::Loading,
            updated_at: None,
            session: None,
            weekly: None,
        },
        codex: CodexSubscriptionUsage {
            state: provider_state(&value["codex"]["state"])?,
            updated_at: value["codex"]["updatedAt"].as_str().map(str::to_owned),
            weekly: Some(CodexSubscriptionUsageWindow {
                used_percent: weekly["usedPercent"].as_u64()? as u16,
                resets_at: None,
                window_duration_mins: weekly["windowDurationMins"].as_u64(),
            }),
            limit_reached: value["codex"]["limitReached"].as_bool()?,
        },
    })
}

#[test]
fn reads_snapshot_published_by_desktop_process() {
    let published = r#"{
        "schemaVersion":1,
        "state":"partial",
        "generatedAt":"2026-09-08T00:00:00.000Z",
        "updatedAt":"2026-09-08T00:00:00.000Z",
        "retryAfterMs":2000,
        "codex":{
            "state":"ready",
            "updatedAt":"2026-09-08T00:00:00.000Z",
            "weekly":{"usedPercent":29,"resetsAt":null,"windowDurationMins":10080},
            "limitReached":false
        }
    }"#;
    let read = |name: &str| {
        assert_eq!(name, "aionui-subscription-usage.json");
        Some(published.to_owned())
    };
    let snapshot = read_subscription_usage(read, decode).unwrap();

    assert_eq!(snapshot.state, SubscriptionUsageState::Partial);
    assert_eq!(snapshot.codex.state, ProviderUsageState::Ready);
    assert_eq!(snapshot.retry_after_ms, Some(2000));
    assert_eq!(snapshot.codex.weekly.unwrap().used_percent, 29);
}

#[test]
fn ignores_missing_or_malformed_snapshots() {
    assert!(read_subscription_usage(|_: &str| None, decode).is_none());
    let result = read_subscription_usage(|_: &str| Some("not-json".to_owned()), decode);
    assert!(result.is_none());
}
