//! How much of the subscriptions is used up, as the desktop process publishes it.

use vstd::prelude::*;

verus! {

/// The file in the directory for temporary files that the desktop process writes.
pub const SUBSCRIPTION_USAGE_FILE: &'static str = "aionui-subscription-usage.json";

/// How complete a snapshot is.
#[derive(Debug, Clone, Copy, PartialEq, Eq, Structural)]
pub enum SubscriptionUsageState {
    /// Nothing is known yet.
    Loading,
    /// All of it is known.
    Ready,
    /// Some of it is known.
    Partial,
    /// None of it can be known.
    Unavailable,
}

/// How much is known of one provider.
#[derive(Debug, Clone, Copy, PartialEq, Eq, Structural)]
pub enum ProviderUsageState {
    /// Nothing is known yet.
    Loading,
    /// All of it is known.
    Ready,
    /// None of it can be known.
    Unavailable,
}

/// What is used up in a span of time.
#[derive(Debug, Clone, PartialEq, Eq)]
pub struct SubscriptionUsageWindow {
    /// The part that is used up, in percent.
    pub used_percent: u16,
    /// When the span ends.
    pub resets_at: Option<String>,
}

/// What is used up of a subscription that counts by session and by week.
#[derive(Debug, Clone, PartialEq, Eq)]
pub struct ClaudeSubscriptionUsage {
    /// How much is known.
    pub state: ProviderUsageState,
    /// When it was found out.
    pub updated_at: Option<String>,
    /// What is used up in the present session.
    pub session: Option<SubscriptionUsageWindow>,
    /// What is used up in the present week.
    pub weekly: Option<SubscriptionUsageWindow>,
}

/// What is used up in a span of time, with how long the span is.
#[derive(Debug, Clone, PartialEq, Eq)]
pub struct CodexSubscriptionUsageWindow {
    /// The part that is used up, in percent.
    pub used_percent: u16,
    /// When the span ends.
    pub resets_at: Option<String>,
    /// How long the span is, in minutes.
    pub window_duration_mins: Option<u64>,
}

/// What is used up of a subscription that counts by week alone.
#[derive(Debug, Clone, PartialEq, Eq)]
pub struct CodexSubscriptionUsage {
    /// How much is known.
    pub state: ProviderUsageState,
    /// When it was found out.
    pub updated_at: Option<String>,
    /// What is used up in the present week.
    pub weekly: Option<CodexSubscriptionUsageWindow>,
    /// Whether nothing is left.
    pub limit_reached: bool,
}

/// What is used up of all subscriptions.
#[derive(Debug, Clone, PartialEq, Eq)]
pub struct SubscriptionUsageSnapshot {
    /// The version of the published format.
    pub schema_version: u32,
    /// How complete the snapshot is.
    pub state: SubscriptionUsageState,
    /// When it was made.
    pub generated_at: String,
    /// When what it says was found out.
    pub updated_at: Option<String>,
    /// After how many milliseconds to look again.
    pub retry_after_ms: Option<u64>,
    /// The one that counts by session and by week.
    pub claude: ClaudeSubscriptionUsage,
    /// The one that counts by week alone.
    pub codex: CodexSubscriptionUsage,
}

/// The file that is read is the one that the desktop process writes.
pub proof fn usage_file_is_the_published_one()
    ensures
        SUBSCRIPTION_USAGE_FILE@ == "aionui-subscription-usage.json"@,
{
}

/// The snapshot that is published at present. `read` gives what a file in the directory for
/// temporary files holds, and `decode` the snapshot that a text stands for. There is no snapshot
/// where the file cannot be read, or where it holds something else.
pub fn read_subscription_usage(
    read: impl Fn(&str) -> Option<String>,
    decode: impl Fn(&str) -> Option<SubscriptionUsageSnapshot>,
) -> (snapshot: Option<SubscriptionUsageSnapshot>)
    requires
        forall|name: &str| #[trigger] read.requires((name,)),
        forall|content: &str| #[trigger] decode.requires((content,)),
    ensures
        exists|content: Option<String>| #[trigger]
            read.ensures((SUBSCRIPTION_USAGE_FILE,), content) && match content {
                None => snapshot is None,
                Some(content) => exists|text: &str|
                    text@ == content@ && #[trigger] decode.ensures((text,), snapshot),
            },
{
    match read(SUBSCRIPTION_USAGE_FILE) {
        None => None,
        Some(content) => decode(content.as_str()),
    }
}

} // verus!
