use vstd::prelude::*;

verus! {

/// Stored OAuth credentials, as the credentials file and the platform
/// secret store hold them.
#[derive(Debug, Clone)]
pub struct Credentials {
    pub claude_ai_oauth: Option<OAuthToken>,
}

/// One OAuth token with its expiry instant (epoch milliseconds).
#[derive(Debug, Clone)]
pub struct OAuthToken {
    pub access_token: String,
    pub expires_at: i64,
}

/// The remote profile: the account and its organization.
#[derive(Debug, Clone)]
pub struct ProfileResponse {
    pub account: AccountInfo,
    pub organization: OrganizationInfo,
}

/// Account fields of the remote profile.
#[derive(Debug, Clone)]
pub struct AccountInfo {
    pub uuid: String,
    pub full_name: String,
    pub display_name: String,
    pub email: String,
    pub has_claude_max: bool,
    pub has_claude_pro: bool,
    pub created_at: String,
}

/// Organization fields of the remote profile.
#[derive(Debug, Clone)]
pub struct OrganizationInfo {
    pub uuid: String,
    pub name: String,
    pub organization_type: String,
    pub billing_type: String,
    pub rate_limit_tier: String,
    pub has_extra_usage_enabled: bool,
    pub subscription_status: String,
    pub subscription_created_at: String,
}

/// One day's activity: messages, distinct sessions and tool calls of that
/// calendar date.
#[derive(Debug, Clone)]
pub struct DailyActivity {
    pub date: String,
    pub message_count: u64,
    pub session_count: u64,
    pub tool_call_count: u64,
}

/// One day's output tokens, split by model. The entries are sorted by
/// model name and each model occurs once.
#[derive(Debug, Clone)]
pub struct DailyModelTokens {
    pub date: String,
    pub tokens_by_model: Vec<(String, u64)>,
}

/// Cumulative usage of one model over all time. The cost and the context
/// window metadata are not computed here and stay at zero.
#[derive(Debug, Clone)]
pub struct ModelUsage {
    pub input_tokens: u64,
    pub output_tokens: u64,
    pub cache_read_input_tokens: u64,
    pub cache_creation_input_tokens: u64,
    pub web_search_requests: u64,
    pub context_window: u64,
    pub max_output_tokens: u64,
}

/// The session with the greatest duration, with its bounds.
#[derive(Debug, Clone)]
pub struct LongestSession {
    pub session_id: String,
    pub duration: u64,
    pub message_count: u64,
    pub timestamp: String,
}

/// The persisted summary document: everything the presentation layer reads.
/// `hour_counts` has one bucket per hour of the day, index equals hour.
#[derive(Debug, Clone)]
pub struct StatsCache {
    pub version: u32,
    pub last_computed_date: String,
    pub daily_activity: Vec<DailyActivity>,
    pub daily_model_tokens: Vec<DailyModelTokens>,
    pub model_usage: Vec<(String, ModelUsage)>,
    pub total_sessions: u64,
    pub total_messages: u64,
    pub longest_session: Option<LongestSession>,
    pub first_session_date: Option<String>,
    pub hour_counts: Vec<u64>,
    pub total_speculation_time_saved_ms: u64,
}

/// One line of the chronological activity log.
#[derive(Debug, Clone)]
pub struct HistoryEntry {
    pub display: String,
    pub timestamp: u64,
    pub project: Option<String>,
    pub session_id: Option<String>,
}

/// One day's token totals, as the presentation layer lists them.
#[derive(Debug, Clone)]
pub struct DailyTokenTotal {
    pub date: String,
    pub total: u64,
    pub by_model: Vec<(String, u64)>,
}

/// The reduced summary for the current calendar date.
#[derive(Debug, Clone)]
pub struct TodaySummary {
    pub date: String,
    pub total_tokens: u64,
    pub tokens_by_model: Vec<(String, u64)>,
    pub messages: u64,
    pub sessions: u64,
    pub tool_calls: u64,
}

} // verus!
