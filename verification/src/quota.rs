//! What is kept of provider quotas.
use crate::code_types::sat_add;
use crate::ids::{EventId, ProviderAccountId, SourceId};
use crate::records::{UsageCounts, or_zero};
use crate::text::copy_opt;
use crate::time::Timestamp;
use crate::usage::{sat_i64, saturate};
use vstd::prelude::*;

verus! {

pub const QUOTA_WEEKLY_WINDOW_MINUTES: u64 = 10_080;

#[derive(Debug, Clone, Copy, PartialEq, Eq, Structural)]
pub enum QuotaUsageLinkKind {
    RecordEvent,
    TurnEvent,
    Unlinked,
}

#[derive(Debug, Clone, Copy, PartialEq, Eq, Structural)]
pub enum QuotaTransitionKind {
    Initial,
    Early,
    OnOrAfterPreviousSchedule,
}

#[derive(Debug, Clone, PartialEq, Eq)]
pub struct QuotaCreditsV1 {
    pub has_credits: Option<bool>,
    pub unlimited: Option<bool>,
    pub balance: Option<String>,
    /// Local only: the balance as the provider sent it, as JSON.
    pub balance_raw: Option<String>,
}

#[derive(Debug, Clone, PartialEq, Eq)]
pub struct QuotaStatusV1 {
    pub plan_type: Option<String>,
    /// As JSON.
    pub individual_limit: Option<String>,
    pub spend_control_state: Option<String>,
    pub reached_type: Option<String>,
    pub credits: QuotaCreditsV1,
}

#[derive(Debug, Clone, PartialEq, Eq)]
pub struct QuotaProjectionCreditsV1 {
    pub has_credits: Option<bool>,
    pub unlimited: Option<bool>,
    pub balance: Option<String>,
}

/// A status as it may leave the device.
#[derive(Debug, Clone, PartialEq, Eq)]
pub struct QuotaProjectionStatusV1 {
    pub plan_type: Option<String>,
    /// As JSON.
    pub individual_limit: Option<String>,
    pub spend_control_state: Option<String>,
    pub reached_type: Option<String>,
    pub credits: QuotaProjectionCreditsV1,
}

impl QuotaProjectionStatusV1 {
    /// The status without the balance as the provider sent it.
    pub fn from(status: &QuotaStatusV1) -> (r: Self)
        ensures
            r == (QuotaProjectionStatusV1 {
                plan_type: status.plan_type,
                individual_limit: status.individual_limit,
                spend_control_state: status.spend_control_state,
                reached_type: status.reached_type,
                credits: QuotaProjectionCreditsV1 {
                    has_credits: status.credits.has_credits,
                    unlimited: status.credits.unlimited,
                    balance: status.credits.balance,
                },
            }),
    {
        QuotaProjectionStatusV1 {
            plan_type: copy_opt(&status.plan_type),
            individual_limit: copy_opt(&status.individual_limit),
            spend_control_state: copy_opt(&status.spend_control_state),
            reached_type: copy_opt(&status.reached_type),
            credits: QuotaProjectionCreditsV1 {
                has_credits: status.credits.has_credits,
                unlimited: status.credits.unlimited,
                balance: copy_opt(&status.credits.balance),
            },
        }
    }
}

#[derive(Debug, Clone, PartialEq, Eq)]
pub struct QuotaObservationV1 {
    pub schema_version: String,
    pub observation_id: String,
    pub semantic_fingerprint: String,
    pub provider: String,
    pub source_id: SourceId,
    pub provider_account_id: Option<ProviderAccountId>,
    pub observed_at: Timestamp,
    pub source_file_path_hash: String,
    pub source_record_id: String,
    pub source_line_number: u64,
    pub payload_hash: String,
    pub usage_sample: Option<UsageCounts>,
    pub usage_event_id: Option<EventId>,
    pub usage_link_kind: QuotaUsageLinkKind,
    pub status: QuotaStatusV1,
}

#[derive(Debug, Clone, Copy, PartialEq, Eq, Structural)]
pub struct QuotaUsageTotalsV1 {
    pub event_count: u64,
    pub total_tokens: u64,
    pub estimated_cost_micro_usd: Option<i64>,
}

/// Usage during part of a day.
#[derive(Debug, Clone, Copy, PartialEq, Eq, Structural)]
pub struct QuotaUsageSliceV1 {
    pub period_start: Timestamp,
    pub period_end: Timestamp,
    pub input_tokens: u64,
    pub cache_creation_tokens: u64,
    pub cache_read_tokens: u64,
    pub output_tokens: u64,
    pub reasoning_tokens: u64,
    pub total_tokens: u64,
    pub estimated_cost_micro_usd: i64,
}

impl QuotaUsageSliceV1 {
    pub open spec fn plus(self, usage: UsageCounts, cost: Option<i64>) -> QuotaUsageSliceV1 {
        QuotaUsageSliceV1 {
            input_tokens: sat_add(self.input_tokens, or_zero(usage.input_tokens)),
            cache_creation_tokens: sat_add(
                self.cache_creation_tokens,
                sat_add(
                    sat_add(
                        or_zero(usage.cache_creation_tokens),
                        or_zero(usage.cache_creation_5m_tokens),
                    ),
                    or_zero(usage.cache_creation_1h_tokens),
                ),
            ),
            cache_read_tokens: sat_add(self.cache_read_tokens, or_zero(usage.cache_read_tokens)),
            output_tokens: sat_add(self.output_tokens, or_zero(usage.output_tokens)),
            reasoning_tokens: sat_add(self.reasoning_tokens, or_zero(usage.reasoning_tokens)),
            total_tokens: sat_add(self.total_tokens, usage.computed_total_spec()),
            estimated_cost_micro_usd: match cost {
                Some(c) => sat_i64(self.estimated_cost_micro_usd + c),
                None => self.estimated_cost_micro_usd,
            },
            ..self
        }
    }

    pub fn add_usage(&mut self, usage: &UsageCounts, estimated_cost_micro_usd: Option<i64>)
        ensures
            *final(self) == old(self).plus(*usage, estimated_cost_micro_usd),
    {
        self.input_tokens = self.input_tokens.saturating_add(usage.input_tokens.unwrap_or(0));
        self.cache_creation_tokens =
        self.cache_creation_tokens.saturating_add(
            usage.cache_creation_tokens.unwrap_or(0).saturating_add(
                usage.cache_creation_5m_tokens.unwrap_or(0),
            ).saturating_add(usage.cache_creation_1h_tokens.unwrap_or(0)),
        );
        self.cache_read_tokens =
        self.cache_read_tokens.saturating_add(usage.cache_read_tokens.unwrap_or(0));
        self.output_tokens = self.output_tokens.saturating_add(usage.output_tokens.unwrap_or(0));
        self.reasoning_tokens =
        self.reasoning_tokens.saturating_add(usage.reasoning_tokens.unwrap_or(0));
        self.total_tokens = self.total_tokens.saturating_add(usage.computed_total());
        match estimated_cost_micro_usd {
            Some(c) => {
                self.estimated_cost_micro_usd =
                saturate(self.estimated_cost_micro_usd as i128 + c as i128);
            },
            None => {},
        }
    }
}

} // verus!
