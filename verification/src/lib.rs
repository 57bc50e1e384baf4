//! Local-first AI usage statistics.
pub mod account_plan;
pub mod accounts;
pub mod archive;
pub mod assignments;
pub mod attribution_laws;
pub mod auth;
pub mod batch_ids;
pub mod binary64;
pub mod binary64_laws;
pub mod calendar;
pub mod classify;
pub mod classify_laws;
pub mod code_types;
pub mod daemon_presence;
pub mod decimals;
pub mod diff;
pub mod flow_laws;
pub mod git;
pub mod git_laws;
pub mod hashing;
pub mod identities;
pub mod ids;
pub mod imports;
pub mod json;
pub mod json_limit;
pub mod letter_case;
pub mod matching;
pub mod matching_laws;
pub mod merge;
pub mod merge_laws;
pub mod metrics;
pub mod metrics_laws;
pub mod naming_laws;
pub mod overlap;
pub mod patch;
pub mod patch_laws;
pub mod path_laws;
pub mod paths;
pub mod period_laws;
pub mod periods;
pub mod place_laws;
pub mod privacy_laws;
pub mod quota;
pub mod records;
pub mod render;
pub mod report;
pub mod report_laws;
pub mod report_row_laws;
pub mod rollup_laws;
pub mod rollups;
pub mod row_place_laws;
pub mod sorted;
pub mod source_laws;
pub mod sources;
pub mod subscription_laws;
pub mod subscriptions;
pub mod sync;
pub mod sync_flow;
pub mod sync_laws;
pub mod sync_queue;
pub mod table_laws;
pub mod text;
pub mod text_laws;
pub mod time;
pub mod time_laws;
pub mod usage;
pub mod usage_laws;
