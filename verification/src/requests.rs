//! The request and result records the calling layers exchange with the
//! engine and its collaborators. All fields are plain values; the desktop
//! layer keeps serializable copies of these shapes and converts.

use vstd::prelude::*;

verus! {

#[derive(Debug, Clone)]
pub struct InvestmentReturnQueryRequest {
    pub account_id: String,
    pub preset: Option<String>,
    pub from_date: Option<String>,
    pub to_date: Option<String>,
}

#[derive(Debug, Clone)]
pub struct InvestmentCurveQueryRequest {
    pub account_id: String,
    pub preset: Option<String>,
    pub from_date: Option<String>,
    pub to_date: Option<String>,
}

#[derive(Debug, Clone)]
pub struct InvestmentReturnsQueryRequest {
    pub preset: Option<String>,
    pub from_date: Option<String>,
    pub to_date: Option<String>,
    pub keyword: Option<String>,
    pub limit: Option<u32>,
}

#[derive(Debug, Clone)]
pub struct WealthOverviewQueryRequest {
    pub as_of_date: Option<String>,
    pub include_investment: Option<String>,
    pub include_cash: Option<String>,
    pub include_real_estate: Option<String>,
    pub include_liability: Option<String>,
}

#[derive(Debug, Clone)]
pub struct WealthCurveQueryRequest {
    pub preset: Option<String>,
    pub from_date: Option<String>,
    pub to_date: Option<String>,
    pub include_investment: Option<String>,
    pub include_cash: Option<String>,
    pub include_real_estate: Option<String>,
    pub include_liability: Option<String>,
}

#[derive(Debug, Clone)]
pub struct AccountCatalogQueryRequest {
    pub kind: Option<String>,
    pub keyword: Option<String>,
    pub limit: Option<u32>,
}

#[derive(Debug, Clone)]
pub struct UpsertAccountCatalogEntryRequest {
    pub account_id: Option<String>,
    pub account_name: Option<String>,
    pub account_kind: Option<String>,
}

#[derive(Debug, Clone)]
pub struct DeleteAccountCatalogEntryRequest {
    pub account_id: Option<String>,
}

#[derive(Debug, Clone)]
pub struct MonthlyBudgetItemsQueryRequest {}

#[derive(Debug, Clone)]
pub struct MonthlyBudgetItemUpsertRequest {
    pub id: Option<String>,
    pub name: Option<String>,
    pub monthly_amount: Option<String>,
    pub sort_order: Option<String>,
    pub is_active: Option<String>,
}

#[derive(Debug, Clone)]
pub struct MonthlyBudgetItemDeleteRequest {
    pub id: Option<String>,
}

#[derive(Debug, Clone)]
pub struct BudgetYearQueryRequest {
    pub year: Option<String>,
}

#[derive(Debug, Clone)]
pub struct FireProgressQueryRequest {
    pub year: Option<String>,
    pub withdrawal_rate: Option<String>,
}

#[derive(Debug, Clone)]
pub struct ConsumptionReportQueryRequest {
    pub year: Option<String>,
}

#[derive(Debug, Clone)]
pub struct HealthPing {
    pub status: &'static str,
    pub unix_ts: u64,
    pub mode: &'static str,
}

#[derive(Debug, Clone)]
pub struct AppMetadata {
    pub app_name: String,
    pub app_version: String,
    pub app_identifier: Option<String>,
    pub target_os: String,
    pub target_arch: String,
    pub debug: bool,
    pub tauri_major: u8,
}

#[derive(Debug, Clone)]
pub struct PathProbe {
    pub path: Option<String>,
    pub error: Option<String>,
}

#[derive(Debug, Clone)]
pub struct AppPaths {
    pub app_data_dir: PathProbe,
    pub app_config_dir: PathProbe,
    pub app_cache_dir: PathProbe,
    pub app_log_dir: PathProbe,
    pub app_local_data_dir: PathProbe,
}

#[derive(Debug, Clone)]
pub struct LedgerDbStatus {
    pub db_path: String,
    pub exists: bool,
    pub migration_files: Vec<String>,
    pub applied_versions: Vec<String>,
    pub pending_versions: Vec<String>,
    pub schema_migrations_table_exists: bool,
    pub ready: bool,
}

#[derive(Debug, Clone)]
pub struct LedgerDbMigrateResult {
    pub db_path: String,
    pub created: bool,
    pub applied_now: Vec<String>,
    pub skipped: Vec<String>,
    pub applied_total: usize,
    pub pending_total: usize,
}

#[derive(Debug, Clone)]
pub struct LedgerDbImportRepoRuntimeResult {
    pub source_db_path: String,
    pub target_db_path: String,
    pub replaced_existing: bool,
    pub copied_bytes: u64,
    pub migrate_result: LedgerDbMigrateResult,
}

#[derive(Debug, Clone)]
pub struct LedgerAdminDbStatsSummary {
    pub table_count: usize,
    pub total_rows: i64,
}

#[derive(Debug, Clone)]
pub struct LedgerAdminDbTableCountRow {
    pub table: String,
    pub row_count: i64,
}

#[derive(Debug, Clone)]
pub struct LedgerAdminDbStatsResult {
    pub db_path: String,
    pub confirm_phrase: String,
    pub summary: LedgerAdminDbStatsSummary,
    pub rows: Vec<LedgerAdminDbTableCountRow>,
}

#[derive(Debug, Clone)]
pub struct LedgerAdminResetSummary {
    pub table_count: usize,
    pub total_rows_before: i64,
    pub total_rows_after: i64,
    pub deleted_rows: i64,
}

#[derive(Debug, Clone)]
pub struct LedgerAdminResetResult {
    pub db_path: String,
    pub confirm_phrase: String,
    pub summary: LedgerAdminResetSummary,
    pub before_rows: Vec<LedgerAdminDbTableCountRow>,
    pub after_rows: Vec<LedgerAdminDbTableCountRow>,
}

#[derive(Debug, Clone)]
pub struct LedgerAdminTransactionResetSummary {
    pub scope_count: usize,
    pub total_rows_before: i64,
    pub total_rows_after: i64,
    pub deleted_rows: i64,
}

#[derive(Debug, Clone)]
pub struct LedgerAdminTransactionResetResult {
    pub db_path: String,
    pub confirm_phrase: String,
    pub scopes: Vec<String>,
    pub summary: LedgerAdminTransactionResetSummary,
    pub before_rows: Vec<LedgerAdminDbTableCountRow>,
    pub after_rows: Vec<LedgerAdminDbTableCountRow>,
}

#[derive(Debug, Clone)]
pub struct LedgerAdminResetRequest {
    pub confirm_text: Option<String>,
}

#[derive(Debug, Clone)]
pub struct MetaAccountsQueryRequest {
    pub kind: Option<String>,
}

#[derive(Debug, Clone)]
pub struct TransactionsQueryRequest {
    pub limit: Option<u32>,
    pub month_key: Option<String>,
    pub source_type: Option<String>,
    pub account_id: Option<String>,
    pub keyword: Option<String>,
    pub sort: Option<String>,
}

#[derive(Debug, Clone)]
pub struct InvestmentsQueryRequest {
    pub limit: Option<u32>,
    pub from_date: Option<String>,
    pub to_date: Option<String>,
    pub source_type: Option<String>,
    pub account_id: Option<String>,
}

#[derive(Debug, Clone)]
pub struct AssetValuationsQueryRequest {
    pub limit: Option<u32>,
    pub from_date: Option<String>,
    pub to_date: Option<String>,
    pub asset_class: Option<String>,
    pub account_id: Option<String>,
}

#[derive(Debug, Clone)]
pub struct ManualInvestmentUpsertRequest {
    pub snapshot_date: Option<String>,
    pub account_id: Option<String>,
    pub account_name: Option<String>,
    pub total_assets: Option<String>,
    pub transfer_amount: Option<String>,
}

#[derive(Debug, Clone)]
pub struct InvestmentRecordUpdateRequest {
    pub id: Option<String>,
    pub snapshot_date: Option<String>,
    pub account_id: Option<String>,
    pub account_name: Option<String>,
    pub total_assets: Option<String>,
    pub transfer_amount: Option<String>,
}

#[derive(Debug, Clone)]
pub struct RecordDeleteRequest {
    pub id: Option<String>,
}

#[derive(Debug, Clone)]
pub struct ManualAssetValuationUpsertRequest {
    pub asset_class: Option<String>,
    pub snapshot_date: Option<String>,
    pub account_id: Option<String>,
    pub account_name: Option<String>,
    pub value: Option<String>,
}

#[derive(Debug, Clone)]
pub struct AssetValuationUpdateRequest {
    pub id: Option<String>,
    pub asset_class: Option<String>,
    pub snapshot_date: Option<String>,
    pub account_id: Option<String>,
    pub account_name: Option<String>,
    pub value: Option<String>,
}

#[derive(Debug, Clone)]
pub struct RulesListQueryRequest {
    pub keyword: Option<String>,
    pub limit: Option<u32>,
}

#[derive(Debug, Clone)]
pub struct MerchantMapUpsertRequest {
    pub merchant_normalized: Option<String>,
    pub expense_category: Option<String>,
    pub confidence: Option<String>,
    pub note: Option<String>,
}

#[derive(Debug, Clone)]
pub struct MerchantMapDeleteRequest {
    pub merchant_normalized: Option<String>,
}

#[derive(Debug, Clone)]
pub struct CategoryRuleUpsertRequest {
    pub priority: Option<String>,
    pub match_type: Option<String>,
    pub pattern: Option<String>,
    pub expense_category: Option<String>,
    pub confidence: Option<String>,
    pub note: Option<String>,
}

#[derive(Debug, Clone)]
pub struct CategoryRuleDeleteRequest {
    pub match_type: Option<String>,
    pub pattern: Option<String>,
}

#[derive(Debug, Clone)]
pub struct BankTransferWhitelistQueryRequest {
    pub keyword: Option<String>,
    pub limit: Option<u32>,
    pub active_only: Option<String>,
}

#[derive(Debug, Clone)]
pub struct BankTransferWhitelistUpsertRequest {
    pub name: Option<String>,
    pub is_active: Option<String>,
    pub note: Option<String>,
}

#[derive(Debug, Clone)]
pub struct BankTransferWhitelistDeleteRequest {
    pub name: Option<String>,
}

#[derive(Debug, Clone)]
pub struct AnalysisExclusionQueryRequest {
    pub keyword: Option<String>,
    pub limit: Option<u32>,
    pub enabled_only: Option<String>,
}

#[derive(Debug, Clone)]
pub struct AnalysisExclusionUpsertRequest {
    pub enabled: Option<String>,
    pub rule_name: Option<String>,
    pub merchant_contains: Option<String>,
    pub description_contains: Option<String>,
    pub expense_category: Option<String>,
    pub min_amount: Option<String>,
    pub max_amount: Option<String>,
    pub start_date: Option<String>,
    pub end_date: Option<String>,
    pub reason: Option<String>,
}

#[derive(Debug, Clone)]
pub struct AnalysisExclusionDeleteRequest {
    pub rule_name: Option<String>,
}

#[derive(Debug, Clone)]
pub struct MerchantRuleSuggestionsQueryRequest {
    pub keyword: Option<String>,
    pub limit: Option<u32>,
    pub only_unmapped: Option<String>,
}

#[derive(Debug, Clone)]
pub struct UpdateTransactionAnalysisExclusionRequest {
    pub id: Option<String>,
    pub action: Option<String>,
    pub excluded_in_analysis: Option<bool>,
    pub reason: Option<String>,
}

#[derive(Debug, Clone)]
pub struct YzxyPreviewRequest {
    pub source_path: Option<String>,
}

#[derive(Debug, Clone)]
pub struct YzxyImportRequest {
    pub source_path: Option<String>,
    pub source_type: Option<String>,
}

} // verus!
