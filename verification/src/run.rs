//! The decisions of one run of the `apply` command over its seed files.
use vstd::prelude::*;

verus! {

/// How a run of `apply` ends, when no file failed.
#[derive(Debug, Clone, Copy, PartialEq, Eq, Structural)]
pub enum ApplySummary {
    /// The path held no seed file.
    NoTargets,
    /// No seed file defined a table.
    NoTables,
    /// Tables were planned, and no SQL was run.
    DryRun,
    /// Tables were validated, and no SQL was run.
    ValidatedOnly,
    /// Every table was applied and committed.
    Applied,
}

/// Whether a loaded seed file is processed: only one that defines at least one table.
pub fn processes_file(table_count: usize) -> (r: bool)
    ensures
        r == (table_count > 0),
{
    table_count > 0
}

/// How a run ends: without targets, without any table, or by the mode it ran in.
pub open spec fn summary_of(target_count: nat, processed_any_table: bool, dry_run: bool, validate_only: bool) -> ApplySummary {
    if target_count == 0 {
        ApplySummary::NoTargets
    } else if !processed_any_table {
        ApplySummary::NoTables
    } else if dry_run {
        ApplySummary::DryRun
    } else if validate_only {
        ApplySummary::ValidatedOnly
    } else {
        ApplySummary::Applied
    }
}

/// How a run that found `target_count` seed files ends; see `summary_of`.
pub fn apply_summary(target_count: usize, processed_any_table: bool, dry_run: bool, validate_only: bool) -> (r: ApplySummary)
    ensures
        r == summary_of(target_count as nat, processed_any_table, dry_run, validate_only),
{
    if target_count == 0 {
        ApplySummary::NoTargets
    } else if !processed_any_table {
        ApplySummary::NoTables
    } else if dry_run {
        ApplySummary::DryRun
    } else if validate_only {
        ApplySummary::ValidatedOnly
    } else {
        ApplySummary::Applied
    }
}

/// The level that logging runs at.
#[derive(Debug, Clone, Copy, PartialEq, Eq, Structural)]
pub enum LogLevel {
    /// Debug messages and above.
    Debug,
    /// Informational messages and above.
    Info,
}

/// The logging level of a run: debug with `--debug`, info otherwise.
pub fn log_level(debug: bool) -> (r: LogLevel)
    ensures
        r == (if debug {
            LogLevel::Debug
        } else {
            LogLevel::Info
        }),
{
    if debug {
        LogLevel::Debug
    } else {
        LogLevel::Info
    }
}

} // verus!
