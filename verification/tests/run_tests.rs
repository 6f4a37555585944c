use yaml_seeder::run::{apply_summary, log_level, processes_file, ApplySummary, LogLevel};

#[test]
fn files_without_tables_are_skipped() {
    assert!(!processes_file(0));
    assert!(processes_file(3));
}

#[test]
fn run_summaries() {
    assert_eq!(apply_summary(0, false, false, false), ApplySummary::NoTargets);
    assert_eq!(apply_summary(2, false, true, false), ApplySummary::NoTables);
    assert_eq!(apply_summary(2, true, true, true), ApplySummary::DryRun);
    assert_eq!(apply_summary(2, true, false, true), ApplySummary::ValidatedOnly);
    assert_eq!(apply_summary(1, true, false, false), ApplySummary::Applied);
}

#[test]
fn debug_flag_sets_log_level() {
    assert_eq!(log_level(true), LogLevel::Debug);
    assert_eq!(log_level(false), LogLevel::Info);
}
