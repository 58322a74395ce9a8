use deskcraft::conflict::{resolve_conflict, resolve_suffix};
use deskcraft::engine::KeyedList;
use deskcraft::executor::{execute, MoveOutcome};
use deskcraft::fsview::FsView;
use deskcraft::models::{FileEntry, Rule, RuleAction, RuleCondition, SimulationResult};
use deskcraft::rollback::rollback_run;
use deskcraft::scanner::make_file_entry;
use deskcraft::simulator::simulate;

fn pdf_file() -> FileEntry {
    FileEntry {
        path: "/in/report.pdf".to_string(),
        name: "report.pdf".to_string(),
        extension: "pdf".to_string(),
        size: 4096,
        created_at: "2025-06-15 10:30:00".to_string(),
        modified_at: "2025-06-15 10:30:00".to_string(),
    }
}

fn pdf_rule_setup() -> (Vec<Rule>, KeyedList<Vec<RuleCondition>>, KeyedList<Vec<RuleAction>>) {
    let rule = Rule {
        id: "rule-1".to_string(),
        name: "PDF bucket".to_string(),
        description: "".to_string(),
        is_enabled: true,
        priority: 0,
        sort_order: 0,
        created_at: "".to_string(),
        updated_at: "".to_string(),
    };
    let condition = RuleCondition {
        id: "c1".to_string(),
        rule_id: "rule-1".to_string(),
        field: "extension".to_string(),
        operator: "equals".to_string(),
        value: "pdf".to_string(),
        logic_gate: "AND".to_string(),
        sort_order: 0,
        created_at: "".to_string(),
    };
    let action = RuleAction {
        id: "a1".to_string(),
        rule_id: "rule-1".to_string(),
        action_type: "move".to_string(),
        destination: "/out/{extension}".to_string(),
        rename_pattern: "".to_string(),
        tag_name: "".to_string(),
        sort_order: 0,
        created_at: "".to_string(),
    };
    let mut conditions = KeyedList::new();
    conditions.insert("rule-1".to_string(), vec![condition]);
    let mut actions = KeyedList::new();
    actions.insert("rule-1".to_string(), vec![action]);
    (vec![rule], conditions, actions)
}

fn fs_with_input() -> FsView {
    let mut fs = FsView::new();
    fs.add_dir("/in".to_string());
    fs.add_file("/in/report.pdf".to_string());
    fs
}

#[test]
fn test_skip_strategy() {
    let fs = FsView::new();
    let resolved = resolve_conflict("/some/file.txt", "skip", &fs);
    assert_eq!(resolved, "/some/file.txt");
}

#[test]
fn test_suffix_strategy_no_conflict() {
    let mut fs = FsView::new();
    fs.add_file("/work/test.txt".to_string());
    let resolved = resolve_suffix("/work/test.txt", &fs);
    assert_eq!(resolved, "/work/test_1.txt");
}

#[test]
fn test_suffix_skips_taken_candidates() {
    let mut fs = FsView::new();
    fs.add_file("/work/test.txt".to_string());
    fs.add_file("/work/test_1.txt".to_string());
    fs.add_file("/work/test_2.txt".to_string());
    let resolved = resolve_suffix("/work/test.txt", &fs);
    assert_eq!(resolved, "/work/test_3.txt");
}

#[test]
fn test_conflict_folder_strategy() {
    let mut fs = FsView::new();
    fs.add_file("/out/report.pdf".to_string());
    let resolved = resolve_conflict("/out/report.pdf", "conflict_folder", &fs);
    assert_eq!(resolved, "/out/Conflicts/report.pdf");
}

#[test]
fn test_unknown_strategy_falls_back_to_suffix() {
    let mut fs = FsView::new();
    fs.add_file("/out/report.pdf".to_string());
    let resolved = resolve_conflict("/out/report.pdf", "whatever", &fs);
    assert_eq!(resolved, "/out/report_1.pdf");
}

#[test]
fn test_simulate_pdf_bucket() {
    let (rules, conditions, actions) = pdf_rule_setup();
    let fs = fs_with_input();
    let files = vec![pdf_file()];
    let sim = simulate(&files, &rules, &conditions, &actions, &fs);
    assert_eq!(sim.total_files, 1);
    assert_eq!(sim.matched_files, 1);
    assert_eq!(sim.unmatched_files, 0);
    assert_eq!(sim.items.len(), 1);
    assert_eq!(sim.items[0].destination, "/out/pdf/report.pdf");
    assert!(!sim.items[0].conflict);
    assert_eq!(sim.items[0].rule_id, "rule-1");
    assert_eq!(sim.items[0].rule_name, "PDF bucket");
}

#[test]
fn test_simulate_counts_unmatched() {
    let (rules, conditions, actions) = pdf_rule_setup();
    let fs = FsView::new();
    let other = FileEntry {
        path: "/in/notes.txt".to_string(),
        name: "notes.txt".to_string(),
        extension: "txt".to_string(),
        size: 10,
        created_at: "".to_string(),
        modified_at: "".to_string(),
    };
    let sim = simulate(&vec![other], &rules, &conditions, &actions, &fs);
    assert_eq!(sim.total_files, 1);
    assert_eq!(sim.matched_files, 0);
    assert_eq!(sim.unmatched_files, 1);
    assert_eq!(sim.items.len(), 0);
}

#[test]
fn test_execute_moves_file() {
    let (rules, conditions, actions) = pdf_rule_setup();
    let mut fs = fs_with_input();
    let sim = simulate(&vec![pdf_file()], &rules, &conditions, &actions, &fs);
    let outcomes = vec![MoveOutcome::Moved];
    let out = execute(&sim, "run-1", "suffix", &mut fs, &outcomes);
    assert_eq!(out.result.moved, 1);
    assert_eq!(out.result.skipped, 0);
    assert_eq!(out.result.errors, 0);
    assert_eq!(out.status, "completed");
    assert_eq!(out.journal.len(), 1);
    assert_eq!(out.journal[0].status, "completed");
    assert_eq!(out.journal[0].destination_path, "/out/pdf/report.pdf");
    assert!(fs.file_exists("/out/pdf/report.pdf"));
    assert!(!fs.file_exists("/in/report.pdf"));
}

#[test]
fn test_execute_suffix_conflict() {
    let (rules, conditions, actions) = pdf_rule_setup();
    let mut fs = fs_with_input();
    fs.add_file("/out/pdf/report.pdf".to_string());
    let sim = simulate(&vec![pdf_file()], &rules, &conditions, &actions, &fs);
    assert!(sim.items[0].conflict);
    let outcomes = vec![MoveOutcome::Moved];
    let out = execute(&sim, "run-2", "suffix", &mut fs, &outcomes);
    assert_eq!(out.result.moved, 1);
    assert_eq!(out.journal[0].destination_path, "/out/pdf/report_1.pdf");
    assert!(fs.file_exists("/out/pdf/report_1.pdf"));
    assert!(!fs.file_exists("/in/report.pdf"));
}

#[test]
fn test_execute_skip_conflict() {
    let (rules, conditions, actions) = pdf_rule_setup();
    let mut fs = fs_with_input();
    fs.add_file("/out/pdf/report.pdf".to_string());
    let sim = simulate(&vec![pdf_file()], &rules, &conditions, &actions, &fs);
    let outcomes = vec![MoveOutcome::Moved];
    let out = execute(&sim, "run-3", "skip", &mut fs, &outcomes);
    assert_eq!(out.result.moved, 0);
    assert_eq!(out.result.skipped, 1);
    assert_eq!(out.journal[0].status, "skipped");
    assert!(fs.file_exists("/in/report.pdf"));
}

#[test]
fn test_execute_records_errors() {
    let (rules, conditions, actions) = pdf_rule_setup();
    let mut fs = fs_with_input();
    let sim = simulate(&vec![pdf_file()], &rules, &conditions, &actions, &fs);
    let outcomes = vec![MoveOutcome::DirFailed("permission denied".to_string())];
    let out = execute(&sim, "run-4", "suffix", &mut fs, &outcomes);
    assert_eq!(out.result.errors, 1);
    assert_eq!(out.result.moved, 0);
    assert_eq!(out.status, "error");
    assert_eq!(out.journal[0].status, "error");
    assert_eq!(out.result.error_messages.len(), 1);
    assert!(fs.file_exists("/in/report.pdf"));
}

#[test]
fn test_journal_counts_match_statuses() {
    let (rules, conditions, actions) = pdf_rule_setup();
    let mut fs = fs_with_input();
    fs.add_file("/in/other.pdf".to_string());
    let other = FileEntry {
        path: "/in/other.pdf".to_string(),
        name: "other.pdf".to_string(),
        extension: "pdf".to_string(),
        size: 1,
        created_at: "".to_string(),
        modified_at: "".to_string(),
    };
    let sim = simulate(&vec![pdf_file(), other], &rules, &conditions, &actions, &fs);
    let outcomes = vec![MoveOutcome::Moved, MoveOutcome::MoveFailed("disk full".to_string())];
    let out = execute(&sim, "run-5", "suffix", &mut fs, &outcomes);
    let completed = out.journal.iter().filter(|e| e.status == "completed").count() as u32;
    let skipped = out.journal.iter().filter(|e| e.status == "skipped").count() as u32;
    let errors = out.journal.iter().filter(|e| e.status == "error").count() as u32;
    assert_eq!(out.result.moved, completed);
    assert_eq!(out.result.skipped, skipped);
    assert_eq!(out.result.errors, errors);
    assert_eq!(out.result.total, completed + skipped + errors);
    assert_eq!(out.status, "completed_with_errors");
}

#[test]
fn test_rollback_restores_files() {
    let (rules, conditions, actions) = pdf_rule_setup();
    let mut fs = fs_with_input();
    let sim = simulate(&vec![pdf_file()], &rules, &conditions, &actions, &fs);
    let out = execute(&sim, "run-6", "suffix", &mut fs, &vec![MoveOutcome::Moved]);
    let rb = rollback_run(&out.journal, &mut fs, &vec![MoveOutcome::Moved]);
    assert_eq!(rb.rolled_back, 1);
    assert_eq!(rb.errors, 0);
    assert_eq!(rb.status, "rolled_back");
    assert_eq!(rb.journal[0].status, "rolled_back");
    assert!(fs.file_exists("/in/report.pdf"));
    assert!(!fs.file_exists("/out/pdf/report.pdf"));
}

#[test]
fn test_rollback_skips_missing_destination() {
    let (rules, conditions, actions) = pdf_rule_setup();
    let mut fs = fs_with_input();
    let sim = simulate(&vec![pdf_file()], &rules, &conditions, &actions, &fs);
    let out = execute(&sim, "run-7", "suffix", &mut fs, &vec![MoveOutcome::Moved]);
    // The moved file vanishes before rollback.
    fs.remove_file("/out/pdf/report.pdf");
    let rb = rollback_run(&out.journal, &mut fs, &vec![MoveOutcome::Moved]);
    assert_eq!(rb.rolled_back, 0);
    assert_eq!(rb.journal[0].status, "rollback_skipped");
    assert_eq!(rb.status, "rolled_back");
}

#[test]
fn test_empty_destination_is_skipped() {
    let mut fs = FsView::new();
    let sim = SimulationResult {
        items: vec![deskcraft::models::SimulationItem {
            file: pdf_file(),
            rule_id: "rule-1".to_string(),
            rule_name: "PDF bucket".to_string(),
            action_type: "tag".to_string(),
            destination: "".to_string(),
            conflict: false,
        }],
        total_files: 1,
        matched_files: 1,
        unmatched_files: 0,
    };
    let out = execute(&sim, "run-8", "suffix", &mut fs, &vec![MoveOutcome::Moved]);
    assert_eq!(out.result.skipped, 1);
    assert_eq!(out.journal[0].status, "skipped");
    assert_eq!(out.journal[0].destination_path, "");
}

#[test]
fn test_make_file_entry_lowercases_extension() {
    let entry = make_file_entry(
        "/in/Quarterly.Report.PDF",
        123,
        "2025-01-01 00:00:00".to_string(),
        "2025-01-02 00:00:00".to_string(),
    );
    assert_eq!(entry.name, "Quarterly.Report.PDF");
    assert_eq!(entry.extension, "pdf");
    assert_eq!(entry.size, 123);
    assert_eq!(entry.path, "/in/Quarterly.Report.PDF");
}

#[test]
fn test_desktop_clutter_below_threshold() {
    assert!(deskcraft::tips::check_desktop_clutter(10).is_none());
    assert!(deskcraft::tips::check_desktop_clutter(31).is_some());
}

#[test]
fn test_rollback_retry_after_failure() {
    let (rules, conditions, actions) = pdf_rule_setup();
    let mut fs = fs_with_input();
    let sim = simulate(&vec![pdf_file()], &rules, &conditions, &actions, &fs);
    let out = execute(&sim, "run-9", "suffix", &mut fs, &vec![MoveOutcome::Moved]);

    // The first rollback fails its move back: the entry stays
    // "completed" and the run is only partially rolled back.
    let first = rollback_run(
        &out.journal,
        &mut fs,
        &vec![MoveOutcome::MoveFailed("busy".to_string())],
    );
    assert_eq!(first.rolled_back, 0);
    assert_eq!(first.errors, 1);
    assert_eq!(first.status, "rollback_partial");
    assert_eq!(first.journal[0].status, "completed");

    // A second rollback over the updated journal retries the failure.
    let second = rollback_run(&first.journal, &mut fs, &vec![MoveOutcome::Moved]);
    assert_eq!(second.rolled_back, 1);
    assert_eq!(second.errors, 0);
    assert_eq!(second.status, "rolled_back");
    assert_eq!(second.journal[0].status, "rolled_back");
    assert!(fs.file_exists("/in/report.pdf"));
    assert!(!fs.file_exists("/out/pdf/report.pdf"));
}

#[test]
fn test_rollback_passes_through_rolled_entries() {
    let (rules, conditions, actions) = pdf_rule_setup();
    let mut fs = fs_with_input();
    let sim = simulate(&vec![pdf_file()], &rules, &conditions, &actions, &fs);
    let out = execute(&sim, "run-10", "suffix", &mut fs, &vec![MoveOutcome::Moved]);
    let first = rollback_run(&out.journal, &mut fs, &vec![MoveOutcome::Moved]);
    assert_eq!(first.journal[0].status, "rolled_back");

    // Rolling back again touches nothing.
    let second = rollback_run(&first.journal, &mut fs, &vec![MoveOutcome::Moved]);
    assert_eq!(second.rolled_back, 0);
    assert_eq!(second.errors, 0);
    assert_eq!(second.journal[0].status, "rolled_back");
    assert!(fs.file_exists("/in/report.pdf"));
}
