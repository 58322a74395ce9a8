use deskcraft::conditions::{evaluate_condition, evaluate_conditions};
use deskcraft::engine::{evaluate_rules, KeyedList};
use deskcraft::models::{FileEntry, Rule, RuleAction, RuleCondition};
use deskcraft::actions::resolve_action;
use deskcraft::template::expand_template;

fn make_file() -> FileEntry {
    FileEntry {
        path: "/home/user/downloads/report.pdf".to_string(),
        name: "report.pdf".to_string(),
        extension: "pdf".to_string(),
        size: 2048,
        created_at: "2025-06-15 10:30:00".to_string(),
        modified_at: "2025-06-15 12:00:00".to_string(),
    }
}

fn make_condition(field: &str, operator: &str, value: &str) -> RuleCondition {
    RuleCondition {
        id: "c1".to_string(),
        rule_id: "r1".to_string(),
        field: field.to_string(),
        operator: operator.to_string(),
        value: value.to_string(),
        logic_gate: "AND".to_string(),
        sort_order: 0,
        created_at: "".to_string(),
    }
}

#[test]
fn test_extension_equals() {
    let file = make_file();
    assert!(evaluate_condition(&file, &make_condition("extension", "equals", "pdf")));
    assert!(!evaluate_condition(&file, &make_condition("extension", "equals", "docx")));
}

#[test]
fn test_filename_contains() {
    let file = make_file();
    assert!(evaluate_condition(&file, &make_condition("filename", "contains", "report")));
}

#[test]
fn test_size_greater_than() {
    let file = make_file();
    assert!(evaluate_condition(&file, &make_condition("size", "greater_than", "1024")));
    assert!(!evaluate_condition(&file, &make_condition("size", "greater_than", "4096")));
}

#[test]
fn test_regex_match() {
    let file = make_file();
    assert!(evaluate_condition(&file, &make_condition("regex", "matches", r"^report\.\w+")));
    assert!(!evaluate_condition(&file, &make_condition("regex", "matches", r"^image\.\w+")));
}

#[test]
fn test_and_logic() {
    let file = make_file();
    let c1 = make_condition("extension", "equals", "pdf");
    let mut c2 = make_condition("size", "greater_than", "1024");
    c2.logic_gate = "AND".to_string();

    assert!(evaluate_conditions(&file, &vec![c1, c2]));
}

#[test]
fn test_or_logic() {
    let file = make_file();
    let c1 = make_condition("extension", "equals", "docx"); // false
    let mut c2 = make_condition("extension", "equals", "pdf"); // true
    c2.logic_gate = "OR".to_string();

    assert!(evaluate_conditions(&file, &vec![c1, c2]));
}

#[test]
fn test_case_insensitive_contains() {
    let mut file = make_file();
    file.name = "Quarterly-Report.PDF".to_string();
    assert!(evaluate_condition(&file, &make_condition("filename", "contains", "report")));
    assert!(evaluate_condition(&file, &make_condition("filename", "starts_with", "quarterly")));
    assert!(evaluate_condition(&file, &make_condition("filename", "ends_with", ".pdf")));
}

#[test]
fn test_decimal_comparison_exact() {
    let file = make_file();
    // 2048 > 2047.5 but not > 2048.0, and non-numeric values count as 0.
    assert!(evaluate_condition(&file, &make_condition("size", "greater_than", "2047.5")));
    assert!(!evaluate_condition(&file, &make_condition("size", "greater_than", "2048.0")));
    assert!(evaluate_condition(&file, &make_condition("size", "greater_than", "not-a-number")));
    assert!(evaluate_condition(&file, &make_condition("size", "less_than", "2048.0001")));
}

fn make_rule(id: &str, name: &str, enabled: bool) -> Rule {
    Rule {
        id: id.to_string(),
        name: name.to_string(),
        description: "".to_string(),
        is_enabled: enabled,
        priority: 0,
        sort_order: 0,
        created_at: "".to_string(),
        updated_at: "".to_string(),
    }
}

fn make_action(id: &str, rule_id: &str, action_type: &str, dest: &str, rename: &str) -> RuleAction {
    RuleAction {
        id: id.to_string(),
        rule_id: rule_id.to_string(),
        action_type: action_type.to_string(),
        destination: dest.to_string(),
        rename_pattern: rename.to_string(),
        tag_name: "".to_string(),
        sort_order: 0,
        created_at: "".to_string(),
    }
}

#[test]
fn test_no_rules_returns_none() {
    let file = FileEntry {
        path: "/test/test.txt".to_string(),
        name: "test.txt".to_string(),
        extension: "txt".to_string(),
        size: 100,
        created_at: "2025-01-01 00:00:00".to_string(),
        modified_at: "2025-01-01 00:00:00".to_string(),
    };
    let result = evaluate_rules(&file, &vec![], &KeyedList::new(), &KeyedList::new());
    assert!(result.is_none());
}

#[test]
fn test_matching_rule_returns_actions() {
    let file = FileEntry {
        path: "/test/report.pdf".to_string(),
        name: "report.pdf".to_string(),
        extension: "pdf".to_string(),
        size: 1024,
        created_at: "2025-01-01 00:00:00".to_string(),
        modified_at: "2025-01-01 00:00:00".to_string(),
    };

    let rule = make_rule("rule-1", "PDF Rule", true);

    let condition = RuleCondition {
        id: "cond-1".to_string(),
        rule_id: "rule-1".to_string(),
        field: "extension".to_string(),
        operator: "equals".to_string(),
        value: "pdf".to_string(),
        logic_gate: "AND".to_string(),
        sort_order: 0,
        created_at: "".to_string(),
    };

    let action = make_action("act-1", "rule-1", "move", "/documents/pdfs", "");

    let mut conditions = KeyedList::new();
    conditions.insert("rule-1".to_string(), vec![condition]);

    let mut actions = KeyedList::new();
    actions.insert("rule-1".to_string(), vec![action]);

    let result = evaluate_rules(&file, &vec![rule], &conditions, &actions);
    assert!(result.is_some());
    let (rule_id, rule_actions) = result.unwrap();
    assert_eq!(rule_id, "rule-1");
    assert_eq!(rule_actions.len(), 1);
}

#[test]
fn test_disabled_rule_never_fires() {
    let file = make_file();
    let rule = make_rule("rule-1", "Disabled", false);
    let mut conditions = KeyedList::new();
    conditions.insert("rule-1".to_string(), vec![make_condition("extension", "equals", "pdf")]);
    let mut actions = KeyedList::new();
    actions.insert(
        "rule-1".to_string(),
        vec![make_action("a1", "rule-1", "move", "/out", "")],
    );
    assert!(evaluate_rules(&file, &vec![rule], &conditions, &actions).is_none());
}

#[test]
fn test_move_action() {
    let file = FileEntry {
        path: "/downloads/report.pdf".to_string(),
        name: "report.pdf".to_string(),
        extension: "pdf".to_string(),
        size: 2048,
        created_at: "2025-06-15 10:30:00".to_string(),
        modified_at: "2025-06-15 10:30:00".to_string(),
    };
    let action = make_action("a1", "r1", "move", "/sorted/{extension}", "");

    let result = resolve_action(&file, &action).unwrap();
    assert_eq!(result, "/sorted/pdf/report.pdf");
}

#[test]
fn test_move_with_rename() {
    let file = FileEntry {
        path: "/downloads/report.pdf".to_string(),
        name: "report.pdf".to_string(),
        extension: "pdf".to_string(),
        size: 2048,
        created_at: "2025-06-15 10:30:00".to_string(),
        modified_at: "2025-06-15 10:30:00".to_string(),
    };
    let action = make_action(
        "a1",
        "r1",
        "move",
        "/archive/{year}/{month}",
        "{original}_{year}{month}{day}.{extension}",
    );

    let result = resolve_action(&file, &action).unwrap();
    assert_eq!(result, "/archive/2025/06/report_20250615.pdf");
}

#[test]
fn test_tag_action_returns_none() {
    let file = make_file();
    let mut action = make_action("a1", "r1", "tag", "", "");
    action.tag_name = "important".to_string();

    assert!(resolve_action(&file, &action).is_none());
}

#[test]
fn test_rename_action_keeps_directory() {
    let file = make_file();
    let action = make_action("a1", "r1", "rename", "", "{original}_copy.{extension}");
    let result = resolve_action(&file, &action).unwrap();
    assert_eq!(result, "/home/user/downloads/report_copy.pdf");
}

#[test]
fn test_template_expansion_idempotent_without_placeholders() {
    let file = make_file();
    let once = expand_template("plain/fixed/path.txt", &file);
    let twice = expand_template(&once, &file);
    assert_eq!(once, "plain/fixed/path.txt");
    assert_eq!(twice, once);
}

#[test]
fn test_template_counter_is_one() {
    let file = make_file();
    assert_eq!(expand_template("{original}_{counter}", &file), "report_1");
}

#[test]
fn test_template_bad_date_falls_back() {
    let mut file = make_file();
    file.modified_at = "garbage".to_string();
    assert_eq!(expand_template("{year}/{month}/{day}", &file), "0000/00/00");
}
