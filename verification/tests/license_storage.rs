use chrono::{Duration, Utc};
use deskcraft::datetime::parse_datetime;
use deskcraft::fingerprint::{compute_sha256, hardware_fingerprint};
use deskcraft::license::{generate_test_key, is_trial_active, trial_days_remaining, validate_key};
use deskcraft::rows::{
    action_to_row, condition_to_row, row_to_action, row_to_condition, row_to_rule, rule_to_row,
};
use deskcraft::storage::{base64_decode, base64_encode};

#[test]
fn test_invalid_key_format() {
    assert!(!validate_key("invalid"));
    assert!(!validate_key("DKCRFT-123"));
    assert!(!validate_key(""));
}

#[test]
fn test_valid_generated_key() {
    let key = generate_test_key("AAAAA", "BBBBB", "CCCCC");
    assert!(validate_key(&key));
}

#[test]
fn test_tampered_key_rejected() {
    let key = generate_test_key("AAAAA", "BBBBB", "CCCCC");
    let tampered = key.replace("AAAAA", "AAAAB");
    assert!(!validate_key(&tampered));
}

#[test]
fn test_trial_active() {
    let started = Utc::now().naive_utc().format("%Y-%m-%d %H:%M:%S").to_string();
    let now_str = Utc::now().naive_utc().format("%Y-%m-%d %H:%M:%S").to_string();
    let now = parse_datetime(&now_str).expect("clock format");
    assert!(is_trial_active(&started, &now));
}

#[test]
fn test_trial_expired() {
    let past = Utc::now().naive_utc() - Duration::days(15);
    let started = past.format("%Y-%m-%d %H:%M:%S").to_string();
    let now_str = Utc::now().naive_utc().format("%Y-%m-%d %H:%M:%S").to_string();
    let now = parse_datetime(&now_str).expect("clock format");
    assert!(!is_trial_active(&started, &now));
}

#[test]
fn test_trial_empty() {
    let now = parse_datetime("2026-02-14 09:00:00").unwrap();
    assert!(!is_trial_active("", &now));
}

#[test]
fn test_trial_days_remaining_counts_down() {
    let now = parse_datetime("2026-02-14 09:00:00").unwrap();
    assert_eq!(trial_days_remaining("2026-02-14 09:00:00", &now), 14);
    assert_eq!(trial_days_remaining("2026-02-10 09:00:00", &now), 10);
    assert_eq!(trial_days_remaining("2026-01-01 09:00:00", &now), 0);
    assert_eq!(trial_days_remaining("", &now), 0);
}

#[test]
fn test_base64_roundtrip() {
    let original = b"hello world test data";
    let encoded = base64_encode(&original.to_vec());
    let decoded = base64_decode(&encoded).unwrap();
    assert_eq!(decoded, original);
}

#[test]
fn test_base64_known_values() {
    assert_eq!(base64_encode(&b"M".to_vec()), "TQ==");
    assert_eq!(base64_encode(&b"Ma".to_vec()), "TWE=");
    assert_eq!(base64_encode(&b"Man".to_vec()), "TWFu");
    assert_eq!(base64_decode("TWFu").unwrap(), b"Man");
    assert!(base64_decode("").is_none());
    assert!(base64_decode("@@@@").is_none());
}

#[test]
fn test_sha256_deterministic() {
    let h1 = compute_sha256("test input");
    let h2 = compute_sha256("test input");
    assert_eq!(h1, h2);
    assert_eq!(h1.len(), 64);
}

#[test]
fn test_sha256_known_digest() {
    assert_eq!(
        compute_sha256("abc"),
        "BA7816BF8F01CFEA414140DE5DAE2223B00361A396177A9CB410FF61F20015AD"
    );
}

#[test]
fn test_fingerprint_not_empty() {
    let id = hardware_fingerprint("cpu-123", "board-456", "host");
    assert_eq!(id.len(), 64);
    let fallback = hardware_fingerprint("", "", "somehost");
    assert_eq!(fallback.len(), 64);
    assert_ne!(id, fallback);
}

#[test]
fn test_rule_row_roundtrip() {
    let rule = deskcraft::models::Rule {
        id: "r1".to_string(),
        name: "Rule".to_string(),
        description: "desc".to_string(),
        is_enabled: true,
        priority: -3,
        sort_order: 7,
        created_at: "2025-01-01 00:00:00".to_string(),
        updated_at: "2025-01-02 00:00:00".to_string(),
    };
    let back = row_to_rule(&rule_to_row(&rule)).expect("in range");
    assert_eq!(back.id, rule.id);
    assert_eq!(back.name, rule.name);
    assert_eq!(back.description, rule.description);
    assert_eq!(back.is_enabled, rule.is_enabled);
    assert_eq!(back.priority, rule.priority);
    assert_eq!(back.sort_order, rule.sort_order);
    assert_eq!(back.created_at, rule.created_at);
    assert_eq!(back.updated_at, rule.updated_at);
}

#[test]
fn test_condition_row_roundtrip() {
    let cond = deskcraft::models::RuleCondition {
        id: "c1".to_string(),
        rule_id: "r1".to_string(),
        field: "extension".to_string(),
        operator: "equals".to_string(),
        value: "pdf".to_string(),
        logic_gate: "OR".to_string(),
        sort_order: 2,
        created_at: "".to_string(),
    };
    let back = row_to_condition(&condition_to_row(&cond)).expect("in range");
    assert_eq!(back.field, cond.field);
    assert_eq!(back.operator, cond.operator);
    assert_eq!(back.value, cond.value);
    assert_eq!(back.logic_gate, cond.logic_gate);
    assert_eq!(back.sort_order, cond.sort_order);
}

#[test]
fn test_action_row_roundtrip() {
    let action = deskcraft::models::RuleAction {
        id: "a1".to_string(),
        rule_id: "r1".to_string(),
        action_type: "move".to_string(),
        destination: "/out/{extension}".to_string(),
        rename_pattern: "{original}.{extension}".to_string(),
        tag_name: "".to_string(),
        sort_order: 0,
        created_at: "".to_string(),
    };
    let back = row_to_action(&action_to_row(&action)).expect("in range");
    assert_eq!(back.action_type, action.action_type);
    assert_eq!(back.destination, action.destination);
    assert_eq!(back.rename_pattern, action.rename_pattern);
    assert_eq!(back.tag_name, action.tag_name);
    assert_eq!(back.sort_order, action.sort_order);
}

#[test]
fn test_accepted_tip_not_shown() {
    let tip = deskcraft::tips::TipSuggestion {
        id: "tip_desktop_clutter".to_string(),
        title: "Test".to_string(),
        message: "Test".to_string(),
        action_label: "Fix".to_string(),
        action_type: "organize".to_string(),
    };

    let state = deskcraft::models::TipState {
        id: "tip_desktop_clutter".to_string(),
        times_shown: 1,
        last_shown_at: None,
        accepted: true,
        dismissed: false,
        dismissed_at: None,
        cooldown_until: None,
        created_at: "".to_string(),
        updated_at: "".to_string(),
    };

    let now = parse_datetime("2026-02-14 09:00:00").unwrap();
    assert!(!deskcraft::tips::should_show_tip(&tip, &vec![state], &now));
}

#[test]
fn test_new_tip_shown() {
    let tip = deskcraft::tips::TipSuggestion {
        id: "tip_new".to_string(),
        title: "Test".to_string(),
        message: "Test".to_string(),
        action_label: "Fix".to_string(),
        action_type: "organize".to_string(),
    };

    let now = parse_datetime("2026-02-14 09:00:00").unwrap();
    assert!(deskcraft::tips::should_show_tip(&tip, &vec![], &now));
}

#[test]
fn test_dismissed_tip_respects_cooldown() {
    let tip = deskcraft::tips::TipSuggestion {
        id: "tip_x".to_string(),
        title: "t".to_string(),
        message: "m".to_string(),
        action_label: "a".to_string(),
        action_type: "y".to_string(),
    };
    let mut state = deskcraft::models::TipState {
        id: "tip_x".to_string(),
        times_shown: 1,
        last_shown_at: None,
        accepted: false,
        dismissed: true,
        dismissed_at: None,
        cooldown_until: Some("2026-03-01 00:00:00".to_string()),
        created_at: "".to_string(),
        updated_at: "".to_string(),
    };
    let before = parse_datetime("2026-02-14 09:00:00").unwrap();
    let after = parse_datetime("2026-03-02 09:00:00").unwrap();
    assert!(!deskcraft::tips::should_show_tip(&tip, &vec![state.clone()], &before));
    assert!(deskcraft::tips::should_show_tip(&tip, &vec![state.clone()], &after));
    state.cooldown_until = None;
    assert!(!deskcraft::tips::should_show_tip(&tip, &vec![state], &after));
}

#[test]
fn test_evaluate_tips_filters_accepted() {
    let now = parse_datetime("2026-02-14 09:00:00").unwrap();
    let all = deskcraft::tips::evaluate_tips(40, 0, 0, &vec![], &now);
    assert_eq!(all.len(), 1);
    assert_eq!(all[0].id, "tip_desktop_clutter");

    let accepted = deskcraft::models::TipState {
        id: "tip_desktop_clutter".to_string(),
        times_shown: 1,
        last_shown_at: None,
        accepted: true,
        dismissed: false,
        dismissed_at: None,
        cooldown_until: None,
        created_at: "".to_string(),
        updated_at: "".to_string(),
    };
    let filtered = deskcraft::tips::evaluate_tips(40, 0, 0, &vec![accepted], &now);
    assert_eq!(filtered.len(), 0);
}

#[test]
fn test_gather_heuristics_order() {
    let tips = deskcraft::tips::gather_heuristics(40, 20, 9);
    assert_eq!(tips.len(), 3);
    assert_eq!(tips[0].id, "tip_desktop_clutter");
    assert_eq!(tips[1].id, "tip_pdf_accumulation");
    assert_eq!(tips[2].id, "tip_installer_pileup");
    assert!(tips[0].message.contains("40"));
}
