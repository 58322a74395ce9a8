//! The persistence rows for rules, conditions and actions: the typed
//! values bound to the database columns, with booleans as 0/1 integers
//! and 32-bit integers widened to the storage integer.
//!
//! Writing a record and reading it back goes through these codecs, and
//! the round trip returns the record unchanged.

use vstd::prelude::*;
use crate::models::{Rule, RuleAction, RuleCondition};

verus! {

/// The columns of a `rules` row.
pub struct RuleRow {
    pub id: String,
    pub name: String,
    pub description: String,
    pub is_enabled: i64,
    pub priority: i64,
    pub sort_order: i64,
    pub created_at: String,
    pub updated_at: String,
}

/// The row a rule is stored as.
pub open spec fn spec_rule_to_row(r: Rule) -> RuleRow {
    RuleRow {
        id: r.id,
        name: r.name,
        description: r.description,
        is_enabled: if r.is_enabled {
            1
        } else {
            0
        },
        priority: r.priority as i64,
        sort_order: r.sort_order as i64,
        created_at: r.created_at,
        updated_at: r.updated_at,
    }
}

/// The rule a row reads back as; out-of-range integers are refused.
pub open spec fn spec_row_to_rule(row: RuleRow) -> Option<Rule> {
    if i32::MIN <= row.priority <= i32::MAX && i32::MIN <= row.sort_order <= i32::MAX {
        Some(
            Rule {
                id: row.id,
                name: row.name,
                description: row.description,
                is_enabled: row.is_enabled != 0,
                priority: row.priority as i32,
                sort_order: row.sort_order as i32,
                created_at: row.created_at,
                updated_at: row.updated_at,
            },
        )
    } else {
        None
    }
}

pub fn rule_to_row(r: &Rule) -> (row: RuleRow)
    ensures
        row == spec_rule_to_row(*r),
{
    RuleRow {
        id: r.id.clone(),
        name: r.name.clone(),
        description: r.description.clone(),
        is_enabled: if r.is_enabled {
            1
        } else {
            0
        },
        priority: r.priority as i64,
        sort_order: r.sort_order as i64,
        created_at: r.created_at.clone(),
        updated_at: r.updated_at.clone(),
    }
}

pub fn row_to_rule(row: &RuleRow) -> (r: Option<Rule>)
    ensures
        match r {
            Some(rule) => spec_row_to_rule(*row) == Some(rule),
            None => spec_row_to_rule(*row) is None,
        },
{
    if i32::MIN as i64 <= row.priority && row.priority <= i32::MAX as i64 && i32::MIN as i64
        <= row.sort_order && row.sort_order <= i32::MAX as i64 {
        Some(
            Rule {
                id: row.id.clone(),
                name: row.name.clone(),
                description: row.description.clone(),
                is_enabled: row.is_enabled != 0,
                priority: row.priority as i32,
                sort_order: row.sort_order as i32,
                created_at: row.created_at.clone(),
                updated_at: row.updated_at.clone(),
            },
        )
    } else {
        None
    }
}

/// Persisting a rule and reading it back yields identical field
/// values.
pub proof fn lemma_rule_row_roundtrip(r: Rule)
    ensures
        spec_row_to_rule(spec_rule_to_row(r)) == Some(r),
{
}

/// The columns of a `rule_conditions` row.
pub struct ConditionRow {
    pub id: String,
    pub rule_id: String,
    pub field: String,
    pub operator: String,
    pub value: String,
    pub logic_gate: String,
    pub sort_order: i64,
    pub created_at: String,
}

pub open spec fn spec_condition_to_row(c: RuleCondition) -> ConditionRow {
    ConditionRow {
        id: c.id,
        rule_id: c.rule_id,
        field: c.field,
        operator: c.operator,
        value: c.value,
        logic_gate: c.logic_gate,
        sort_order: c.sort_order as i64,
        created_at: c.created_at,
    }
}

pub open spec fn spec_row_to_condition(row: ConditionRow) -> Option<RuleCondition> {
    if i32::MIN <= row.sort_order <= i32::MAX {
        Some(
            RuleCondition {
                id: row.id,
                rule_id: row.rule_id,
                field: row.field,
                operator: row.operator,
                value: row.value,
                logic_gate: row.logic_gate,
                sort_order: row.sort_order as i32,
                created_at: row.created_at,
            },
        )
    } else {
        None
    }
}

pub fn condition_to_row(c: &RuleCondition) -> (row: ConditionRow)
    ensures
        row == spec_condition_to_row(*c),
{
    ConditionRow {
        id: c.id.clone(),
        rule_id: c.rule_id.clone(),
        field: c.field.clone(),
        operator: c.operator.clone(),
        value: c.value.clone(),
        logic_gate: c.logic_gate.clone(),
        sort_order: c.sort_order as i64,
        created_at: c.created_at.clone(),
    }
}

pub fn row_to_condition(row: &ConditionRow) -> (r: Option<RuleCondition>)
    ensures
        match r {
            Some(c) => spec_row_to_condition(*row) == Some(c),
            None => spec_row_to_condition(*row) is None,
        },
{
    if i32::MIN as i64 <= row.sort_order && row.sort_order <= i32::MAX as i64 {
        Some(
            RuleCondition {
                id: row.id.clone(),
                rule_id: row.rule_id.clone(),
                field: row.field.clone(),
                operator: row.operator.clone(),
                value: row.value.clone(),
                logic_gate: row.logic_gate.clone(),
                sort_order: row.sort_order as i32,
                created_at: row.created_at.clone(),
            },
        )
    } else {
        None
    }
}

/// Persisting a condition and reading it back yields identical field
/// values.
pub proof fn lemma_condition_row_roundtrip(c: RuleCondition)
    ensures
        spec_row_to_condition(spec_condition_to_row(c)) == Some(c),
{
}

/// The columns of a `rule_actions` row.
pub struct ActionRow {
    pub id: String,
    pub rule_id: String,
    pub action_type: String,
    pub destination: String,
    pub rename_pattern: String,
    pub tag_name: String,
    pub sort_order: i64,
    pub created_at: String,
}

pub open spec fn spec_action_to_row(a: RuleAction) -> ActionRow {
    ActionRow {
        id: a.id,
        rule_id: a.rule_id,
        action_type: a.action_type,
        destination: a.destination,
        rename_pattern: a.rename_pattern,
        tag_name: a.tag_name,
        sort_order: a.sort_order as i64,
        created_at: a.created_at,
    }
}

pub open spec fn spec_row_to_action(row: ActionRow) -> Option<RuleAction> {
    if i32::MIN <= row.sort_order <= i32::MAX {
        Some(
            RuleAction {
                id: row.id,
                rule_id: row.rule_id,
                action_type: row.action_type,
                destination: row.destination,
                rename_pattern: row.rename_pattern,
                tag_name: row.tag_name,
                sort_order: row.sort_order as i32,
                created_at: row.created_at,
            },
        )
    } else {
        None
    }
}

pub fn action_to_row(a: &RuleAction) -> (row: ActionRow)
    ensures
        row == spec_action_to_row(*a),
{
    ActionRow {
        id: a.id.clone(),
        rule_id: a.rule_id.clone(),
        action_type: a.action_type.clone(),
        destination: a.destination.clone(),
        rename_pattern: a.rename_pattern.clone(),
        tag_name: a.tag_name.clone(),
        sort_order: a.sort_order as i64,
        created_at: a.created_at.clone(),
    }
}

pub fn row_to_action(row: &ActionRow) -> (r: Option<RuleAction>)
    ensures
        match r {
            Some(a) => spec_row_to_action(*row) == Some(a),
            None => spec_row_to_action(*row) is None,
        },
{
    if i32::MIN as i64 <= row.sort_order && row.sort_order <= i32::MAX as i64 {
        Some(
            RuleAction {
                id: row.id.clone(),
                rule_id: row.rule_id.clone(),
                action_type: row.action_type.clone(),
                destination: row.destination.clone(),
                rename_pattern: row.rename_pattern.clone(),
                tag_name: row.tag_name.clone(),
                sort_order: row.sort_order as i32,
                created_at: row.created_at.clone(),
            },
        )
    } else {
        None
    }
}

/// Persisting an action and reading it back yields identical field
/// values.
pub proof fn lemma_action_row_roundtrip(a: RuleAction)
    ensures
        spec_row_to_action(spec_action_to_row(a)) == Some(a),
{
}

} // verus!
