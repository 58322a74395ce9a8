//! The condition evaluator: one typed predicate against one file.
//!
//! A condition names a field of the file record, an operator and a
//! comparison value.  String comparisons are case-insensitive; numeric
//! comparisons go through exact decimal parsing with non-numeric strings
//! counting as 0; `matches` compiles the value as a regular expression
//! and a compilation failure evaluates to false.

use vstd::prelude::*;
use crate::models::{FileEntry, RuleCondition};
use crate::numeric::{compare_decimal, dec_lt, u64_digits, u64_to_chars};
use crate::pathutil::{parent_chars, parent_of};
use crate::text::{
    chars_is, chars_to_string, contains_chars, contains_seq, ends_with_chars, ends_with_seq,
    eq_ignore_ascii_case, eq_ignore_case, starts_with_chars, starts_with_seq, str_to_chars,
};
use crate::trusted::{lower_of, regex_is_match, regex_match_of, to_lowercase};

verus! {

/// The string a field of the file record compares as.  Unknown fields
/// fall back to the file name, as does `regex`.
pub open spec fn field_value_of(file: FileEntry, field: Seq<char>) -> Seq<char> {
    if field == "extension"@ {
        file.extension@
    } else if field == "filename"@ || field == "name"@ {
        file.name@
    } else if field == "size"@ {
        u64_digits(file.size as int)
    } else if field == "created_date"@ || field == "created_at"@ {
        file.created_at@
    } else if field == "modified_date"@ || field == "modified_at"@ {
        file.modified_at@
    } else if field == "source_folder"@ || field == "path"@ {
        parent_of(file.path@)
    } else {
        file.name@
    }
}

/// Extracts the value of a field from a file entry for comparison.
pub fn get_field_value(file: &FileEntry, field: &str) -> (r: String)
    ensures
        r@ == field_value_of(*file, field@),
{
    let f = str_to_chars(field);
    let chars: Vec<char> = if chars_is(&f, "extension") {
        str_to_chars(file.extension.as_str())
    } else if chars_is(&f, "filename") || chars_is(&f, "name") {
        str_to_chars(file.name.as_str())
    } else if chars_is(&f, "size") {
        u64_to_chars(file.size)
    } else if chars_is(&f, "created_date") || chars_is(&f, "created_at") {
        str_to_chars(file.created_at.as_str())
    } else if chars_is(&f, "modified_date") || chars_is(&f, "modified_at") {
        str_to_chars(file.modified_at.as_str())
    } else if chars_is(&f, "source_folder") || chars_is(&f, "path") {
        let p = str_to_chars(file.path.as_str());
        parent_chars(&p)
    } else {
        str_to_chars(file.name.as_str())
    };
    chars_to_string(&chars)
}

/// What one condition evaluates to against one file.
pub open spec fn spec_eval_condition(file: FileEntry, cond: RuleCondition) -> bool {
    let fv = field_value_of(file, cond.field@);
    let cv = cond.value@;
    let op = cond.operator@;
    if op == "equals"@ {
        eq_ignore_case(fv, cv)
    } else if op == "not_equals"@ {
        !eq_ignore_case(fv, cv)
    } else if op == "contains"@ {
        contains_seq(lower_of(fv), lower_of(cv))
    } else if op == "not_contains"@ {
        !contains_seq(lower_of(fv), lower_of(cv))
    } else if op == "starts_with"@ {
        starts_with_seq(lower_of(fv), lower_of(cv))
    } else if op == "ends_with"@ {
        ends_with_seq(lower_of(fv), lower_of(cv))
    } else if op == "greater_than"@ {
        dec_lt(cv, fv)
    } else if op == "less_than"@ {
        dec_lt(fv, cv)
    } else if op == "matches"@ {
        regex_match_of(cv, fv)
    } else {
        false
    }
}

/// Evaluates a single condition against a file entry.
pub fn evaluate_condition(file: &FileEntry, condition: &RuleCondition) -> (r: bool)
    ensures
        r == spec_eval_condition(*file, *condition),
{
    let fv = get_field_value(file, condition.field.as_str());
    let op = str_to_chars(condition.operator.as_str());
    let fvc = str_to_chars(fv.as_str());
    let cvc = str_to_chars(condition.value.as_str());
    if chars_is(&op, "equals") {
        eq_ignore_ascii_case(&fvc, &cvc)
    } else if chars_is(&op, "not_equals") {
        !eq_ignore_ascii_case(&fvc, &cvc)
    } else if chars_is(&op, "contains") {
        let lf = to_lowercase(fv.as_str());
        let lc = to_lowercase(condition.value.as_str());
        contains_chars(&str_to_chars(lf.as_str()), &str_to_chars(lc.as_str()))
    } else if chars_is(&op, "not_contains") {
        let lf = to_lowercase(fv.as_str());
        let lc = to_lowercase(condition.value.as_str());
        !contains_chars(&str_to_chars(lf.as_str()), &str_to_chars(lc.as_str()))
    } else if chars_is(&op, "starts_with") {
        let lf = to_lowercase(fv.as_str());
        let lc = to_lowercase(condition.value.as_str());
        starts_with_chars(&str_to_chars(lf.as_str()), &str_to_chars(lc.as_str()))
    } else if chars_is(&op, "ends_with") {
        let lf = to_lowercase(fv.as_str());
        let lc = to_lowercase(condition.value.as_str());
        ends_with_chars(&str_to_chars(lf.as_str()), &str_to_chars(lc.as_str()))
    } else if chars_is(&op, "greater_than") {
        compare_decimal(&fvc, &cvc) == 1
    } else if chars_is(&op, "less_than") {
        compare_decimal(&fvc, &cvc) == -1
    } else if chars_is(&op, "matches") {
        regex_is_match(condition.value.as_str(), fv.as_str())
    } else {
        false
    }
}

/// Whether a condition chains with OR (ASCII case-insensitively);
/// anything else combines with AND.
pub open spec fn gate_is_or(cond: RuleCondition) -> bool {
    eq_ignore_case(cond.logic_gate@, "or"@)
}

/// The value of a non-empty condition chain, combined left to right by
/// each condition's own logic gate; the first gate is ignored.
pub open spec fn spec_eval_chain(file: FileEntry, conds: Seq<RuleCondition>) -> bool
    decreases conds.len(),
{
    if conds.len() <= 1 {
        conds.len() == 1 && spec_eval_condition(file, conds[0])
    } else {
        let prev = spec_eval_chain(file, conds.drop_last());
        let cur = spec_eval_condition(file, conds.last());
        if gate_is_or(conds.last()) {
            prev || cur
        } else {
            prev && cur
        }
    }
}

/// An empty list matches nothing; otherwise the chain value.
pub open spec fn spec_eval_conditions(file: FileEntry, conds: Seq<RuleCondition>) -> bool {
    conds.len() > 0 && spec_eval_chain(file, conds)
}

/// Evaluates multiple conditions with AND/OR logic gates.
///
/// The first condition's `logic_gate` is ignored (it is implicitly the
/// start); every later condition combines with the running result
/// according to its own gate.
pub fn evaluate_conditions(file: &FileEntry, conditions: &Vec<RuleCondition>) -> (r: bool)
    ensures
        r == spec_eval_conditions(*file, conditions@),
{
    if conditions.len() == 0 {
        return false;
    }
    let mut result = evaluate_condition(file, &conditions[0]);
    proof {
        assert(conditions@.take(1).drop_last() =~= Seq::<RuleCondition>::empty());
        assert(conditions@.take(1)[0] == conditions@[0]);
    }
    let mut i: usize = 1;
    while i < conditions.len()
        invariant
            1 <= i <= conditions@.len(),
            result == spec_eval_chain(*file, conditions@.take(i as int)),
        decreases conditions@.len() - i,
    {
        let cur = evaluate_condition(file, &conditions[i]);
        let gate = str_to_chars(conditions[i].logic_gate.as_str());
        let or_lit = str_to_chars("or");
        let is_or = eq_ignore_ascii_case(&gate, &or_lit);
        proof {
            assert(conditions@.take(i + 1).drop_last() =~= conditions@.take(i as int));
            assert(conditions@.take(i + 1).last() == conditions@[i as int]);
        }
        if is_or {
            result = result || cur;
        } else {
            result = result && cur;
        }
        i = i + 1;
    }
    proof {
        assert(conditions@.take(conditions@.len() as int) =~= conditions@);
    }
    result
}

} // verus!
