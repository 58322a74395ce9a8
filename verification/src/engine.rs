//! The rule engine: selects the first matching rule for a file.
//!
//! Rules arrive pre-sorted; the engine walks them in order, skips
//! disabled rules and rules without conditions, evaluates each remaining
//! rule's condition chain, and returns the first rule that both matches
//! and has at least one action.

use vstd::prelude::*;
use crate::conditions::{evaluate_conditions, spec_eval_conditions};
use crate::models::{clone_actions, FileEntry, Rule, RuleAction, RuleCondition};
use crate::text::str_eq;

verus! {

/// First value stored under `key`, scanning from the front.
pub open spec fn keyed_lookup<V>(entries: Seq<(String, V)>, key: Seq<char>) -> Option<V>
    decreases entries.len(),
{
    if entries.len() == 0 {
        None
    } else if entries[0].0@ == key {
        Some(entries[0].1)
    } else {
        keyed_lookup(entries.skip(1), key)
    }
}

/// A list of values keyed by rule id, standing in for a hash map; a
/// later `insert` of the same key shadows the earlier value.
pub struct KeyedList<V> {
    pub entries: Vec<(String, V)>,
}

impl<V> KeyedList<V> {
    pub open spec fn spec_get(&self, key: Seq<char>) -> Option<V> {
        keyed_lookup(self.entries@, key)
    }

    /// Creates an empty list.
    pub fn new() -> (r: Self)
        ensures
            r.entries@.len() == 0,
            forall|k: Seq<char>| #[trigger] r.spec_get(k) is None,
    {
        KeyedList { entries: Vec::new() }
    }

    /// Adds or replaces the value stored under `key`.
    pub fn insert(&mut self, key: String, value: V)
        ensures
            final(self).spec_get(key@) == Some(value),
            forall|k: Seq<char>|
                k != key@ ==> #[trigger] final(self).spec_get(k) == old(self).spec_get(k),
    {
        self.entries.insert(0, (key, value));
        proof {
            assert(self.entries@.skip(1) =~= old(self).entries@);
        }
    }

    /// Looks the key up.
    pub fn get(&self, key: &str) -> (r: Option<&V>)
        ensures
            match r {
                Some(v) => self.spec_get(key@) == Some(*v),
                None => self.spec_get(key@) is None,
            },
    {
        let n: usize = self.entries.len();
        proof {
            assert(self.entries@.skip(0) =~= self.entries@);
        }
        let mut i: usize = 0;
        while i < n
            invariant
                n == self.entries@.len(),
                i <= n,
                keyed_lookup(self.entries@.skip(i as int), key@) == keyed_lookup(
                    self.entries@,
                    key@,
                ),
        decreases n - i,
        {
            if str_eq(self.entries[i].0.as_str(), key) {
                proof {
                    assert(self.entries@.skip(i as int)[0] == self.entries@[i as int]);
                }
                return Some(&self.entries[i].1);
            }
            i = i + 1;
            proof {
                assert(self.entries@.skip(i - 1).skip(1) =~= self.entries@.skip(i as int));
                assert(self.entries@.skip(i - 1)[0] == self.entries@[i - 1]);
            }
        }
        proof {
            assert(self.entries@.skip(n as int) =~= Seq::<(String, V)>::empty());
        }
        None
    }
}

/// The rule and actions the engine selects, as the first enabled rule
/// with conditions whose chain holds and whose action list is not empty.
pub open spec fn spec_evaluate_rules(
    file: FileEntry,
    rules: Seq<Rule>,
    conds: Seq<(String, Vec<RuleCondition>)>,
    acts: Seq<(String, Vec<RuleAction>)>,
) -> Option<(Seq<char>, Seq<RuleAction>)>
    decreases rules.len(),
{
    if rules.len() == 0 {
        None
    } else {
        let rule = rules[0];
        let rest = spec_evaluate_rules(file, rules.skip(1), conds, acts);
        if !rule.is_enabled {
            rest
        } else {
            let rc = keyed_lookup(conds, rule.id@);
            if rc is None || rc->0@.len() == 0 {
                rest
            } else if !spec_eval_conditions(file, rc->0@) {
                rest
            } else {
                let ra = keyed_lookup(acts, rule.id@);
                if ra is Some && ra->0@.len() > 0 {
                    Some((rule.id@, ra->0@))
                } else {
                    rest
                }
            }
        }
    }
}

/// Evaluates all rules against a file and returns the first matching
/// rule's id along with its associated actions.
///
/// Rules are evaluated in order (they should be pre-sorted by
/// sort_order/priority).  Only enabled rules are considered; a rule
/// without conditions or without actions never fires.
pub fn evaluate_rules(
    file: &FileEntry,
    rules: &Vec<Rule>,
    conditions: &KeyedList<Vec<RuleCondition>>,
    actions: &KeyedList<Vec<RuleAction>>,
) -> (r: Option<(String, Vec<RuleAction>)>)
    ensures
        match r {
            Some(sel) => spec_evaluate_rules(
                *file,
                rules@,
                conditions.entries@,
                actions.entries@,
            ) == Some((sel.0@, sel.1@)),
            None => spec_evaluate_rules(*file, rules@, conditions.entries@, actions.entries@)
                is None,
        },
{
    let n: usize = rules.len();
    proof {
        assert(rules@.skip(0) =~= rules@);
    }
    let mut i: usize = 0;
    while i < n
        invariant
            n == rules@.len(),
            i <= n,
            spec_evaluate_rules(*file, rules@.skip(i as int), conditions.entries@, actions.entries@)
                == spec_evaluate_rules(*file, rules@, conditions.entries@, actions.entries@),
        decreases n - i,
    {
        let rule = &rules[i];
        proof {
            assert(rules@.skip(i as int)[0] == rules@[i as int]);
            assert(rules@.skip(i as int).skip(1) =~= rules@.skip(i + 1));
        }
        if rule.is_enabled {
            let rule_conditions = conditions.get(rule.id.as_str());
            match rule_conditions {
                Some(conds) if conds.len() > 0 => {
                    if evaluate_conditions(file, conds) {
                        match actions.get(rule.id.as_str()) {
                            Some(acts) if acts.len() > 0 => {
                                let out = clone_actions(acts);
                                return Some((rule.id.clone(), out));
                            },
                            _ => {
                                // A matching rule without actions is a
                                // non-match; keep looking.
                            },
                        }
                    }
                },
                _ => {
                    // A rule with no conditions matches nothing.
                },
            }
        }
        i = i + 1;
    }
    proof {
        assert(rules@.skip(n as int) =~= Seq::<Rule>::empty());
    }
    None
}

/// The rule engine is deterministic: evaluating the same file against
/// the same rules, conditions and actions always selects the same rule
/// and the same actions.
pub proof fn lemma_rule_engine_deterministic(
    file: FileEntry,
    rules: Seq<Rule>,
    conds: Seq<(String, Vec<RuleCondition>)>,
    acts: Seq<(String, Vec<RuleAction>)>,
    r1: Option<(Seq<char>, Seq<RuleAction>)>,
    r2: Option<(Seq<char>, Seq<RuleAction>)>,
)
    requires
        r1 == spec_evaluate_rules(file, rules, conds, acts),
        r2 == spec_evaluate_rules(file, rules, conds, acts),
    ensures
        r1 == r2,
{
}

} // verus!
