//! The simulator: a pure plan of what a run would do.
//!
//! Each file is matched against the rules; a matching file contributes
//! one simulation item per action of the winning rule, with the
//! resolved destination and a conflict flag read from the filesystem
//! view.  Nothing is moved.

use vstd::prelude::*;
use crate::actions::{resolve_action, spec_resolve_action};
use crate::engine::{evaluate_rules, spec_evaluate_rules, KeyedList};
use crate::models::{FileEntry, Rule, RuleAction, RuleCondition, SimulationItem, SimulationResult};
use crate::fsview::FsView;
use crate::text::str_eq;

verus! {

/// The destination string an action yields: the resolved path, or
/// empty when the action produces none.
pub open spec fn dest_of(file: FileEntry, action: RuleAction) -> Seq<char> {
    match spec_resolve_action(file, action) {
        Some(p) => p,
        None => Seq::<char>::empty(),
    }
}

/// The name of the first rule with this id, or empty.
pub open spec fn rule_name_of(rules: Seq<Rule>, id: Seq<char>) -> Seq<char>
    decreases rules.len(),
{
    if rules.len() == 0 {
        Seq::<char>::empty()
    } else if rules[0].id@ == id {
        rules[0].name@
    } else {
        rule_name_of(rules.skip(1), id)
    }
}

/// How many simulation items one file contributes.
pub open spec fn file_cost(
    file: FileEntry,
    rules: Seq<Rule>,
    conds: Seq<(String, Vec<RuleCondition>)>,
    acts: Seq<(String, Vec<RuleAction>)>,
) -> int {
    match spec_evaluate_rules(file, rules, conds, acts) {
        Some(sel) => sel.1.len() as int,
        None => 0,
    }
}

/// Total number of items the files up to a point contribute.
pub open spec fn items_count(
    files: Seq<FileEntry>,
    rules: Seq<Rule>,
    conds: Seq<(String, Vec<RuleCondition>)>,
    acts: Seq<(String, Vec<RuleAction>)>,
) -> int
    decreases files.len(),
{
    if files.len() == 0 {
        0
    } else {
        items_count(files.drop_last(), rules, conds, acts) + file_cost(
            files.last(),
            rules,
            conds,
            acts,
        )
    }
}

/// How many of the files match some rule.
pub open spec fn matched_count(
    files: Seq<FileEntry>,
    rules: Seq<Rule>,
    conds: Seq<(String, Vec<RuleCondition>)>,
    acts: Seq<(String, Vec<RuleAction>)>,
) -> int
    decreases files.len(),
{
    if files.len() == 0 {
        0
    } else {
        matched_count(files.drop_last(), rules, conds, acts) + (
        if spec_evaluate_rules(files.last(), rules, conds, acts) is Some {
            1int
        } else {
            0int
        })
    }
}

pub proof fn lemma_items_count_nonneg(
    files: Seq<FileEntry>,
    rules: Seq<Rule>,
    conds: Seq<(String, Vec<RuleCondition>)>,
    acts: Seq<(String, Vec<RuleAction>)>,
)
    ensures
        items_count(files, rules, conds, acts) >= 0,
    decreases files.len(),
{
    if files.len() > 0 {
        lemma_items_count_nonneg(files.drop_last(), rules, conds, acts);
    }
}

/// One more file adds that file's cost.
pub proof fn lemma_items_count_step(
    files: Seq<FileEntry>,
    k: int,
    rules: Seq<Rule>,
    conds: Seq<(String, Vec<RuleCondition>)>,
    acts: Seq<(String, Vec<RuleAction>)>,
)
    requires
        0 <= k < files.len(),
    ensures
        items_count(files.take(k + 1), rules, conds, acts) == items_count(
            files.take(k),
            rules,
            conds,
            acts,
        ) + file_cost(files[k], rules, conds, acts),
{
    assert(files.take(k + 1).drop_last() =~= files.take(k));
    assert(files.take(k + 1).last() == files[k]);
}

/// A longer prefix counts at least as many items.
pub proof fn lemma_items_count_mono(
    files: Seq<FileEntry>,
    j1: int,
    j2: int,
    rules: Seq<Rule>,
    conds: Seq<(String, Vec<RuleCondition>)>,
    acts: Seq<(String, Vec<RuleAction>)>,
)
    requires
        0 <= j1 <= j2 <= files.len(),
    ensures
        items_count(files.take(j1), rules, conds, acts) <= items_count(
            files.take(j2),
            rules,
            conds,
            acts,
        ),
    decreases j2 - j1,
{
    if j1 < j2 {
        lemma_items_count_step(files, j2 - 1, rules, conds, acts);
        lemma_items_count_mono(files, j1, j2 - 1, rules, conds, acts);
    }
}

/// The item recorded for action `a` of a matched file.
pub open spec fn sim_item_ok(
    item: SimulationItem,
    file: FileEntry,
    rules: Seq<Rule>,
    conds: Seq<(String, Vec<RuleCondition>)>,
    acts: Seq<(String, Vec<RuleAction>)>,
    fs: FsView,
    a: int,
) -> bool {
    let sel = spec_evaluate_rules(file, rules, conds, acts)->0;
    let action = sel.1[a];
    &&& item.file == file
    &&& item.rule_id@ == sel.0
    &&& item.rule_name@ == rule_name_of(rules, sel.0)
    &&& item.action_type@ == action.action_type@
    &&& item.destination@ == dest_of(file, action)
    &&& item.conflict == (dest_of(file, action).len() > 0 && fs.exists_at(dest_of(file, action)))
}

/// The name of the first rule with this id, or empty (executable).
fn find_rule_name(rules: &Vec<Rule>, id: &str) -> (r: String)
    ensures
        r@ == rule_name_of(rules@, id@),
{
    let n: usize = rules.len();
    proof {
        assert(rules@.skip(0) =~= rules@);
    }
    let mut i: usize = 0;
    while i < n
        invariant
            n == rules@.len(),
            i <= n,
            rule_name_of(rules@.skip(i as int), id@) == rule_name_of(rules@, id@),
        decreases n - i,
    {
        proof {
            assert(rules@.skip(i as int)[0] == rules@[i as int]);
            assert(rules@.skip(i as int).skip(1) =~= rules@.skip(i + 1));
        }
        if str_eq(rules[i].id.as_str(), id) {
            return rules[i].name.clone();
        }
        i = i + 1;
    }
    proof {
        assert(rules@.skip(n as int) =~= Seq::<Rule>::empty());
    }
    String::new()
}

/// Simulates file organization without moving anything: which rules
/// match which files, where each action would put them, and which
/// destinations already exist in the view.
pub fn simulate(
    files: &Vec<FileEntry>,
    rules: &Vec<Rule>,
    conditions: &KeyedList<Vec<RuleCondition>>,
    actions: &KeyedList<Vec<RuleAction>>,
    fs: &FsView,
) -> (r: SimulationResult)
    requires
        files@.len() <= u32::MAX,
    ensures
        r.total_files == files@.len(),
        r.matched_files == matched_count(files@, rules@, conditions.entries@, actions.entries@),
        r.matched_files + r.unmatched_files == r.total_files,
        r.items@.len() == items_count(files@, rules@, conditions.entries@, actions.entries@),
        forall|j: int, a: int|
            0 <= j < files@.len() && spec_evaluate_rules(
                files@[j],
                rules@,
                conditions.entries@,
                actions.entries@,
            ) is Some && 0 <= a < file_cost(files@[j], rules@, conditions.entries@, actions.entries@)
                ==> sim_item_ok(
                #[trigger] r.items@[items_count(
                    files@.take(j),
                    rules@,
                    conditions.entries@,
                    actions.entries@,
                ) + a],
                files@[j],
                rules@,
                conditions.entries@,
                actions.entries@,
                *fs,
                a,
            ),
{
    let ghost gr = rules@;
    let ghost gc = conditions.entries@;
    let ghost ga = actions.entries@;
    let mut items: Vec<SimulationItem> = Vec::new();
    let mut matched: u32 = 0;
    let mut unmatched: u32 = 0;
    let n: usize = files.len();
    proof {
        assert(files@.take(0) =~= Seq::<FileEntry>::empty());
    }
    let mut j: usize = 0;
    while j < n
        invariant
            n == files@.len() <= u32::MAX,
            j <= n,
            gr == rules@,
            gc == conditions.entries@,
            ga == actions.entries@,
            matched as int == matched_count(files@.take(j as int), gr, gc, ga),
            matched <= j,
            unmatched == j - matched,
            items@.len() == items_count(files@.take(j as int), gr, gc, ga),
            forall|j2: int, a: int|
                0 <= j2 < j && spec_evaluate_rules(files@[j2], gr, gc, ga) is Some && 0 <= a
                    < file_cost(files@[j2], gr, gc, ga) ==> sim_item_ok(
                    #[trigger] items@[items_count(files@.take(j2), gr, gc, ga) + a],
                    files@[j2],
                    gr,
                    gc,
                    ga,
                    *fs,
                    a,
                ),
        decreases n - j,
    {
        let ghost base = items_count(files@.take(j as int), gr, gc, ga);
        proof {
            assert(files@.take(j + 1).drop_last() =~= files@.take(j as int));
            assert(files@.take(j + 1).last() == files@[j as int]);
        }
        match evaluate_rules(&files[j], rules, conditions, actions) {
            Some(sel) => {
                let (rule_id, matched_actions) = sel;
                let rule_name = find_rule_name(rules, rule_id.as_str());
                let m: usize = matched_actions.len();
                let mut a: usize = 0;
                while a < m
                    invariant
                        gr == rules@,
                        gc == conditions.entries@,
                        ga == actions.entries@,
                        j < files@.len(),
                        m == matched_actions@.len(),
                        a <= m,
                        spec_evaluate_rules(files@[j as int], gr, gc, ga) == Some(
                            (rule_id@, matched_actions@),
                        ),
                        rule_name@ == rule_name_of(gr, rule_id@),
                        base == items_count(files@.take(j as int), gr, gc, ga),
                        items@.len() == base + a,
                        forall|j2: int, a2: int|
                            0 <= j2 < j && spec_evaluate_rules(files@[j2], gr, gc, ga) is Some && 0
                                <= a2 < file_cost(files@[j2], gr, gc, ga) ==> sim_item_ok(
                                #[trigger] items@[items_count(files@.take(j2), gr, gc, ga) + a2],
                                files@[j2],
                                gr,
                                gc,
                                ga,
                                *fs,
                                a2,
                            ),
                        forall|a2: int|
                            0 <= a2 < a ==> sim_item_ok(
                                #[trigger] items@[base + a2],
                                files@[j as int],
                                gr,
                                gc,
                                ga,
                                *fs,
                                a2,
                            ),
                    decreases m - a,
                {
                    let destination: String = match resolve_action(&files[j], &matched_actions[a]) {
                        Some(d) => d,
                        None => String::new(),
                    };
                    let conflict = if !destination.as_str().is_empty() {
                        fs.exists_path(destination.as_str())
                    } else {
                        false
                    };
                    let item = SimulationItem {
                        file: files[j].clone(),
                        rule_id: rule_id.clone(),
                        rule_name: rule_name.clone(),
                        action_type: matched_actions[a].action_type.clone(),
                        destination,
                        conflict,
                    };
                    let ghost prev = items@;
                    items.push(item);
                    proof {
                        assert forall|j2: int, a2: int|
                            0 <= j2 < j && spec_evaluate_rules(files@[j2], gr, gc, ga) is Some && 0
                                <= a2 < file_cost(files@[j2], gr, gc, ga) implies sim_item_ok(
                            #[trigger] items@[items_count(files@.take(j2), gr, gc, ga) + a2],
                            files@[j2],
                            gr,
                            gc,
                            ga,
                            *fs,
                            a2,
                        ) by {
                            lemma_items_count_nonneg(files@.take(j2), gr, gc, ga);
                            lemma_items_count_step(files@, j2, gr, gc, ga);
                            lemma_items_count_mono(files@, j2 + 1, j as int, gr, gc, ga);
                            assert(items@[items_count(files@.take(j2), gr, gc, ga) + a2]
                                == prev[items_count(files@.take(j2), gr, gc, ga) + a2]);
                        }
                        assert forall|a2: int| 0 <= a2 < a + 1 implies sim_item_ok(
                            #[trigger] items@[base + a2],
                            files@[j as int],
                            gr,
                            gc,
                            ga,
                            *fs,
                            a2,
                        ) by {
                            lemma_items_count_nonneg(files@.take(j as int), gr, gc, ga);
                            if a2 < a {
                                assert(items@[base + a2] == prev[base + a2]);
                            } else {
                                assert(items@[base + a2] == item);
                            }
                        }
                    }
                    a = a + 1;
                }
                matched = matched + 1;
            },
            None => {
                unmatched = unmatched + 1;
            },
        }
        j = j + 1;
    }
    proof {
        assert(files@.take(n as int) =~= files@);
    }
    SimulationResult {
        items,
        total_files: n as u32,
        matched_files: matched,
        unmatched_files: unmatched,
    }
}

} // verus!
