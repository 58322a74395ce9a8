//! The executor: applies a simulation, journaling every outcome.
//!
//! The executor works against the [`FsView`] model and a vector of
//! per-item move outcomes reported by the caller, who performs the real
//! renames.  Exactly one journal entry is written per simulation item;
//! the run header status and counts are derived from the journal, and
//! the view after the call reflects exactly the completed moves.

use vstd::prelude::*;
use crate::conflict::{resolve_conflict, spec_resolve_conflict};
use crate::fsview::FsView;
use crate::models::{ExecutionResult, RunItem, SimulationItem, SimulationResult};
use crate::pathutil::{is_sep, join_chars, join_of, parent_chars, parent_of};
use crate::text::{chars_to_string, str_eq, str_to_chars};

verus! {

broadcast use vstd::string::group_string_axioms;

/// What the caller's filesystem reported for one attempted move.
pub enum MoveOutcome {
    /// Parent directories were created and the file was moved.
    Moved,
    /// Creating the destination's parent directories failed.
    DirFailed(String),
    /// Directories were created but the move itself failed.
    MoveFailed(String),
}

/// The decision the executor takes for one simulation item.
pub enum StepPlan {
    /// The item has no destination; journal it as skipped.
    SkipEmpty,
    /// Skip strategy with an occupied destination; journal as skipped.
    SkipConflict(String),
    /// Move the file to this resolved destination.
    AttemptMove(String),
}

/// The destination with the file name appended when it names a known
/// directory or ends in a separator.
pub open spec fn effective_dest(item: SimulationItem, fs: FsView) -> Seq<char> {
    let d = item.destination@;
    if fs.has_dir(d) || (d.len() > 0 && is_sep(d.last())) {
        join_of(d, item.file.name@)
    } else {
        d
    }
}

/// The destination after conflict resolution, when the effective one is
/// already taken.
pub open spec fn planned_dest(item: SimulationItem, strategy: Seq<char>, fs: FsView) -> Seq<
    char,
> {
    let e = effective_dest(item, fs);
    if fs.exists_at(e) {
        spec_resolve_conflict(e, strategy, fs)
    } else {
        e
    }
}

// ── The per-item step relation ────────────────────────────────────────

/// The two views hold the same files.
pub open spec fn files_unchanged(v: FsView, v2: FsView) -> bool {
    forall|p: Seq<char>| #[trigger] v2.has_file(p) == v.has_file(p)
}

/// The two views hold the same directories.
pub open spec fn dirs_unchanged(v: FsView, v2: FsView) -> bool {
    forall|p: Seq<char>| #[trigger] v2.has_dir(p) == v.has_dir(p)
}

/// The second view has exactly the first's directories plus `d`.
pub open spec fn dirs_plus(v: FsView, v2: FsView, d: Seq<char>) -> bool {
    forall|p: Seq<char>| #[trigger] v2.has_dir(p) == (v.has_dir(p) || p == d)
}

/// The second view's files are the first's with `src` moved to `dst`.
pub open spec fn files_moved(v: FsView, v2: FsView, src: Seq<char>, dst: Seq<char>) -> bool {
    forall|p: Seq<char>|
        #[trigger] v2.has_file(p) == (
        if p == dst {
            true
        } else if p == src {
            false
        } else {
            v.has_file(p)
        })
}

/// How one simulation item is journaled and how it changes the view:
/// the entry's status and recorded destination, and the next view,
/// follow from the item's plan against the current view and from the
/// reported outcome.
pub open spec fn step_ok(
    item: SimulationItem,
    strategy: Seq<char>,
    outcome: MoveOutcome,
    v: FsView,
    v2: FsView,
    e: RunItem,
) -> bool {
    let eff = effective_dest(item, v);
    let planned = planned_dest(item, strategy, v);
    if item.destination@.len() == 0 {
        // No destination: journaled skipped, nothing touched.
        &&& e.status@ == "skipped"@
        &&& e.destination_path@.len() == 0
        &&& files_unchanged(v, v2)
        &&& dirs_unchanged(v, v2)
    } else if strategy == "skip"@ && v.exists_at(eff) {
        // Skip strategy with an occupied destination.
        &&& e.status@ == "skipped"@
        &&& e.destination_path@ == eff
        &&& files_unchanged(v, v2)
        &&& dirs_unchanged(v, v2)
    } else {
        // A move to the resolved destination is attempted.
        &&& e.destination_path@ == planned
        &&& match outcome {
            MoveOutcome::DirFailed(_) => {
                &&& e.status@ == "error"@
                &&& files_unchanged(v, v2)
                &&& dirs_unchanged(v, v2)
            },
            MoveOutcome::MoveFailed(_) => {
                &&& e.status@ == "error"@
                &&& files_unchanged(v, v2)
                &&& dirs_plus(v, v2, parent_of(planned))
            },
            MoveOutcome::Moved => {
                if v.has_file(item.file.path@) {
                    &&& e.status@ == "completed"@
                    &&& files_moved(v, v2, item.file.path@, planned)
                    &&& dirs_plus(v, v2, parent_of(planned))
                } else {
                    &&& e.status@ == "error"@
                    &&& files_unchanged(v, v2)
                    &&& dirs_plus(v, v2, parent_of(planned))
                }
            },
        }
    }
}

/// Decides what to do for one simulation item, against the current
/// view; the caller then performs the decided move, if any.
pub fn execute_step(item: &SimulationItem, strategy: &str, fs: &FsView) -> (r: StepPlan)
    ensures
        match r {
            StepPlan::SkipEmpty => item.destination@.len() == 0,
            StepPlan::SkipConflict(d) => {
                &&& item.destination@.len() > 0
                &&& strategy@ == "skip"@
                &&& fs.exists_at(effective_dest(*item, *fs))
                &&& d@ == effective_dest(*item, *fs)
            },
            StepPlan::AttemptMove(d) => {
                &&& item.destination@.len() > 0
                &&& !(strategy@ == "skip"@ && fs.exists_at(effective_dest(*item, *fs)))
                &&& d@ == planned_dest(*item, strategy@, *fs)
            },
        },
{
    if item.destination.as_str().is_empty() {
        return StepPlan::SkipEmpty;
    }
    let dchars = str_to_chars(item.destination.as_str());
    let lastc = dchars[dchars.len() - 1];
    let ends_sep = lastc == '/' || lastc == '\\';
    let dest: String = if fs.dir_exists(item.destination.as_str()) || ends_sep {
        let name = str_to_chars(item.file.name.as_str());
        chars_to_string(&join_chars(&dchars, &name))
    } else {
        chars_to_string(&dchars)
    };
    proof {
        assert(dest@ == effective_dest(*item, *fs));
    }
    if fs.exists_path(dest.as_str()) {
        let resolved = resolve_conflict(dest.as_str(), strategy, fs);
        proof {
            lemma_strategy_literals();
            if strategy@ == "skip"@ {
                assert(spec_resolve_conflict(dest@, strategy@, *fs) == dest@);
                assert(resolved@ == dest@);
            }
        }
        if str_eq(strategy, "skip") && fs.exists_path(resolved.as_str()) {
            return StepPlan::SkipConflict(resolved);
        }
        StepPlan::AttemptMove(resolved)
    } else {
        StepPlan::AttemptMove(dest)
    }
}

// ── The journal ───────────────────────────────────────────────────────

/// How many journal entries carry this status.
pub open spec fn count_status(journal: Seq<RunItem>, status: Seq<char>) -> int
    decreases journal.len(),
{
    if journal.len() == 0 {
        0
    } else {
        count_status(journal.drop_last(), status) + (
        if journal.last().status@ == status {
            1int
        } else {
            0int
        })
    }
}

/// The `(original, destination)` pairs of the completed entries, in
/// journal order.
pub open spec fn completed_pairs(journal: Seq<RunItem>) -> Seq<(Seq<char>, Seq<char>)>
    decreases journal.len(),
{
    if journal.len() == 0 {
        Seq::<(Seq<char>, Seq<char>)>::empty()
    } else {
        completed_pairs(journal.drop_last()) + (
        if journal.last().status@ == "completed"@ {
            seq![(journal.last().original_path@, journal.last().destination_path@)]
        } else {
            Seq::<(Seq<char>, Seq<char>)>::empty()
        })
    }
}

/// Whether a file exists at `p` after applying the moves, in order, to
/// the base view: each move takes its source away and fills its
/// destination.
pub open spec fn move_has(fs0: FsView, moves: Seq<(Seq<char>, Seq<char>)>, p: Seq<char>) -> bool
    decreases moves.len(),
{
    if moves.len() == 0 {
        fs0.has_file(p)
    } else {
        let m = moves.last();
        if p == m.1 {
            true
        } else if p == m.0 {
            false
        } else {
            move_has(fs0, moves.drop_last(), p)
        }
    }
}

/// The three journal statuses are pairwise distinct.
pub proof fn lemma_status_literals()
    ensures
        "completed"@ != "skipped"@,
        "completed"@ != "error"@,
        "skipped"@ != "error"@,
{
    reveal_strlit("completed");
    reveal_strlit("skipped");
    reveal_strlit("error");
    assert("completed"@.len() == 9);
    assert("skipped"@.len() == 7);
    assert("error"@.len() == 5);
}

/// The three strategy names are pairwise distinct.
pub proof fn lemma_strategy_literals()
    ensures
        "skip"@ != "suffix"@,
        "skip"@ != "conflict_folder"@,
        "suffix"@ != "conflict_folder"@,
{
    reveal_strlit("skip");
    reveal_strlit("suffix");
    reveal_strlit("conflict_folder");
    assert("skip"@.len() == 4);
    assert("suffix"@.len() == 6);
    assert("conflict_folder"@.len() == 15);
}

/// One more journal entry extends the counts and the completed pairs.
pub proof fn lemma_journal_push(prev: Seq<RunItem>, e: RunItem)
    ensures
        forall|s: Seq<char>|
            #[trigger] count_status(prev.push(e), s) == count_status(prev, s) + (
            if e.status@ == s {
                1int
            } else {
                0int
            }),
        completed_pairs(prev.push(e)) == completed_pairs(prev) + (
        if e.status@ == "completed"@ {
            seq![(e.original_path@, e.destination_path@)]
        } else {
            Seq::<(Seq<char>, Seq<char>)>::empty()
        }),
{
    assert(prev.push(e).drop_last() =~= prev);
    assert(forall|s: Seq<char>|
        #[trigger] count_status(prev.push(e), s) == count_status(prev.push(e).drop_last(), s) + (
        if prev.push(e).last().status@ == s {
            1int
        } else {
            0int
        }));
}

/// One more move refines the reachable-file predicate pointwise.
pub proof fn lemma_move_has_push(
    fs0: FsView,
    pairs: Seq<(Seq<char>, Seq<char>)>,
    m: (Seq<char>, Seq<char>),
    p: Seq<char>,
)
    ensures
        move_has(fs0, pairs.push(m), p) == (
        if p == m.1 {
            true
        } else if p == m.0 {
            false
        } else {
            move_has(fs0, pairs, p)
        }),
{
    assert(pairs.push(m).drop_last() =~= pairs);
}

/// The whole step chain: one view per step boundary, each journal
/// entry pinned between its neighbouring views, and each entry
/// recording its item's source path.
pub open spec fn chain_ok(
    items: Seq<SimulationItem>,
    strategy: Seq<char>,
    outcomes: Seq<MoveOutcome>,
    views: Seq<FsView>,
    journal: Seq<RunItem>,
) -> bool {
    &&& views.len() == items.len() + 1
    &&& journal.len() == items.len()
    &&& outcomes.len() == items.len()
    &&& forall|j: int|
        0 <= j < items.len() ==> step_ok(
            #[trigger] items[j],
            strategy,
            outcomes[j],
            views[j],
            views[j + 1],
            journal[j],
        )
    &&& forall|j: int|
        0 <= j < items.len() ==> (#[trigger] journal[j]).original_path@ == items[j].file.path@
}

/// A completed step moves exactly its recorded paths; any other step
/// leaves the files alone.
pub proof fn lemma_chain_step(
    items: Seq<SimulationItem>,
    strategy: Seq<char>,
    outcomes: Seq<MoveOutcome>,
    views: Seq<FsView>,
    journal: Seq<RunItem>,
    j: int,
)
    requires
        chain_ok(items, strategy, outcomes, views, journal),
        0 <= j < items.len(),
    ensures
        journal[j].status@ == "completed"@ ==> files_moved(
            views[j],
            views[j + 1],
            journal[j].original_path@,
            journal[j].destination_path@,
        ),
        journal[j].status@ == "completed"@ ==> views[j].has_file(journal[j].original_path@),
        journal[j].status@ != "completed"@ ==> files_unchanged(views[j], views[j + 1]),
{
    lemma_status_literals();
    assert(step_ok(items[j], strategy, outcomes[j], views[j], views[j + 1], journal[j]));
}

/// A path no completed prefix step wrote keeps its presence back to
/// the initial view.
pub proof fn lemma_chain_present_back(
    items: Seq<SimulationItem>,
    strategy: Seq<char>,
    outcomes: Seq<MoveOutcome>,
    views: Seq<FsView>,
    journal: Seq<RunItem>,
    k: int,
    p: Seq<char>,
)
    requires
        chain_ok(items, strategy, outcomes, views, journal),
        0 <= k <= items.len(),
        views[k].has_file(p),
        forall|i: int|
            0 <= i < k && (#[trigger] journal[i]).status@ == "completed"@
                ==> journal[i].destination_path@ != p,
    ensures
        views[0].has_file(p),
    decreases k,
{
    if k > 0 {
        lemma_chain_step(items, strategy, outcomes, views, journal, k - 1);
        lemma_chain_present_back(items, strategy, outcomes, views, journal, k - 1, p);
    }
}

/// A path no completed prefix step read keeps its absence back to the
/// initial view.
pub proof fn lemma_chain_fresh_back(
    items: Seq<SimulationItem>,
    strategy: Seq<char>,
    outcomes: Seq<MoveOutcome>,
    views: Seq<FsView>,
    journal: Seq<RunItem>,
    k: int,
    p: Seq<char>,
)
    requires
        chain_ok(items, strategy, outcomes, views, journal),
        0 <= k <= items.len(),
        !views[k].has_file(p),
        forall|i: int|
            0 <= i < k && (#[trigger] journal[i]).status@ == "completed"@
                ==> journal[i].original_path@ != p,
    ensures
        !views[0].has_file(p),
    decreases k,
{
    if k > 0 {
        lemma_chain_step(items, strategy, outcomes, views, journal, k - 1);
        lemma_chain_fresh_back(items, strategy, outcomes, views, journal, k - 1, p);
    }
}

/// No completed step writes to another completed step's source.
pub open spec fn no_path_reuse(journal: Seq<RunItem>) -> bool {
    forall|a: int, b: int|
        0 <= a < journal.len() && 0 <= b < journal.len() && (#[trigger] journal[a]).status@
            == "completed"@ && (#[trigger] journal[b]).status@ == "completed"@
            ==> journal[a].destination_path@ != journal[b].original_path@
}

/// Once a completed step has moved its file, the destination stays and
/// the source stays gone, as long as no completed step reuses a path.
pub proof fn lemma_chain_moved_forward(
    items: Seq<SimulationItem>,
    strategy: Seq<char>,
    outcomes: Seq<MoveOutcome>,
    views: Seq<FsView>,
    journal: Seq<RunItem>,
    k: int,
    j: int,
)
    requires
        chain_ok(items, strategy, outcomes, views, journal),
        0 <= k < j <= items.len(),
        journal[k].status@ == "completed"@,
        no_path_reuse(journal),
    ensures
        views[j].has_file(journal[k].destination_path@),
        !views[j].has_file(journal[k].original_path@),
    decreases j - k,
{
    lemma_chain_step(items, strategy, outcomes, views, journal, k);
    if j == k + 1 {
        assert(journal[k].destination_path@ != journal[k].original_path@);
    } else {
        lemma_chain_moved_forward(items, strategy, outcomes, views, journal, k, j - 1);
        lemma_chain_step(items, strategy, outcomes, views, journal, j - 1);
        if journal[j - 1].status@ == "completed"@ {
            assert(journal[j - 1].original_path@ != journal[k].destination_path@);
            assert(journal[j - 1].destination_path@ != journal[k].original_path@);
        }
    }
}

/// The run header status the counts dictate.
pub open spec fn spec_run_status(moved: int, errors: int) -> Seq<char> {
    if errors > 0 && moved == 0 {
        "error"@
    } else if errors > 0 {
        "completed_with_errors"@
    } else {
        "completed"@
    }
}

/// One journal entry, before persistence assigns it an id and a
/// timestamp.
fn make_run_item(
    run_id: &str,
    item: &SimulationItem,
    dest: String,
    status: &str,
    strategy: &str,
    message: Option<String>,
) -> (r: RunItem)
    requires
        item.file.size <= i64::MAX,
    ensures
        r.run_id@ == run_id@,
        r.rule_id matches Some(id) && id@ == item.rule_id@,
        r.original_path@ == item.file.path@,
        r.destination_path == dest,
        r.file_size == item.file.size as i64,
        r.action_type@ == item.action_type@,
        r.status@ == status@,
        r.conflict_strategy@ == strategy@,
        r.error_message == message,
{
    RunItem {
        id: String::new(),
        run_id: run_id.to_owned(),
        rule_id: Some(item.rule_id.clone()),
        original_path: item.file.path.clone(),
        destination_path: dest,
        file_size: item.file.size as i64,
        action_type: item.action_type.clone(),
        status: status.to_owned(),
        conflict_strategy: strategy.to_owned(),
        error_message: message,
        executed_at: None,
        rolled_back_at: None,
    }
}

/// Everything one execution produces: the caller persists the journal
/// and the run header update.
pub struct ExecOutcome {
    pub result: ExecutionResult,
    pub status: String,
    pub journal: Vec<RunItem>,
    /// The views the run passed through: `views[j]` before item `j`,
    /// so each journal entry is pinned by [`step_ok`] between its
    /// neighbouring views.
    pub views: Ghost<Seq<FsView>>,
}

/// Executes a simulation result against the view: plans each item,
/// consumes the caller's move outcomes, journals every item, and
/// settles the run header status and counts.
pub fn execute(
    simulation: &SimulationResult,
    run_id: &str,
    conflict_strategy: &str,
    fs: &mut FsView,
    outcomes: &Vec<MoveOutcome>,
) -> (r: ExecOutcome)
    requires
        outcomes@.len() == simulation.items@.len(),
        simulation.items@.len() <= u32::MAX,
        forall|j: int|
            0 <= j < simulation.items@.len() ==> (#[trigger] simulation.items@[j]).file.size
                <= i64::MAX,
    ensures
        r.journal@.len() == simulation.items@.len(),
        r.result.moved as int == count_status(r.journal@, "completed"@),
        r.result.skipped as int == count_status(r.journal@, "skipped"@),
        r.result.errors as int == count_status(r.journal@, "error"@),
        r.result.total == r.result.moved + r.result.skipped + r.result.errors,
        r.result.total == simulation.items@.len(),
        r.result.run_id@ == run_id@,
        r.result.error_messages@.len() == r.result.errors,
        r.status@ == spec_run_status(r.result.moved as int, r.result.errors as int),
        forall|j: int|
            0 <= j < r.journal@.len() ==> {
                let e = #[trigger] r.journal@[j];
                let item = simulation.items@[j];
                &&& e.run_id@ == run_id@
                &&& e.rule_id matches Some(id) && id@ == item.rule_id@
                &&& e.original_path@ == item.file.path@
                &&& e.file_size == item.file.size as i64
                &&& e.action_type@ == item.action_type@
                &&& e.conflict_strategy@ == conflict_strategy@
                &&& (e.status@ == "completed"@ || e.status@ == "skipped"@ || e.status@
                    == "error"@)
            },
        forall|p: Seq<char>|
            #[trigger] final(fs).has_file(p) == move_has(
                *old(fs),
                completed_pairs(r.journal@),
                p,
            ),
        forall|p: Seq<char>| old(fs).has_dir(p) ==> #[trigger] final(fs).has_dir(p),
        r.views@.len() == simulation.items@.len() + 1,
        r.views@[0] == *old(fs),
        r.views@[simulation.items@.len() as int] == *final(fs),
        forall|j: int|
            0 <= j < simulation.items@.len() ==> step_ok(
                #[trigger] simulation.items@[j],
                conflict_strategy@,
                outcomes@[j],
                r.views@[j],
                r.views@[j + 1],
                r.journal@[j],
            ),
{
    let ghost fs0 = *old(fs);
    let ghost views: Seq<FsView> = seq![fs0];
    let n: usize = simulation.items.len();
    let mut journal: Vec<RunItem> = Vec::new();
    let mut error_messages: Vec<String> = Vec::new();
    let mut moved: u32 = 0;
    let mut skipped: u32 = 0;
    let mut errors: u32 = 0;
    let mut j: usize = 0;
    while j < n
        invariant
            n == simulation.items@.len() <= u32::MAX,
            outcomes@.len() == n,
            j <= n,
            forall|j2: int|
                0 <= j2 < n ==> (#[trigger] simulation.items@[j2]).file.size <= i64::MAX,
            journal@.len() == j,
            moved as int == count_status(journal@, "completed"@),
            skipped as int == count_status(journal@, "skipped"@),
            errors as int == count_status(journal@, "error"@),
            moved + skipped + errors == j,
            error_messages@.len() == errors,
            forall|j2: int|
                0 <= j2 < j ==> {
                    let e = #[trigger] journal@[j2];
                    let item = simulation.items@[j2];
                    &&& e.run_id@ == run_id@
                    &&& e.rule_id matches Some(id) && id@ == item.rule_id@
                    &&& e.original_path@ == item.file.path@
                    &&& e.file_size == item.file.size as i64
                    &&& e.action_type@ == item.action_type@
                    &&& e.conflict_strategy@ == conflict_strategy@
                    &&& (e.status@ == "completed"@ || e.status@ == "skipped"@ || e.status@
                        == "error"@)
                },
            forall|p: Seq<char>|
                #[trigger] fs.has_file(p) == move_has(fs0, completed_pairs(journal@), p),
            forall|p: Seq<char>| fs0.has_dir(p) ==> #[trigger] fs.has_dir(p),
            views.len() == j + 1,
            views[0] == fs0,
            views[j as int] == *fs,
            forall|j2: int|
                0 <= j2 < j ==> step_ok(
                    #[trigger] simulation.items@[j2],
                    conflict_strategy@,
                    outcomes@[j2],
                    views[j2],
                    views[j2 + 1],
                    journal@[j2],
                ),
        decreases n - j,
    {
        let item = &simulation.items[j];
        let ghost pre_fs = *fs;
        let ghost prev = journal@;
        let ghost prev_pairs = completed_pairs(prev);
        let plan = execute_step(item, conflict_strategy, fs);
        match plan {
            StepPlan::SkipEmpty => {
                let entry = make_run_item(
                    run_id,
                    item,
                    String::new(),
                    "skipped",
                    conflict_strategy,
                    None,
                );
                journal.push(entry);
                skipped = skipped + 1;
                proof {
                    lemma_status_literals();
                    lemma_journal_push(prev, journal@.last());
                    assert(step_ok(
                        *item,
                        conflict_strategy@,
                        outcomes@[j as int],
                        pre_fs,
                        *fs,
                        journal@.last(),
                    ));
                }
            },
            StepPlan::SkipConflict(dest) => {
                let entry = make_run_item(run_id, item, dest, "skipped", conflict_strategy, None);
                journal.push(entry);
                skipped = skipped + 1;
                proof {
                    lemma_status_literals();
                    lemma_journal_push(prev, journal@.last());
                    assert(step_ok(
                        *item,
                        conflict_strategy@,
                        outcomes@[j as int],
                        pre_fs,
                        *fs,
                        journal@.last(),
                    ));
                }
            },
            StepPlan::AttemptMove(dest) => {
                match &outcomes[j] {
                    MoveOutcome::DirFailed(m) => {
                        error_messages.push(m.clone());
                        let entry = make_run_item(
                            run_id,
                            item,
                            dest,
                            "error",
                            conflict_strategy,
                            Some(m.clone()),
                        );
                        journal.push(entry);
                        errors = errors + 1;
                        proof {
                            lemma_status_literals();
                            lemma_journal_push(prev, journal@.last());
                            assert(step_ok(
                                *item,
                                conflict_strategy@,
                                outcomes@[j as int],
                                pre_fs,
                                *fs,
                                journal@.last(),
                            ));
                        }
                    },
                    MoveOutcome::MoveFailed(m) => {
                        let dchars = str_to_chars(dest.as_str());
                        let parent = chars_to_string(&parent_chars(&dchars));
                        let ghost gparent = parent@;
                        fs.add_dir(parent);
                        error_messages.push(m.clone());
                        let entry = make_run_item(
                            run_id,
                            item,
                            dest,
                            "error",
                            conflict_strategy,
                            Some(m.clone()),
                        );
                        journal.push(entry);
                        errors = errors + 1;
                        proof {
                            lemma_status_literals();
                            lemma_journal_push(prev, journal@.last());
                            assert forall|p: Seq<char>| #[trigger]
                                fs.has_file(p) == move_has(fs0, completed_pairs(prev), p) by {
                                assert(pre_fs.has_file(p) == move_has(fs0, prev_pairs, p));
                            }
                            assert forall|p: Seq<char>|
                                fs0.has_dir(p) implies #[trigger] fs.has_dir(p) by {
                                assert(pre_fs.has_dir(p) || !fs0.has_dir(p));
                            }
                            assert(files_unchanged(pre_fs, *fs)) by {
                                assert forall|p: Seq<char>| #[trigger]
                                    fs.has_file(p) == pre_fs.has_file(p) by {
                                    assert(fs.files@ == pre_fs.files@);
                                }
                            }
                            assert(dirs_plus(pre_fs, *fs, gparent));
                            assert(step_ok(
                                *item,
                                conflict_strategy@,
                                outcomes@[j as int],
                                pre_fs,
                                *fs,
                                journal@.last(),
                            ));
                        }
                    },
                    MoveOutcome::Moved => {
                        let ghost gdest = dest@;
                        let dchars = str_to_chars(dest.as_str());
                        let parent = chars_to_string(&parent_chars(&dchars));
                        let ghost gparent = parent@;
                        fs.add_dir(parent);
                        let ghost fs_mid = *fs;
                        if fs.file_exists(item.file.path.as_str()) {
                            fs.remove_file(item.file.path.as_str());
                            fs.add_file(chars_to_string(&dchars));
                            let entry = make_run_item(
                                run_id,
                                item,
                                dest,
                                "completed",
                                conflict_strategy,
                                None,
                            );
                            journal.push(entry);
                            moved = moved + 1;
                            proof {
                                lemma_status_literals();
                                lemma_journal_push(prev, journal@.last());
                                let m2 = (item.file.path@, gdest);
                                assert(completed_pairs(journal@) =~= prev_pairs.push(m2));
                                assert forall|p: Seq<char>| #[trigger]
                                    fs.has_file(p) == move_has(
                                        fs0,
                                        completed_pairs(journal@),
                                        p,
                                    ) by {
                                    lemma_move_has_push(fs0, prev_pairs, m2, p);
                                    assert(pre_fs.has_file(p) == move_has(fs0, prev_pairs, p));
                                }
                                assert forall|p: Seq<char>|
                                    fs0.has_dir(p) implies #[trigger] fs.has_dir(p) by {
                                    assert(pre_fs.has_dir(p) || !fs0.has_dir(p));
                                    assert(fs_mid.has_dir(p) == (pre_fs.has_dir(p) || p
                                        == gparent));
                                    assert(fs.dirs@ == fs_mid.dirs@);
                                }
                                assert(pre_fs.has_file(item.file.path@)) by {
                                    assert(fs_mid.files@ == pre_fs.files@);
                                }
                                assert(files_moved(pre_fs, *fs, item.file.path@, gdest)) by {
                                    assert forall|p: Seq<char>| #[trigger]
                                        fs.has_file(p) == (
                                        if p == gdest {
                                            true
                                        } else if p == item.file.path@ {
                                            false
                                        } else {
                                            pre_fs.has_file(p)
                                        }) by {
                                        assert(fs_mid.files@ == pre_fs.files@);
                                        assert(pre_fs.has_file(p) == fs_mid.has_file(p));
                                    }
                                }
                                assert(dirs_plus(pre_fs, *fs, gparent)) by {
                                    assert forall|p: Seq<char>| #[trigger]
                                        fs.has_dir(p) == (pre_fs.has_dir(p) || p == gparent) by {
                                        assert(fs_mid.has_dir(p) == (pre_fs.has_dir(p) || p
                                            == gparent));
                                        assert(fs.dirs@ == fs_mid.dirs@);
                                    }
                                }
                                assert(step_ok(
                                    *item,
                                    conflict_strategy@,
                                    outcomes@[j as int],
                                    pre_fs,
                                    *fs,
                                    journal@.last(),
                                ));
                            }
                        } else {
                            let msg = "source file no longer exists".to_owned();
                            error_messages.push(msg.clone());
                            let entry = make_run_item(
                                run_id,
                                item,
                                dest,
                                "error",
                                conflict_strategy,
                                Some(msg),
                            );
                            journal.push(entry);
                            errors = errors + 1;
                            proof {
                                lemma_status_literals();
                                lemma_journal_push(prev, journal@.last());
                                assert forall|p: Seq<char>| #[trigger]
                                    fs.has_file(p) == move_has(fs0, completed_pairs(prev), p) by {
                                    assert(pre_fs.has_file(p) == move_has(fs0, prev_pairs, p));
                                }
                                assert forall|p: Seq<char>|
                                    fs0.has_dir(p) implies #[trigger] fs.has_dir(p) by {
                                    assert(pre_fs.has_dir(p) || !fs0.has_dir(p));
                                    assert(fs_mid.has_dir(p) == (pre_fs.has_dir(p) || p
                                        == gparent));
                                    assert(fs.dirs@ == fs_mid.dirs@);
                                }
                                assert(!pre_fs.has_file(item.file.path@)) by {
                                    assert(fs_mid.files@ == pre_fs.files@);
                                }
                                assert(files_unchanged(pre_fs, *fs)) by {
                                    assert forall|p: Seq<char>| #[trigger]
                                        fs.has_file(p) == pre_fs.has_file(p) by {
                                        assert(fs.files@ == fs_mid.files@);
                                        assert(fs_mid.files@ == pre_fs.files@);
                                    }
                                }
                                assert(dirs_plus(pre_fs, *fs, gparent)) by {
                                    assert forall|p: Seq<char>| #[trigger]
                                        fs.has_dir(p) == (pre_fs.has_dir(p) || p == gparent) by {
                                        assert(fs_mid.has_dir(p) == (pre_fs.has_dir(p) || p
                                            == gparent));
                                        assert(fs.dirs@ == fs_mid.dirs@);
                                    }
                                }
                                assert(step_ok(
                                    *item,
                                    conflict_strategy@,
                                    outcomes@[j as int],
                                    pre_fs,
                                    *fs,
                                    journal@.last(),
                                ));
                            }
                        }
                    },
                }
            },
        }
        proof {
            assert(journal@ =~= prev.push(journal@.last()));
            if journal@.last().status@ != "completed"@ {
                assert(completed_pairs(journal@) =~= prev_pairs);
            }
            views = views.push(*fs);
            assert(views[j as int] == pre_fs);
            assert(views[j + 1] == *fs);
        }
        j = j + 1;
    }
    let status: String = if errors > 0 && moved == 0 {
        "error".to_owned()
    } else if errors > 0 {
        "completed_with_errors".to_owned()
    } else {
        "completed".to_owned()
    };
    let result = ExecutionResult {
        run_id: run_id.to_owned(),
        total: moved + skipped + errors,
        moved,
        skipped,
        errors,
        error_messages,
    };
    ExecOutcome { result, status, journal, views: Ghost(views) }
}

} // verus!
