//! Rollback: replays a run's journal, moving completed items back.
//!
//! Only entries whose status is `completed` are touched.  An entry
//! whose recorded destination no longer holds a file is marked
//! `rollback_skipped`; a successful move back marks it `rolled_back`;
//! a failure leaves the entry as it was and counts an error.  The run
//! header is then set to `rolled_back`, or `rollback_partial` when
//! errors remain.

use vstd::prelude::*;
use crate::executor::{
    chain_ok, completed_pairs, count_status, lemma_chain_fresh_back, lemma_chain_moved_forward,
    lemma_chain_present_back, lemma_chain_step, lemma_move_has_push, lemma_status_literals,
    move_has, no_path_reuse, MoveOutcome,
};
use crate::models::SimulationItem;
use crate::fsview::FsView;
use crate::models::RunItem;
use crate::pathutil::parent_chars;
use crate::text::{chars_to_string, str_eq, str_to_chars};

verus! {

/// The `(destination, original)` pairs of the entries that *became*
/// `rolled_back` between the two journals, in order: the moves this
/// rollback performed.  An entry already rolled back before the call
/// contributes nothing.
pub open spec fn rolled_pairs(before: Seq<RunItem>, after: Seq<RunItem>) -> Seq<(Seq<char>, Seq<char>)>
    decreases after.len(),
{
    if after.len() == 0 || before.len() != after.len() {
        Seq::<(Seq<char>, Seq<char>)>::empty()
    } else {
        rolled_pairs(before.drop_last(), after.drop_last()) + (
        if before.last().status@ != "rolled_back"@ && after.last().status@ == "rolled_back"@ {
            seq![(after.last().destination_path@, after.last().original_path@)]
        } else {
            Seq::<(Seq<char>, Seq<char>)>::empty()
        })
    }
}

/// The rollback statuses are distinct from the execution statuses.
pub proof fn lemma_rollback_literals()
    ensures
        "rolled_back"@ != "completed"@,
        "rolled_back"@ != "skipped"@,
        "rolled_back"@ != "error"@,
        "rolled_back"@ != "rollback_skipped"@,
        "rollback_skipped"@ != "completed"@,
        "rollback_skipped"@ != "skipped"@,
        "rollback_skipped"@ != "error"@,
{
    reveal_strlit("rolled_back");
    reveal_strlit("rollback_skipped");
    reveal_strlit("completed");
    reveal_strlit("skipped");
    reveal_strlit("error");
    assert("rolled_back"@.len() == 11);
    assert("rollback_skipped"@.len() == 16);
    assert("completed"@.len() == 9);
    assert("skipped"@.len() == 7);
    assert("error"@.len() == 5);
}

/// One more processed entry extends the rolled pairs and the counts.
pub proof fn lemma_rolled_push(before: Seq<RunItem>, prev: Seq<RunItem>, b: RunItem, e: RunItem)
    requires
        before.len() == prev.len(),
    ensures
        forall|s: Seq<char>|
            #[trigger] count_status(prev.push(e), s) == count_status(prev, s) + (
            if e.status@ == s {
                1int
            } else {
                0int
            }),
        rolled_pairs(before.push(b), prev.push(e)) == rolled_pairs(before, prev) + (
        if b.status@ != "rolled_back"@ && e.status@ == "rolled_back"@ {
            seq![(e.destination_path@, e.original_path@)]
        } else {
            Seq::<(Seq<char>, Seq<char>)>::empty()
        }),
{
    assert(prev.push(e).drop_last() =~= prev);
    assert(before.push(b).drop_last() =~= before);
    assert(forall|s: Seq<char>|
        #[trigger] count_status(prev.push(e), s) == count_status(prev.push(e).drop_last(), s) + (
        if prev.push(e).last().status@ == s {
            1int
        } else {
            0int
        }));
}

/// A copy of a journal entry with a new status.
fn with_status(e: &RunItem, status: &str) -> (r: RunItem)
    ensures
        r == (RunItem { status: r.status, ..*e }),
        r.status@ == status@,
{
    RunItem {
        id: e.id.clone(),
        run_id: e.run_id.clone(),
        rule_id: match &e.rule_id {
            Some(s) => Some(s.clone()),
            None => None,
        },
        original_path: e.original_path.clone(),
        destination_path: e.destination_path.clone(),
        file_size: e.file_size,
        action_type: e.action_type.clone(),
        status: status.to_owned(),
        conflict_strategy: e.conflict_strategy.clone(),
        error_message: match &e.error_message {
            Some(s) => Some(s.clone()),
            None => None,
        },
        executed_at: match &e.executed_at {
            Some(s) => Some(s.clone()),
            None => None,
        },
        rolled_back_at: match &e.rolled_back_at {
            Some(s) => Some(s.clone()),
            None => None,
        },
    }
}

/// Everything one rollback produces: the caller persists the updated
/// journal entries and the run header.
pub struct RollbackOutcome {
    pub journal: Vec<RunItem>,
    pub rolled_back: u32,
    pub errors: u32,
    pub status: String,
    pub moved_files: i32,
    pub skipped_files: i32,
    pub error_files: i32,
}

/// Rolls back all completed items of a run, moving files back to their
/// original locations against the view; the caller performs the real
/// moves and reports each outcome.
pub fn rollback_run(items: &Vec<RunItem>, fs: &mut FsView, outcomes: &Vec<MoveOutcome>) -> (r:
    RollbackOutcome)
    requires
        outcomes@.len() == items@.len(),
        items@.len() <= i32::MAX,
    ensures
        r.journal@.len() == items@.len(),
        forall|j: int|
            0 <= j < items@.len() && (#[trigger] items@[j]).status@ != "completed"@
                ==> r.journal@[j] == items@[j],
        forall|j: int|
            0 <= j < items@.len() && (#[trigger] items@[j]).status@ == "completed"@ ==> {
                let e = r.journal@[j];
                let present = move_has(
                    *old(fs),
                    rolled_pairs(items@.take(j), r.journal@.take(j)),
                    items@[j].destination_path@,
                );
                &&& e == (RunItem { status: e.status, ..items@[j] })
                &&& (!present ==> e.status@ == "rollback_skipped"@)
                &&& (present && outcomes@[j] is Moved ==> e.status@ == "rolled_back"@)
                &&& (present && !(outcomes@[j] is Moved) ==> e.status@ == "completed"@)
            },
        forall|j: int|
            0 <= j < items@.len() && (#[trigger] items@[j]).status@ == "completed"@
                && outcomes@[j] is Moved ==> (r.journal@[j].status@ == "rolled_back"@
                || r.journal@[j].status@ == "rollback_skipped"@),
        r.rolled_back as int == rolled_pairs(items@, r.journal@).len(),
        r.errors as int == count_status(r.journal@, "completed"@),
        r.status@ == (
        if r.errors > 0 {
            "rollback_partial"@
        } else {
            "rolled_back"@
        }),
        r.moved_files as int == count_status(items@, "completed"@) - r.rolled_back as int,
        r.skipped_files == 0,
        r.error_files == r.errors,
        forall|p: Seq<char>|
            #[trigger] final(fs).has_file(p) == move_has(
                *old(fs),
                rolled_pairs(items@, r.journal@),
                p,
            ),
        forall|p: Seq<char>| old(fs).has_dir(p) ==> #[trigger] final(fs).has_dir(p),
{
    let ghost fs0 = *old(fs);
    let n: usize = items.len();
    let mut journal: Vec<RunItem> = Vec::new();
    let mut rolled_back: u32 = 0;
    let mut errors: u32 = 0;
    let mut completed_seen: u32 = 0;
    let mut j: usize = 0;
    while j < n
        invariant
            n == items@.len() <= i32::MAX,
            outcomes@.len() == n,
            j <= n,
            journal@.len() == j,
            rolled_back as int == rolled_pairs(items@.take(j as int), journal@).len(),
            rolled_back <= j,
            errors <= j,
            errors as int == count_status(journal@, "completed"@),
            completed_seen as int == count_status(items@.take(j as int), "completed"@),
            completed_seen <= j,
            rolled_back <= completed_seen,
            forall|j2: int|
                0 <= j2 < j && (#[trigger] items@[j2]).status@ != "completed"@
                    ==> journal@[j2] == items@[j2],
            forall|j2: int|
                0 <= j2 < j && (#[trigger] items@[j2]).status@ == "completed"@ ==> {
                    let e = journal@[j2];
                    let present = move_has(
                        fs0,
                        rolled_pairs(items@.take(j2), journal@.take(j2)),
                        items@[j2].destination_path@,
                    );
                    &&& e == (RunItem { status: e.status, ..items@[j2] })
                    &&& (!present ==> e.status@ == "rollback_skipped"@)
                    &&& (present && outcomes@[j2] is Moved ==> e.status@ == "rolled_back"@)
                    &&& (present && !(outcomes@[j2] is Moved) ==> e.status@ == "completed"@)
                },
            forall|p: Seq<char>|
                #[trigger] fs.has_file(p) == move_has(
                    fs0,
                    rolled_pairs(items@.take(j as int), journal@),
                    p,
                ),
            forall|p: Seq<char>| fs0.has_dir(p) ==> #[trigger] fs.has_dir(p),
        decreases n - j,
    {
        let it = &items[j];
        let ghost pre_fs = *fs;
        let ghost prev = journal@;
        let ghost rp_prev = rolled_pairs(items@.take(j as int), prev);
        proof {
            assert(items@.take(j + 1).drop_last() =~= items@.take(j as int));
            assert(items@.take(j + 1).last() == items@[j as int]);
            assert(items@.take(j + 1) =~= items@.take(j as int).push(items@[j as int]));
        }
        if !str_eq(it.status.as_str(), "completed") {
            journal.push(it.clone());
            proof {
                lemma_rollback_literals();
                lemma_rolled_push(items@.take(j as int), prev, items@[j as int], journal@.last());
                assert(rolled_pairs(items@.take(j + 1), journal@) =~= rp_prev);
                lemma_take_stable(prev, journal@.last());
                assert(journal@.take(j as int) =~= prev);
            }
        } else {
            completed_seen = completed_seen + 1;
            if !fs.file_exists(it.destination_path.as_str()) {
                journal.push(with_status(it, "rollback_skipped"));
                proof {
                    lemma_rollback_literals();
                    lemma_rolled_push(items@.take(j as int), prev, items@[j as int], journal@.last());
                    assert(rolled_pairs(items@.take(j + 1), journal@) =~= rp_prev);
                    lemma_take_stable(prev, journal@.last());
                    assert(journal@.take(j as int) =~= prev);
                }
            } else {
                match &outcomes[j] {
                    MoveOutcome::DirFailed(_) => {
                        errors = errors + 1;
                        journal.push(it.clone());
                        proof {
                            lemma_rollback_literals();
                            lemma_rolled_push(items@.take(j as int), prev, items@[j as int], journal@.last());
                            assert(rolled_pairs(items@.take(j + 1), journal@) =~= rp_prev);
                            lemma_take_stable(prev, journal@.last());
                            assert(journal@.take(j as int) =~= prev);
                        }
                    },
                    MoveOutcome::MoveFailed(_) => {
                        let ochars = str_to_chars(it.original_path.as_str());
                        let parent = chars_to_string(&parent_chars(&ochars));
                        let ghost gparent = parent@;
                        fs.add_dir(parent);
                        let ghost fs_mid = *fs;
                        errors = errors + 1;
                        journal.push(it.clone());
                        proof {
                            lemma_rollback_literals();
                            lemma_rolled_push(items@.take(j as int), prev, items@[j as int], journal@.last());
                            assert(rolled_pairs(items@.take(j + 1), journal@) =~= rp_prev);
                            lemma_take_stable(prev, journal@.last());
                            assert(journal@.take(j as int) =~= prev);
                            assert forall|p: Seq<char>| #[trigger]
                                fs.has_file(p) == move_has(
                                    fs0,
                                    rolled_pairs(items@.take(j + 1), journal@),
                                    p,
                                ) by {
                                assert(pre_fs.has_file(p) == move_has(fs0, rp_prev, p));
                            }
                            assert forall|p: Seq<char>|
                                fs0.has_dir(p) implies #[trigger] fs.has_dir(p) by {
                                assert(pre_fs.has_dir(p) || !fs0.has_dir(p));
                                assert(fs_mid.has_dir(p) == (pre_fs.has_dir(p) || p == gparent));
                            }
                        }
                    },
                    MoveOutcome::Moved => {
                        let ochars = str_to_chars(it.original_path.as_str());
                        let parent = chars_to_string(&parent_chars(&ochars));
                        let ghost gparent = parent@;
                        fs.add_dir(parent);
                        let ghost fs_mid = *fs;
                        fs.remove_file(it.destination_path.as_str());
                        fs.add_file(chars_to_string(&ochars));
                        journal.push(with_status(it, "rolled_back"));
                        rolled_back = rolled_back + 1;
                        proof {
                            lemma_rollback_literals();
                            lemma_rolled_push(items@.take(j as int), prev, items@[j as int], journal@.last());
                            lemma_take_stable(prev, journal@.last());
                            assert(journal@.take(j as int) =~= prev);
                            let m2 = (it.destination_path@, it.original_path@);
                            assert(rolled_pairs(items@.take(j + 1), journal@) =~= rp_prev.push(m2));
                            assert forall|p: Seq<char>| #[trigger]
                                fs.has_file(p) == move_has(
                                    fs0,
                                    rolled_pairs(items@.take(j + 1), journal@),
                                    p,
                                ) by {
                                lemma_move_has_push(fs0, rp_prev, m2, p);
                                assert(pre_fs.has_file(p) == move_has(fs0, rp_prev, p));
                            }
                            assert forall|p: Seq<char>|
                                fs0.has_dir(p) implies #[trigger] fs.has_dir(p) by {
                                assert(pre_fs.has_dir(p) || !fs0.has_dir(p));
                                assert(fs_mid.has_dir(p) == (pre_fs.has_dir(p) || p == gparent));
                                assert(fs.dirs@ == fs_mid.dirs@);
                            }
                        }
                    },
                }
            }
        }
        proof {
            lemma_status_literals();
        }
        j = j + 1;
    }
    proof {
        assert(items@.take(n as int) =~= items@);
    }
    let status: String = if errors > 0 {
        "rollback_partial".to_owned()
    } else {
        "rolled_back".to_owned()
    };
    let moved_files: i32 = (completed_seen - rolled_back) as i32;
    RollbackOutcome {
        journal,
        rolled_back,
        errors,
        status,
        moved_files,
        skipped_files: 0,
        error_files: errors as i32,
    }
}

// ── The execute/rollback round trip ───────────────────────────────────

/// `p` is the source of one of the moves.
pub open spec fn in_sources(moves: Seq<(Seq<char>, Seq<char>)>, p: Seq<char>) -> bool {
    exists|k: int| 0 <= k < moves.len() && moves[k].0 == p
}

/// `p` is the destination of one of the moves.
pub open spec fn in_dests(moves: Seq<(Seq<char>, Seq<char>)>, p: Seq<char>) -> bool {
    exists|k: int| 0 <= k < moves.len() && moves[k].1 == p
}

/// The moves touch pairwise distinct paths: sources are distinct,
/// destinations are distinct, and no destination is also a source.
pub open spec fn moves_disjoint(moves: Seq<(Seq<char>, Seq<char>)>) -> bool {
    forall|k1: int, k2: int|
        0 <= k1 < moves.len() && 0 <= k2 < moves.len() ==> {
            &&& (k1 != k2 ==> (#[trigger] moves[k1]).0 != (#[trigger] moves[k2]).0)
            &&& (k1 != k2 ==> moves[k1].1 != moves[k2].1)
            &&& moves[k1].1 != moves[k2].0
        }
}

/// Every move starts from a file the base view holds and lands on a
/// fresh path.
pub open spec fn moves_applicable(fs0: FsView, moves: Seq<(Seq<char>, Seq<char>)>) -> bool {
    forall|k: int|
        0 <= k < moves.len() ==> fs0.has_file((#[trigger] moves[k]).0) && !fs0.has_file(
            moves[k].1,
        )
}

/// The same moves with source and destination swapped.
pub open spec fn reversed_moves(moves: Seq<(Seq<char>, Seq<char>)>) -> Seq<(Seq<char>, Seq<char>)> {
    moves.map_values(|m: (Seq<char>, Seq<char>)| (m.1, m.0))
}

/// For disjoint moves, where a file ends up depends only on whether its
/// path is some destination, some source, or untouched.
pub proof fn lemma_move_has_flat(fs0: FsView, moves: Seq<(Seq<char>, Seq<char>)>, p: Seq<char>)
    requires
        moves_disjoint(moves),
    ensures
        move_has(fs0, moves, p) == (
        if in_dests(moves, p) {
            true
        } else if in_sources(moves, p) {
            false
        } else {
            fs0.has_file(p)
        }),
    decreases moves.len(),
{
    if moves.len() > 0 {
        let m = moves.last();
        let rest = moves.drop_last();
        assert(moves_disjoint(rest)) by {
            assert(forall|k: int| 0 <= k < rest.len() ==> rest[k] == moves[k]);
        }
        lemma_move_has_flat(fs0, rest, p);
        if p == m.1 {
            assert(in_dests(moves, p)) by {
                assert(moves[moves.len() - 1].1 == p);
            }
        } else if p == m.0 {
            assert(in_sources(moves, p)) by {
                assert(moves[moves.len() - 1].0 == p);
            }
            // A source is never a destination of the disjoint set.
            assert(!in_dests(moves, p)) by {
                if in_dests(moves, p) {
                    let k = choose|k: int| 0 <= k < moves.len() && moves[k].1 == p;
                    assert(moves[k].1 != moves[moves.len() - 1].0);
                }
            }
        } else {
            assert(in_dests(moves, p) == in_dests(rest, p)) by {
                if in_dests(moves, p) {
                    let k = choose|k: int| 0 <= k < moves.len() && moves[k].1 == p;
                    assert(rest[k].1 == p);
                }
                if in_dests(rest, p) {
                    let k = choose|k: int| 0 <= k < rest.len() && rest[k].1 == p;
                    assert(moves[k].1 == p);
                }
            }
            assert(in_sources(moves, p) == in_sources(rest, p)) by {
                if in_sources(moves, p) {
                    let k = choose|k: int| 0 <= k < moves.len() && moves[k].0 == p;
                    assert(rest[k].0 == p);
                }
                if in_sources(rest, p) {
                    let k = choose|k: int| 0 <= k < rest.len() && rest[k].0 == p;
                    assert(moves[k].0 == p);
                }
            }
        }
    }
}

/// Executing a set of disjoint moves and then rolling every one of them
/// back leaves the view's files exactly as they were: the round trip
/// restores the filesystem for all items whose rollback succeeded.
pub proof fn lemma_execute_rollback_restores(
    fs0: FsView,
    fs_mid: FsView,
    fs_end: FsView,
    moves: Seq<(Seq<char>, Seq<char>)>,
)
    requires
        moves_disjoint(moves),
        moves_applicable(fs0, moves),
        forall|p: Seq<char>| #[trigger] fs_mid.has_file(p) == move_has(fs0, moves, p),
        forall|p: Seq<char>|
            #[trigger] fs_end.has_file(p) == move_has(fs_mid, reversed_moves(moves), p),
    ensures
        forall|p: Seq<char>| #[trigger] fs_end.has_file(p) == fs0.has_file(p),
{
    let rb = reversed_moves(moves);
    assert(rb.len() == moves.len());
    assert(forall|k: int| 0 <= k < moves.len() ==> (#[trigger] rb[k]) == (moves[k].1, moves[k].0));
    assert(moves_disjoint(rb)) by {
        assert(forall|k1: int, k2: int|
            0 <= k1 < rb.len() && 0 <= k2 < rb.len() ==> {
                &&& (k1 != k2 ==> (#[trigger] rb[k1]).0 != (#[trigger] rb[k2]).0)
                &&& (k1 != k2 ==> rb[k1].1 != rb[k2].1)
                &&& rb[k1].1 != rb[k2].0
            });
    }
    assert forall|p: Seq<char>| #[trigger] fs_end.has_file(p) == fs0.has_file(p) by {
        lemma_move_has_flat(fs0, moves, p);
        lemma_move_has_flat(fs_mid, rb, p);
        assert(in_dests(rb, p) == in_sources(moves, p)) by {
            if in_dests(rb, p) {
                let k = choose|k: int| 0 <= k < rb.len() && rb[k].1 == p;
                assert(moves[k].0 == p);
            }
            if in_sources(moves, p) {
                let k = choose|k: int| 0 <= k < moves.len() && moves[k].0 == p;
                assert(rb[k].1 == p);
            }
        }
        assert(in_sources(rb, p) == in_dests(moves, p)) by {
            if in_sources(rb, p) {
                let k = choose|k: int| 0 <= k < rb.len() && rb[k].0 == p;
                assert(moves[k].1 == p);
            }
            if in_dests(moves, p) {
                let k = choose|k: int| 0 <= k < moves.len() && moves[k].1 == p;
                assert(rb[k].0 == p);
            }
        }
        if in_sources(moves, p) {
            let k = choose|k: int| 0 <= k < moves.len() && moves[k].0 == p;
            assert(fs0.has_file(p));
        } else if in_dests(moves, p) {
            let k = choose|k: int| 0 <= k < moves.len() && moves[k].1 == p;
            assert(!fs0.has_file(p));
        }
    }
}

/// When every completed entry of an executed journal was rolled back,
/// the rollback moves are exactly the executed moves, reversed.
pub proof fn lemma_rolled_matches_completed(ex: Seq<RunItem>, rb: Seq<RunItem>)
    requires
        rb.len() == ex.len(),
        forall|j: int|
            0 <= j < ex.len() ==> ((#[trigger] ex[j]).status@ == "completed"@ || ex[j].status@
                == "skipped"@ || ex[j].status@ == "error"@),
        forall|j: int|
            0 <= j < ex.len() && (#[trigger] ex[j]).status@ != "completed"@ ==> rb[j] == ex[j],
        forall|j: int|
            0 <= j < ex.len() && (#[trigger] ex[j]).status@ == "completed"@ ==> {
                &&& rb[j].status@ == "rolled_back"@
                &&& rb[j].original_path@ == ex[j].original_path@
                &&& rb[j].destination_path@ == ex[j].destination_path@
            },
    ensures
        rolled_pairs(ex, rb) == reversed_moves(completed_pairs(ex)),
    decreases ex.len(),
{
    lemma_rollback_literals();
    if ex.len() > 0 {
        let exd = ex.drop_last();
        let rbd = rb.drop_last();
        assert(forall|j: int| 0 <= j < exd.len() ==> #[trigger] exd[j] == ex[j]);
        assert(forall|j: int| 0 <= j < rbd.len() ==> #[trigger] rbd[j] == rb[j]);
        lemma_rolled_matches_completed(exd, rbd);
        assert(ex.last() == ex[ex.len() - 1]);
        assert(rb.last() == rb[ex.len() - 1]);
        if ex.last().status@ == "completed"@ {
            let m = (ex.last().original_path@, ex.last().destination_path@);
            assert(completed_pairs(ex) == completed_pairs(exd) + seq![m]);
            assert(rolled_pairs(ex, rb) == rolled_pairs(exd, rbd) + seq![(m.1, m.0)]);
            assert(reversed_moves(completed_pairs(exd) + seq![m]) =~= reversed_moves(
                completed_pairs(exd),
            ) + seq![(m.1, m.0)]);
        } else {
            assert(rb.last().status@ != "rolled_back"@);
            assert(completed_pairs(ex) =~= completed_pairs(exd));
            assert(rolled_pairs(ex, rb) =~= rolled_pairs(exd, rbd));
            assert(reversed_moves(completed_pairs(ex)) =~= reversed_moves(completed_pairs(exd)));
        }
    } else {
        assert(rolled_pairs(ex, rb) =~= Seq::<(Seq<char>, Seq<char>)>::empty());
        assert(reversed_moves(completed_pairs(ex)) =~= Seq::<(Seq<char>, Seq<char>)>::empty());
    }
}

/// Simulate, execute, roll back: when the completed moves touch
/// pairwise distinct paths, every move started from a present file and
/// landed on a fresh path, and every completed entry was successfully
/// rolled back, the view's files after rollback equal the files before
/// execution.  The premises are exactly what `execute` and
/// `rollback_run` ensure about the two journals and the view.
pub proof fn lemma_run_round_trip(
    fs0: FsView,
    fs_mid: FsView,
    fs_end: FsView,
    ex_journal: Seq<RunItem>,
    rb_journal: Seq<RunItem>,
)
    requires
        forall|p: Seq<char>|
            #[trigger] fs_mid.has_file(p) == move_has(fs0, completed_pairs(ex_journal), p),
        rb_journal.len() == ex_journal.len(),
        forall|j: int|
            0 <= j < ex_journal.len() ==> ((#[trigger] ex_journal[j]).status@ == "completed"@
                || ex_journal[j].status@ == "skipped"@ || ex_journal[j].status@ == "error"@),
        forall|j: int|
            0 <= j < ex_journal.len() && (#[trigger] ex_journal[j]).status@ != "completed"@
                ==> rb_journal[j] == ex_journal[j],
        forall|j: int|
            0 <= j < ex_journal.len() && (#[trigger] ex_journal[j]).status@ == "completed"@
                ==> {
                &&& rb_journal[j].status@ == "rolled_back"@
                &&& rb_journal[j].original_path@ == ex_journal[j].original_path@
                &&& rb_journal[j].destination_path@ == ex_journal[j].destination_path@
            },
        forall|p: Seq<char>|
            #[trigger] fs_end.has_file(p) == move_has(
                fs_mid,
                rolled_pairs(ex_journal, rb_journal),
                p,
            ),
        moves_disjoint(completed_pairs(ex_journal)),
        moves_applicable(fs0, completed_pairs(ex_journal)),
    ensures
        forall|p: Seq<char>| #[trigger] fs_end.has_file(p) == fs0.has_file(p),
{
    lemma_rolled_matches_completed(ex_journal, rb_journal);
    lemma_execute_rollback_restores(fs0, fs_mid, fs_end, completed_pairs(ex_journal));
}

/// Two completed-pair indexes come from two completed journal entries
/// in the same order.
proof fn lemma_completed_pairs_members(journal: Seq<RunItem>, i1: int, i2: int)
    requires
        0 <= i1 <= i2 < completed_pairs(journal).len(),
    ensures
        exists|j1: int, j2: int|
            {
                &&& 0 <= j1 <= j2 < journal.len()
                &&& (i1 < i2 ==> j1 < j2)
                &&& (#[trigger] journal[j1]).status@ == "completed"@
                &&& (#[trigger] journal[j2]).status@ == "completed"@
                &&& completed_pairs(journal)[i1] == (
                    journal[j1].original_path@,
                    journal[j1].destination_path@,
                )
                &&& completed_pairs(journal)[i2] == (
                    journal[j2].original_path@,
                    journal[j2].destination_path@,
                )
            },
    decreases journal.len(),
{
    let d = journal.drop_last();
    let cd = completed_pairs(d);
    let n = journal.len() as int;
    assert(forall|j: int| 0 <= j < d.len() ==> #[trigger] d[j] == journal[j]);
    if i2 < cd.len() {
        lemma_completed_pairs_members(d, i1, i2);
        let (j1, j2) = choose|j1: int, j2: int|
            {
                &&& 0 <= j1 <= j2 < d.len()
                &&& (i1 < i2 ==> j1 < j2)
                &&& (#[trigger] d[j1]).status@ == "completed"@
                &&& (#[trigger] d[j2]).status@ == "completed"@
                &&& cd[i1] == (d[j1].original_path@, d[j1].destination_path@)
                &&& cd[i2] == (d[j2].original_path@, d[j2].destination_path@)
            };
        assert(completed_pairs(journal)[i1] == cd[i1]);
        assert(completed_pairs(journal)[i2] == cd[i2]);
        assert(journal[j1].status@ == "completed"@ && journal[j2].status@ == "completed"@);
    } else {
        assert(journal.last().status@ == "completed"@);
        assert(completed_pairs(journal)[i2] == (
            journal[n - 1].original_path@,
            journal[n - 1].destination_path@,
        ));
        if i1 < i2 {
            lemma_completed_pairs_members(d, i1, i1);
            let (j1, _x) = choose|j1: int, _x: int|
                {
                    &&& 0 <= j1 <= _x < d.len()
                    &&& (i1 < i1 ==> j1 < _x)
                    &&& (#[trigger] d[j1]).status@ == "completed"@
                    &&& (#[trigger] d[_x]).status@ == "completed"@
                    &&& cd[i1] == (d[j1].original_path@, d[j1].destination_path@)
                    &&& cd[i1] == (d[_x].original_path@, d[_x].destination_path@)
                };
            assert(completed_pairs(journal)[i1] == cd[i1]);
            assert(journal[j1].status@ == "completed"@);
            assert(0 <= j1 < n - 1);
        }
    }
}

/// From the executor's step chain, fresh destinations and unreused
/// paths give everything the round-trip theorem asks of the completed
/// moves: they are pairwise disjoint and applicable to the initial
/// view.
pub proof fn lemma_chain_supports_round_trip(
    items: Seq<SimulationItem>,
    strategy: Seq<char>,
    outcomes: Seq<MoveOutcome>,
    views: Seq<FsView>,
    journal: Seq<RunItem>,
)
    requires
        chain_ok(items, strategy, outcomes, views, journal),
        no_path_reuse(journal),
        forall|j: int|
            0 <= j < journal.len() && (#[trigger] journal[j]).status@ == "completed"@
                ==> !views[j].has_file(journal[j].destination_path@),
    ensures
        moves_disjoint(completed_pairs(journal)),
        moves_applicable(views[0], completed_pairs(journal)),
{
    let cp = completed_pairs(journal);
    // Journal-indexed facts first.
    assert forall|a: int, b: int|
        0 <= a < b < journal.len() && (#[trigger] journal[a]).status@ == "completed"@ && (
        #[trigger] journal[b]).status@ == "completed"@ implies journal[a].destination_path@
        != journal[b].destination_path@ && journal[a].original_path@
        != journal[b].original_path@ by {
        lemma_chain_moved_forward(items, strategy, outcomes, views, journal, a, b);
        lemma_chain_step(items, strategy, outcomes, views, journal, b);
    }
    assert forall|j: int|
        0 <= j < journal.len() && (#[trigger] journal[j]).status@ == "completed"@ implies (
    views[0].has_file(journal[j].original_path@) && !views[0].has_file(
        journal[j].destination_path@,
    )) by {
        lemma_chain_step(items, strategy, outcomes, views, journal, j);
        lemma_chain_present_back(
            items,
            strategy,
            outcomes,
            views,
            journal,
            j,
            journal[j].original_path@,
        );
        lemma_chain_fresh_back(
            items,
            strategy,
            outcomes,
            views,
            journal,
            j,
            journal[j].destination_path@,
        );
    }
    // Transfer to the pairs.
    assert forall|k1: int, k2: int|
        0 <= k1 < cp.len() && 0 <= k2 < cp.len() implies {
        &&& (k1 != k2 ==> (#[trigger] cp[k1]).0 != (#[trigger] cp[k2]).0)
        &&& (k1 != k2 ==> cp[k1].1 != cp[k2].1)
        &&& cp[k1].1 != cp[k2].0
    } by {
        if k1 <= k2 {
            lemma_completed_pairs_members(journal, k1, k2);
        } else {
            lemma_completed_pairs_members(journal, k2, k1);
        }
    }
    assert forall|k: int| 0 <= k < cp.len() implies views[0].has_file((#[trigger] cp[k]).0)
        && !views[0].has_file(cp[k].1) by {
        lemma_completed_pairs_members(journal, k, k);
    }
}

/// The round trip, from the two functions' own contracts: execute a
/// simulation, roll every completed entry back, and the view's files
/// return to where they started.  The only facts asked beyond what
/// `execute` and `rollback_run` ensure are that every completed move
/// landed on a path free at its step and that no completed move's
/// destination doubles as a completed move's source — a run whose
/// first move vacates `/a` and whose later move fills `/a` again is
/// the one shape a forward-order rollback cannot undo.
pub proof fn lemma_run_round_trip_from_contracts(
    items: Seq<SimulationItem>,
    strategy: Seq<char>,
    outcomes: Seq<MoveOutcome>,
    views: Seq<FsView>,
    fs_mid: FsView,
    fs_end: FsView,
    ex_journal: Seq<RunItem>,
    rb_journal: Seq<RunItem>,
)
    requires
        chain_ok(items, strategy, outcomes, views, ex_journal),
        no_path_reuse(ex_journal),
        forall|j: int|
            0 <= j < ex_journal.len() && (#[trigger] ex_journal[j]).status@ == "completed"@
                ==> !views[j].has_file(ex_journal[j].destination_path@),
        forall|p: Seq<char>|
            #[trigger] fs_mid.has_file(p) == move_has(views[0], completed_pairs(ex_journal), p),
        rb_journal.len() == ex_journal.len(),
        forall|j: int|
            0 <= j < ex_journal.len() ==> ((#[trigger] ex_journal[j]).status@ == "completed"@
                || ex_journal[j].status@ == "skipped"@ || ex_journal[j].status@ == "error"@),
        forall|j: int|
            0 <= j < ex_journal.len() && (#[trigger] ex_journal[j]).status@ != "completed"@
                ==> rb_journal[j] == ex_journal[j],
        forall|j: int|
            0 <= j < ex_journal.len() && (#[trigger] ex_journal[j]).status@ == "completed"@
                ==> {
                &&& rb_journal[j].status@ == "rolled_back"@
                &&& rb_journal[j].original_path@ == ex_journal[j].original_path@
                &&& rb_journal[j].destination_path@ == ex_journal[j].destination_path@
            },
        forall|p: Seq<char>|
            #[trigger] fs_end.has_file(p) == move_has(
                fs_mid,
                rolled_pairs(ex_journal, rb_journal),
                p,
            ),
    ensures
        forall|p: Seq<char>| #[trigger] fs_end.has_file(p) == views[0].has_file(p),
{
    lemma_chain_supports_round_trip(items, strategy, outcomes, views, ex_journal);
    lemma_run_round_trip(views[0], fs_mid, fs_end, ex_journal, rb_journal);
}

/// Pushing an entry does not disturb the prefixes of the journal.
pub proof fn lemma_take_stable(prev: Seq<RunItem>, e: RunItem)
    ensures
        forall|k: int|
            0 <= k <= prev.len() ==> #[trigger] prev.push(e).take(k) == prev.take(k),
{
    assert forall|k: int| 0 <= k <= prev.len() implies #[trigger] prev.push(e).take(k) == prev.take(
        k,
    ) by {
        assert(prev.push(e).take(k) =~= prev.take(k));
    }
}

} // verus!
