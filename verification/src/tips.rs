//! Heuristic tips about cluttered folders, and when to show them.
//!
//! The heuristics judge plain counts the caller gathered from a
//! folder: total entries, PDF files, installer files.  A tip already
//! accepted stays hidden; a dismissed tip stays hidden until its
//! cooldown passes.

use vstd::prelude::*;
use crate::datetime::{dt_lt, dt_lt_exec, parse_datetime, spec_parse_datetime, valid, DateTime};
use crate::models::TipState;
use crate::numeric::{u64_digits, u64_to_chars};
use crate::text::{chars_to_string, str_eq, str_to_chars};

verus! {

/// A tip suggestion to be displayed to the user.
pub struct TipSuggestion {
    pub id: String,
    pub title: String,
    pub message: String,
    pub action_label: String,
    pub action_type: String,
}

impl Clone for TipSuggestion {
    fn clone(&self) -> (r: Self)
        ensures
            r == *self,
    {
        TipSuggestion {
            id: self.id.clone(),
            title: self.title.clone(),
            message: self.message.clone(),
            action_label: self.action_label.clone(),
            action_type: self.action_type.clone(),
        }
    }
}

/// Builds a message around an item count.
fn count_message(before: &str, count: u64, after: &str) -> (r: String)
    ensures
        r@ == before@ + u64_digits(count as int) + after@,
{
    let mut out: Vec<char> = Vec::new();
    crate::pathutil::append_chars(&mut out, &str_to_chars(before));
    crate::pathutil::append_chars(&mut out, &u64_to_chars(count));
    crate::pathutil::append_chars(&mut out, &str_to_chars(after));
    chars_to_string(&out)
}

/// Checks if a folder has too many items (desktop clutter): more than
/// 30 entries trigger the tip.
pub fn check_desktop_clutter(item_count: u64) -> (r: Option<TipSuggestion>)
    ensures
        r is Some <==> item_count > 30,
        r matches Some(tip) ==> tip.id@ == "tip_desktop_clutter"@,
{
    if item_count > 30 {
        Some(
            TipSuggestion {
                id: "tip_desktop_clutter".to_owned(),
                title: "Pasta com muitos arquivos".to_owned(),
                message: count_message(
                    "Esta pasta cont\u{e9}m ",
                    item_count,
                    " itens. Considere organizar seus arquivos em subpastas para melhor produtividade.",
                ),
                action_label: "Organizar agora".to_owned(),
                action_type: "organize_folder".to_owned(),
            },
        )
    } else {
        None
    }
}

/// Checks if a folder has accumulated too many PDF files: more than
/// ten trigger the tip.
pub fn check_pdf_accumulation(pdf_count: u64) -> (r: Option<TipSuggestion>)
    ensures
        r is Some <==> pdf_count > 10,
        r matches Some(tip) ==> tip.id@ == "tip_pdf_accumulation"@,
{
    if pdf_count > 10 {
        Some(
            TipSuggestion {
                id: "tip_pdf_accumulation".to_owned(),
                title: "Ac\u{fa}mulo de PDFs detectado".to_owned(),
                message: count_message(
                    "Foram encontrados ",
                    pdf_count,
                    " arquivos PDF nesta pasta. Crie uma regra para organiz\u{e1}-los automaticamente.",
                ),
                action_label: "Criar regra para PDFs".to_owned(),
                action_type: "create_rule".to_owned(),
            },
        )
    } else {
        None
    }
}

/// Checks if a folder has accumulated installer files: more than five
/// trigger the tip.
pub fn check_installer_pileup(installer_count: u64) -> (r: Option<TipSuggestion>)
    ensures
        r is Some <==> installer_count > 5,
        r matches Some(tip) ==> tip.id@ == "tip_installer_pileup"@,
{
    if installer_count > 5 {
        Some(
            TipSuggestion {
                id: "tip_installer_pileup".to_owned(),
                title: "Instaladores acumulados".to_owned(),
                message: count_message(
                    "Existem ",
                    installer_count,
                    " instaladores nesta pasta. Instaladores antigos podem ser removidos com seguran\u{e7}a ap\u{f3}s a instala\u{e7}\u{e3}o.",
                ),
                action_label: "Limpar instaladores".to_owned(),
                action_type: "cleanup_installers".to_owned(),
            },
        )
    } else {
        None
    }
}

/// The sequence of suggestions the three heuristics raise for these
/// counts, in their fixed order.
pub open spec fn heuristics_of(
    tips: Seq<TipSuggestion>,
    item_count: int,
    pdf_count: int,
    installer_count: int,
) -> bool {
    &&& tips.len() == (if item_count > 30 {
        1int
    } else {
        0int
    }) + (if pdf_count > 10 {
        1int
    } else {
        0int
    }) + (if installer_count > 5 {
        1int
    } else {
        0int
    })
    &&& (item_count > 30 ==> tips[0].id@ == "tip_desktop_clutter"@)
    &&& (pdf_count > 10 ==> tips[if item_count > 30 {
        1int
    } else {
        0int
    }].id@ == "tip_pdf_accumulation"@)
    &&& (installer_count > 5 ==> tips.last().id@ == "tip_installer_pileup"@)
}

/// Runs all heuristic checks against the folder's counts and collects
/// suggestions, in a fixed order.
pub fn gather_heuristics(item_count: u64, pdf_count: u64, installer_count: u64) -> (r: Vec<
    TipSuggestion,
>)
    ensures
        heuristics_of(r@, item_count as int, pdf_count as int, installer_count as int),
{
    let mut tips: Vec<TipSuggestion> = Vec::new();
    if let Some(tip) = check_desktop_clutter(item_count) {
        tips.push(tip);
    }
    if let Some(tip) = check_pdf_accumulation(pdf_count) {
        tips.push(tip);
    }
    if let Some(tip) = check_installer_pileup(installer_count) {
        tips.push(tip);
    }
    tips
}

/// The state recorded for this tip id, scanning from the front.
pub open spec fn state_for(states: Seq<TipState>, id: Seq<char>) -> Option<TipState>
    decreases states.len(),
{
    if states.len() == 0 {
        None
    } else if states[0].id@ == id {
        Some(states[0])
    } else {
        state_for(states.skip(1), id)
    }
}

/// Whether a tip should be shown: never seen shows; accepted never
/// shows again; dismissed without cooldown never shows; dismissed with
/// a readable cooldown shows only once the cooldown has passed.
pub open spec fn spec_should_show(tip: TipSuggestion, states: Seq<TipState>, now: DateTime) -> bool {
    match state_for(states, tip.id@) {
        None => true,
        Some(st) => {
            if st.accepted {
                false
            } else if st.dismissed {
                match st.cooldown_until {
                    Some(cu) => match spec_parse_datetime(cu@) {
                        Some(cd) => !dt_lt(now, cd),
                        None => true,
                    },
                    None => false,
                }
            } else {
                true
            }
        },
    }
}

/// Determines whether a tip should be shown based on its state.
pub fn should_show_tip(tip: &TipSuggestion, tip_states: &Vec<TipState>, now: &DateTime) -> (r:
    bool)
    requires
        valid(*now),
    ensures
        r == spec_should_show(*tip, tip_states@, *now),
{
    let n: usize = tip_states.len();
    proof {
        assert(tip_states@.skip(0) =~= tip_states@);
    }
    let mut i: usize = 0;
    while i < n
        invariant
            valid(*now),
            n == tip_states@.len(),
            i <= n,
            state_for(tip_states@.skip(i as int), tip.id@) == state_for(tip_states@, tip.id@),
        decreases n - i,
    {
        proof {
            assert(tip_states@.skip(i as int)[0] == tip_states@[i as int]);
            assert(tip_states@.skip(i as int).skip(1) =~= tip_states@.skip(i + 1));
        }
        let st = &tip_states[i];
        if str_eq(st.id.as_str(), tip.id.as_str()) {
            if st.accepted {
                return false;
            }
            if st.dismissed {
                match &st.cooldown_until {
                    Some(cu) => {
                        match parse_datetime(cu.as_str()) {
                            Some(cd) => {
                                return !dt_lt_exec(now, &cd);
                            },
                            None => {
                                return true;
                            },
                        }
                    },
                    None => {
                        return false;
                    },
                }
            }
            return true;
        }
        i = i + 1;
    }
    proof {
        assert(tip_states@.skip(n as int) =~= Seq::<TipState>::empty());
    }
    true
}

/// Keeps the tips their states allow to be shown, in order.
pub fn filter_shown(tips: &Vec<TipSuggestion>, tip_states: &Vec<TipState>, now: &DateTime) -> (r:
    Vec<TipSuggestion>)
    requires
        valid(*now),
    ensures
        ({
            let ghost states = tip_states@;
            let ghost clock = *now;
            r@ == tips@.filter(|t: TipSuggestion| spec_should_show(t, states, clock))
        }),
{
    let ghost states = tip_states@;
    let ghost clock = *now;
    let ghost pred: spec_fn(TipSuggestion) -> bool = |t: TipSuggestion|
        spec_should_show(t, states, clock);
    let mut shown: Vec<TipSuggestion> = Vec::new();
    let n: usize = tips.len();
    proof {
        reveal_with_fuel(Seq::<TipSuggestion>::filter, 2);
        assert(tips@.take(0) =~= Seq::<TipSuggestion>::empty());
    }
    let mut i: usize = 0;
    while i < n
        invariant
            valid(*now),
            states == tip_states@,
            clock == *now,
            pred == (|t: TipSuggestion| spec_should_show(t, states, clock)),
            n == tips@.len(),
            i <= n,
            shown@ == tips@.take(i as int).filter(pred),
        decreases n - i,
    {
        let keep = should_show_tip(&tips[i], tip_states, now);
        if keep {
            shown.push(tips[i].clone());
        }
        proof {
            reveal_with_fuel(Seq::<TipSuggestion>::filter, 2);
            assert(tips@.take(i + 1).drop_last() =~= tips@.take(i as int));
            assert(tips@.take(i + 1).last() == tips@[i as int]);
            if keep {
                assert(pred(tips@[i as int]));
            } else {
                assert(!pred(tips@[i as int]));
            }
        }
        i = i + 1;
    }
    proof {
        assert(tips@.take(n as int) =~= tips@);
    }
    shown
}

/// Evaluates the heuristics against a folder's counts and filters the
/// suggestions by their recorded states: the raised tips, minus those
/// accepted or still cooling down.
pub fn evaluate_tips(
    item_count: u64,
    pdf_count: u64,
    installer_count: u64,
    tip_states: &Vec<TipState>,
    now: &DateTime,
) -> (r: Vec<TipSuggestion>)
    requires
        valid(*now),
    ensures
        ({
            let ghost states = tip_states@;
            let ghost clock = *now;
            exists|raised: Seq<TipSuggestion>|
                heuristics_of(
                    raised,
                    item_count as int,
                    pdf_count as int,
                    installer_count as int,
                ) && r@ == raised.filter(|t: TipSuggestion| spec_should_show(t, states, clock))
        }),
{
    let all_tips = gather_heuristics(item_count, pdf_count, installer_count);
    let r = filter_shown(&all_tips, tip_states, now);
    proof {
        let states = tip_states@;
        let clock = *now;
        assert(heuristics_of(
            all_tips@,
            item_count as int,
            pdf_count as int,
            installer_count as int,
        ) && r@ == all_tips@.filter(|t: TipSuggestion| spec_should_show(t, states, clock)));
    }
    r
}

} // verus!
