//! The data model: files, rules, journal records, schedules and settings.
//!
//! These are plain records; their invariants live with the functions that
//! build and consume them.  Timestamps are strings in
//! `YYYY-MM-DD HH:MM:SS` form; identifiers are opaque strings.

use vstd::prelude::*;

verus! {

// ── Profiles ──────────────────────────────────────────────────────────

pub struct Profile {
    pub id: String,
    pub name: String,
    pub icon: String,
    pub color: String,
    pub is_active: bool,
    pub is_default: bool,
    pub created_at: String,
    pub updated_at: String,
}

// ── Rules ─────────────────────────────────────────────────────────────

pub struct Rule {
    pub id: String,
    pub name: String,
    pub description: String,
    pub is_enabled: bool,
    pub priority: i32,
    pub sort_order: i32,
    pub created_at: String,
    pub updated_at: String,
}

pub struct RuleCondition {
    pub id: String,
    pub rule_id: String,
    pub field: String,
    pub operator: String,
    pub value: String,
    pub logic_gate: String,
    pub sort_order: i32,
    pub created_at: String,
}

pub struct RuleAction {
    pub id: String,
    pub rule_id: String,
    pub action_type: String,
    pub destination: String,
    pub rename_pattern: String,
    pub tag_name: String,
    pub sort_order: i32,
    pub created_at: String,
}

pub struct ProfileRule {
    pub id: String,
    pub profile_id: String,
    pub rule_id: String,
    pub sort_order: i32,
    pub created_at: String,
}

// ── Watched folders ───────────────────────────────────────────────────

pub struct WatchedFolder {
    pub id: String,
    pub path: String,
    pub profile_id: String,
    pub is_enabled: bool,
    pub watch_mode: String,
    pub created_at: String,
    pub updated_at: String,
}

// ── Runs (the journal) ────────────────────────────────────────────────

pub struct Run {
    pub id: String,
    pub profile_id: String,
    pub run_type: String,
    pub status: String,
    pub source_folder: String,
    pub total_files: i32,
    pub moved_files: i32,
    pub skipped_files: i32,
    pub error_files: i32,
    pub started_at: String,
    pub completed_at: Option<String>,
    pub rolled_back_at: Option<String>,
    pub error_message: Option<String>,
}

pub struct RunItem {
    pub id: String,
    pub run_id: String,
    pub rule_id: Option<String>,
    pub original_path: String,
    pub destination_path: String,
    pub file_size: i64,
    pub action_type: String,
    pub status: String,
    pub conflict_strategy: String,
    pub error_message: Option<String>,
    pub executed_at: Option<String>,
    pub rolled_back_at: Option<String>,
}

// ── Schedules ─────────────────────────────────────────────────────────

pub struct Schedule {
    pub id: String,
    pub profile_id: String,
    pub folder_id: String,
    pub cron_expr: String,
    pub is_enabled: bool,
    pub last_run_at: Option<String>,
    pub next_run_at: Option<String>,
    pub created_at: String,
    pub updated_at: String,
}

// ── Settings ──────────────────────────────────────────────────────────

pub struct Setting {
    pub key: String,
    pub value: String,
    pub updated_at: String,
}

// ── Tags and shortcuts ────────────────────────────────────────────────

pub struct Tag {
    pub id: String,
    pub name: String,
    pub color: String,
    pub created_at: String,
}

pub struct Shortcut {
    pub id: String,
    pub name: String,
    pub shortcut_type: String,
    pub target: String,
    pub hotkey: String,
    pub sort_order: i32,
    pub created_at: String,
}

// ── Help, tour and tips ───────────────────────────────────────────────

pub struct HelpFavorite {
    pub id: String,
    pub article_slug: String,
    pub created_at: String,
}

pub struct HelpView {
    pub id: String,
    pub article_slug: String,
    pub viewed_at: String,
}

pub struct TourState {
    pub id: String,
    pub has_seen: bool,
    pub current_step: i32,
    pub completed_at: Option<String>,
    pub skipped_at: Option<String>,
    pub times_completed: i32,
    pub updated_at: String,
}

pub struct TipState {
    pub id: String,
    pub times_shown: i32,
    pub last_shown_at: Option<String>,
    pub accepted: bool,
    pub dismissed: bool,
    pub dismissed_at: Option<String>,
    pub cooldown_until: Option<String>,
    pub created_at: String,
    pub updated_at: String,
}

// ── Files and the organizer pipeline ──────────────────────────────────

pub struct FileEntry {
    pub path: String,
    pub name: String,
    pub extension: String,
    pub size: u64,
    pub created_at: String,
    pub modified_at: String,
}

pub struct SimulationResult {
    pub items: Vec<SimulationItem>,
    pub total_files: u32,
    pub matched_files: u32,
    pub unmatched_files: u32,
}

pub struct SimulationItem {
    pub file: FileEntry,
    pub rule_id: String,
    pub rule_name: String,
    pub action_type: String,
    pub destination: String,
    pub conflict: bool,
}

pub struct ExecutionResult {
    pub run_id: String,
    pub total: u32,
    pub moved: u32,
    pub skipped: u32,
    pub errors: u32,
    pub error_messages: Vec<String>,
}

// ── Licensing ─────────────────────────────────────────────────────────

pub struct InstallationRecord {
    pub email: String,
    pub license_key: String,
    pub machine_fingerprint: String,
    pub installed_at: String,
}

pub struct LicenseStatus {
    pub is_licensed: bool,
    pub email: String,
    pub hardware_id: String,
    pub message: String,
}

// ── Watcher events ────────────────────────────────────────────────────

pub struct WatchEvent {
    pub kind: String,
    pub paths: Vec<String>,
}

// ── Cloning ───────────────────────────────────────────────────────────
//
// Clones are written by hand so that verified callers know the copy
// equals the original.

fn clone_opt_string(o: &Option<String>) -> (r: Option<String>)
    ensures
        r == *o,
{
    match o {
        Some(s) => Some(s.clone()),
        None => None,
    }
}

impl Clone for Profile {
    fn clone(&self) -> (r: Self)
        ensures
            r == *self,
    {
        Profile {
            id: self.id.clone(),
            name: self.name.clone(),
            icon: self.icon.clone(),
            color: self.color.clone(),
            is_active: self.is_active,
            is_default: self.is_default,
            created_at: self.created_at.clone(),
            updated_at: self.updated_at.clone(),
        }
    }
}

impl Clone for Rule {
    fn clone(&self) -> (r: Self)
        ensures
            r == *self,
    {
        Rule {
            id: self.id.clone(),
            name: self.name.clone(),
            description: self.description.clone(),
            is_enabled: self.is_enabled,
            priority: self.priority,
            sort_order: self.sort_order,
            created_at: self.created_at.clone(),
            updated_at: self.updated_at.clone(),
        }
    }
}

impl Clone for RuleCondition {
    fn clone(&self) -> (r: Self)
        ensures
            r == *self,
    {
        RuleCondition {
            id: self.id.clone(),
            rule_id: self.rule_id.clone(),
            field: self.field.clone(),
            operator: self.operator.clone(),
            value: self.value.clone(),
            logic_gate: self.logic_gate.clone(),
            sort_order: self.sort_order,
            created_at: self.created_at.clone(),
        }
    }
}

impl Clone for RuleAction {
    fn clone(&self) -> (r: Self)
        ensures
            r == *self,
    {
        RuleAction {
            id: self.id.clone(),
            rule_id: self.rule_id.clone(),
            action_type: self.action_type.clone(),
            destination: self.destination.clone(),
            rename_pattern: self.rename_pattern.clone(),
            tag_name: self.tag_name.clone(),
            sort_order: self.sort_order,
            created_at: self.created_at.clone(),
        }
    }
}

impl Clone for WatchedFolder {
    fn clone(&self) -> (r: Self)
        ensures
            r == *self,
    {
        WatchedFolder {
            id: self.id.clone(),
            path: self.path.clone(),
            profile_id: self.profile_id.clone(),
            is_enabled: self.is_enabled,
            watch_mode: self.watch_mode.clone(),
            created_at: self.created_at.clone(),
            updated_at: self.updated_at.clone(),
        }
    }
}

impl Clone for Run {
    fn clone(&self) -> (r: Self)
        ensures
            r == *self,
    {
        Run {
            id: self.id.clone(),
            profile_id: self.profile_id.clone(),
            run_type: self.run_type.clone(),
            status: self.status.clone(),
            source_folder: self.source_folder.clone(),
            total_files: self.total_files,
            moved_files: self.moved_files,
            skipped_files: self.skipped_files,
            error_files: self.error_files,
            started_at: self.started_at.clone(),
            completed_at: clone_opt_string(&self.completed_at),
            rolled_back_at: clone_opt_string(&self.rolled_back_at),
            error_message: clone_opt_string(&self.error_message),
        }
    }
}

impl Clone for RunItem {
    fn clone(&self) -> (r: Self)
        ensures
            r == *self,
    {
        RunItem {
            id: self.id.clone(),
            run_id: self.run_id.clone(),
            rule_id: clone_opt_string(&self.rule_id),
            original_path: self.original_path.clone(),
            destination_path: self.destination_path.clone(),
            file_size: self.file_size,
            action_type: self.action_type.clone(),
            status: self.status.clone(),
            conflict_strategy: self.conflict_strategy.clone(),
            error_message: clone_opt_string(&self.error_message),
            executed_at: clone_opt_string(&self.executed_at),
            rolled_back_at: clone_opt_string(&self.rolled_back_at),
        }
    }
}

impl Clone for Schedule {
    fn clone(&self) -> (r: Self)
        ensures
            r == *self,
    {
        Schedule {
            id: self.id.clone(),
            profile_id: self.profile_id.clone(),
            folder_id: self.folder_id.clone(),
            cron_expr: self.cron_expr.clone(),
            is_enabled: self.is_enabled,
            last_run_at: clone_opt_string(&self.last_run_at),
            next_run_at: clone_opt_string(&self.next_run_at),
            created_at: self.created_at.clone(),
            updated_at: self.updated_at.clone(),
        }
    }
}

impl Clone for Setting {
    fn clone(&self) -> (r: Self)
        ensures
            r == *self,
    {
        Setting {
            key: self.key.clone(),
            value: self.value.clone(),
            updated_at: self.updated_at.clone(),
        }
    }
}

impl Clone for TipState {
    fn clone(&self) -> (r: Self)
        ensures
            r == *self,
    {
        TipState {
            id: self.id.clone(),
            times_shown: self.times_shown,
            last_shown_at: clone_opt_string(&self.last_shown_at),
            accepted: self.accepted,
            dismissed: self.dismissed,
            dismissed_at: clone_opt_string(&self.dismissed_at),
            cooldown_until: clone_opt_string(&self.cooldown_until),
            created_at: self.created_at.clone(),
            updated_at: self.updated_at.clone(),
        }
    }
}

impl Clone for FileEntry {
    fn clone(&self) -> (r: Self)
        ensures
            r == *self,
    {
        FileEntry {
            path: self.path.clone(),
            name: self.name.clone(),
            extension: self.extension.clone(),
            size: self.size,
            created_at: self.created_at.clone(),
            modified_at: self.modified_at.clone(),
        }
    }
}

impl Clone for SimulationItem {
    fn clone(&self) -> (r: Self)
        ensures
            r == *self,
    {
        SimulationItem {
            file: self.file.clone(),
            rule_id: self.rule_id.clone(),
            rule_name: self.rule_name.clone(),
            action_type: self.action_type.clone(),
            destination: self.destination.clone(),
            conflict: self.conflict,
        }
    }
}

impl Clone for InstallationRecord {
    fn clone(&self) -> (r: Self)
        ensures
            r == *self,
    {
        InstallationRecord {
            email: self.email.clone(),
            license_key: self.license_key.clone(),
            machine_fingerprint: self.machine_fingerprint.clone(),
            installed_at: self.installed_at.clone(),
        }
    }
}

impl Clone for LicenseStatus {
    fn clone(&self) -> (r: Self)
        ensures
            r == *self,
    {
        LicenseStatus {
            is_licensed: self.is_licensed,
            email: self.email.clone(),
            hardware_id: self.hardware_id.clone(),
            message: self.message.clone(),
        }
    }
}

/// Clones a list of actions.
pub fn clone_actions(v: &Vec<RuleAction>) -> (r: Vec<RuleAction>)
    ensures
        r@ == v@,
{
    let mut r: Vec<RuleAction> = Vec::new();
    let mut i: usize = 0;
    while i < v.len()
        invariant
            i <= v@.len(),
            r@ == v@.take(i as int),
        decreases v@.len() - i,
    {
        r.push(v[i].clone());
        i = i + 1;
        proof {
            assert(r@ =~= v@.take(i as int));
        }
    }
    proof {
        assert(v@.take(v@.len() as int) =~= v@);
    }
    r
}

/// Clones a list of conditions.
pub fn clone_conditions(v: &Vec<RuleCondition>) -> (r: Vec<RuleCondition>)
    ensures
        r@ == v@,
{
    let mut r: Vec<RuleCondition> = Vec::new();
    let mut i: usize = 0;
    while i < v.len()
        invariant
            i <= v@.len(),
            r@ == v@.take(i as int),
        decreases v@.len() - i,
    {
        r.push(v[i].clone());
        i = i + 1;
        proof {
            assert(r@ =~= v@.take(i as int));
        }
    }
    proof {
        assert(v@.take(v@.len() as int) =~= v@);
    }
    r
}

} // verus!
