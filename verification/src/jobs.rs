//! The jobs started from the main screen: reboot, purge, cleanup, snapshot
//! creation and restore.
//!
//! A job alternates between deciding and doing. The decisions are here:
//! `start` and `advance` say what to do next, and the caller does it and comes
//! back with what happened.

use crate::paths::{join_text, path_join};
use crate::purge::{paths_in, purge_paths, PurgePlan, PurgePlanView};
use crate::restore::{OutcomeView, RestoreOutcome};
use crate::session::{
    App, AppView, MainAction, STATUS_CRITICAL, STATUS_LONG, STATUS_MEDIUM, STATUS_RESULT,
    STATUS_SHORT,
};
use crate::snapshots::SnapshotGroups;
use crate::text::{decimal, decimal_text, join, joined, texts};
use vstd::prelude::*;

verus! {

// ---------------------------------------------------------------------------
// Jobs

/// What the interface is in the middle of.
#[derive(Debug)]
pub enum Task {
    Idle,
    RebootAsked,
    Rebooting,
    PurgePlanning,
    PurgeAsked(PurgePlan),
    /// With the subvolumes that were skipped.
    Purging(Vec<String>),
    CleanAsked,
    Cleaning,
    CreateAsked,
    Creating,
    /// With the subvolume and the snapshot.
    RestoreLookup(String, String),
    RestoreAsked(String, String),
    Restoring(String),
}

/// What the interface is in the middle of, as text.
pub enum TaskView {
    Idle,
    RebootAsked,
    Rebooting,
    PurgePlanning,
    PurgeAsked(PurgePlanView),
    Purging(Seq<Seq<char>>),
    CleanAsked,
    Cleaning,
    CreateAsked,
    Creating,
    RestoreLookup(Seq<char>, Seq<char>),
    RestoreAsked(Seq<char>, Seq<char>),
    Restoring(Seq<char>),
}

impl View for Task {
    type V = TaskView;

    open spec fn view(&self) -> TaskView {
        match self {
            Task::Idle => TaskView::Idle,
            Task::RebootAsked => TaskView::RebootAsked,
            Task::Rebooting => TaskView::Rebooting,
            Task::PurgePlanning => TaskView::PurgePlanning,
            Task::PurgeAsked(plan) => TaskView::PurgeAsked(plan@),
            Task::Purging(skipped) => TaskView::Purging(texts(skipped@)),
            Task::CleanAsked => TaskView::CleanAsked,
            Task::Cleaning => TaskView::Cleaning,
            Task::CreateAsked => TaskView::CreateAsked,
            Task::Creating => TaskView::Creating,
            Task::RestoreLookup(subvol, snapshot) => TaskView::RestoreLookup(subvol@, snapshot@),
            Task::RestoreAsked(subvol, snapshot) => TaskView::RestoreAsked(subvol@, snapshot@),
            Task::Restoring(subvol) => TaskView::Restoring(subvol@),
        }
    }
}

/// What the caller has to do, and the event to come back with.
#[derive(Debug)]
pub enum Action {
    /// The job is over.
    Nothing,
    /// Ask a question: `Event::Answer`.
    Ask(String),
    /// Sync the disks and reboot: `Event::Ran`.
    Reboot,
    /// Work out a purge plan: `Event::Planned`.
    PlanPurge,
    /// Delete these subvolumes: `Event::Deleted`.
    Delete(Vec<String>),
    /// Delete the replaced subvolumes in the pool: `Event::Cleaned`.
    CleanBroken,
    /// Run btrbk: `Event::Ran`.
    CreateSnapshots,
    /// Does the path exist? `Event::Exists`.
    LookUp(String),
    /// Restore a subvolume from a snapshot: `Event::Restored`.
    Restore(String, String),
}

/// What the caller has to do, as text.
pub enum ActionView {
    Nothing,
    Ask(Seq<char>),
    Reboot,
    PlanPurge,
    Delete(Seq<Seq<char>>),
    CleanBroken,
    CreateSnapshots,
    LookUp(Seq<char>),
    Restore(Seq<char>, Seq<char>),
}

impl View for Action {
    type V = ActionView;

    open spec fn view(&self) -> ActionView {
        match self {
            Action::Nothing => ActionView::Nothing,
            Action::Ask(question) => ActionView::Ask(question@),
            Action::Reboot => ActionView::Reboot,
            Action::PlanPurge => ActionView::PlanPurge,
            Action::Delete(paths) => ActionView::Delete(texts(paths@)),
            Action::CleanBroken => ActionView::CleanBroken,
            Action::CreateSnapshots => ActionView::CreateSnapshots,
            Action::LookUp(path) => ActionView::LookUp(path@),
            Action::Restore(subvol, snapshot) => ActionView::Restore(subvol@, snapshot@),
        }
    }
}

/// What happened.
#[derive(Debug)]
pub enum Event {
    Answer(bool),
    Ran(Result<(), String>),
    Planned(Result<PurgePlan, String>),
    /// How many were deleted, and how many could not be.
    Deleted(usize, usize),
    Cleaned(Result<(usize, usize), String>),
    Exists(bool),
    Restored(RestoreOutcome),
}

/// What happened, as text.
pub enum EventView {
    Answer(bool),
    Ran(Result<(), Seq<char>>),
    Planned(Result<PurgePlanView, Seq<char>>),
    Deleted(usize, usize),
    Cleaned(Result<(usize, usize), Seq<char>>),
    Exists(bool),
    Restored(OutcomeView),
}

impl View for Event {
    type V = EventView;

    open spec fn view(&self) -> EventView {
        match self {
            Event::Answer(yes) => EventView::Answer(*yes),
            Event::Ran(Ok(())) => EventView::Ran(Ok(())),
            Event::Ran(Err(reason)) => EventView::Ran(Err(reason@)),
            Event::Planned(Ok(plan)) => EventView::Planned(Ok(plan@)),
            Event::Planned(Err(reason)) => EventView::Planned(Err(reason@)),
            Event::Deleted(deleted, failed) => EventView::Deleted(*deleted, *failed),
            Event::Cleaned(Ok(counts)) => EventView::Cleaned(Ok(*counts)),
            Event::Cleaned(Err(reason)) => EventView::Cleaned(Err(reason@)),
            Event::Exists(yes) => EventView::Exists(*yes),
            Event::Restored(outcome) => EventView::Restored(outcome@),
        }
    }
}

/// The interface, the job it is in, and what is to be done next.
pub struct Turn {
    pub app: AppView,
    pub task: TaskView,
    pub action: ActionView,
}

/// The end of a job.
pub open spec fn idle(v: AppView) -> Turn {
    Turn { app: v, task: TaskView::Idle, action: ActionView::Nothing }
}

// ---------------------------------------------------------------------------
// Texts

/// The subvolumes that a purge left alone.
pub open spec fn skipped_text(skipped: Seq<Seq<char>>) -> Seq<char> {
    if skipped.len() == 0 {
        Seq::empty()
    } else {
        " ("@ + join(skipped, ", "@) + " skipped: not on the backup target)"@
    }
}

/// The question before a purge.
pub open spec fn purge_question(count: nat) -> Seq<char> {
    "Delete "@ + decimal(count) + " old snapshots? The backup chain is kept."@
}

/// What a purge has done.
pub open spec fn purged_text(deleted: nat, failed: nat, skipped: Seq<Seq<char>>) -> Seq<char> {
    if failed == 0 {
        "Purged "@ + decimal(deleted) + " old snapshots"@ + skipped_text(skipped)
    } else {
        "Purged "@ + decimal(deleted) + " old snapshots, "@ + decimal(failed)
            + " could NOT be deleted"@ + skipped_text(skipped)
    }
}

/// The question before a restore: it names the path that will be touched,
/// since with a wrong pool in the settings a new subvolume would be created
/// instead.
pub open spec fn restore_question(
    subvol: Seq<char>,
    snapshot: Seq<char>,
    target: Seq<char>,
    exists: bool,
) -> Seq<char> {
    "Restore "@ + subvol + " from "@ + snapshot + "?\n"@ + if exists {
        "Replaces "@ + target + " (the old one is kept as .BROKEN)"@
    } else {
        "WARNING: "@ + target + " does not exist, it will be CREATED"@
    }
}

fn skipped_words(skipped: &Vec<String>) -> (s: String)
    ensures
        s@ == skipped_text(texts(skipped@)),
{
    if skipped.len() == 0 {
        let s = String::new();
        assert(s@ =~= Seq::<char>::empty());
        return s;
    }
    let mut s = " (".to_owned();
    let names = joined(skipped, ", ");
    s.append(names.as_str());
    s.append(" skipped: not on the backup target)");
    s
}

fn purge_question_words(count: usize) -> (s: String)
    ensures
        s@ == purge_question(count as nat),
{
    let mut s = "Delete ".to_owned();
    let n = decimal_text(count as u64);
    s.append(n.as_str());
    s.append(" old snapshots? The backup chain is kept.");
    s
}

fn purged_words(deleted: usize, failed: usize, skipped: &Vec<String>) -> (s: String)
    ensures
        s@ == purged_text(deleted as nat, failed as nat, texts(skipped@)),
{
    let mut s = "Purged ".to_owned();
    let n = decimal_text(deleted as u64);
    s.append(n.as_str());
    let tail = skipped_words(skipped);
    if failed == 0 {
        s.append(" old snapshots");
    } else {
        s.append(" old snapshots, ");
        let n = decimal_text(failed as u64);
        s.append(n.as_str());
        s.append(" could NOT be deleted");
    }
    s.append(tail.as_str());
    s
}

fn restore_question_words(subvol: &str, snapshot: &str, target: &str, exists: bool) -> (s: String)
    ensures
        s@ == restore_question(subvol@, snapshot@, target@, exists),
{
    let mut effect = if exists {
        "Replaces ".to_owned()
    } else {
        "WARNING: ".to_owned()
    };
    effect.append(target);
    if exists {
        effect.append(" (the old one is kept as .BROKEN)");
    } else {
        effect.append(" does not exist, it will be CREATED");
    }
    let mut s = "Restore ".to_owned();
    s.append(subvol);
    s.append(" from ");
    s.append(snapshot);
    s.append("?\n");
    s.append(effect.as_str());
    s
}

/// A text between two others.
fn around(a: &str, text: &str, b: &str) -> (s: String)
    ensures
        s@ == a@ + text@ + b@,
{
    let mut s = a.to_owned();
    s.append(text);
    s.append(b);
    s
}

// ---------------------------------------------------------------------------
// Decisions

/// The snapshot under the selection, with its subvolume.
pub open spec fn selected_snapshot(v: AppView, groups: Seq<(String, Vec<String>)>) -> Option<
    (Seq<char>, Seq<char>),
> {
    if v.selected_col < groups.len() && v.selected_row < groups[v.selected_col as int].1@.len() {
        Some(
            (
                groups[v.selected_col as int].0@,
                groups[v.selected_col as int].1@[v.selected_row as int]@,
            ),
        )
    } else {
        None
    }
}

/// The path of a subvolume in the pool.
pub open spec fn subvolume_path(v: AppView, subvol: Seq<char>) -> Seq<char> {
    path_join(v.config.btr_pool_dir, subvol, '/')
}

pub open spec fn reboot_now(v: AppView) -> Turn {
    Turn { app: v, task: TaskView::Rebooting, action: ActionView::Reboot }
}

pub open spec fn purge_now(v: AppView, plan: PurgePlanView, now: u64) -> Turn {
    Turn {
        app: v.with_status("Purging old snapshots..."@, STATUS_SHORT, now),
        task: TaskView::Purging(plan.skipped),
        action: ActionView::Delete(paths_in(v.config.snapshots_dir, plan.delete)),
    }
}

pub open spec fn clean_now(v: AppView, now: u64) -> Turn {
    Turn {
        app: v.with_status("Cleaning .BROKEN subvolumes..."@, STATUS_SHORT, now),
        task: TaskView::Cleaning,
        action: ActionView::CleanBroken,
    }
}

pub open spec fn create_now(v: AppView) -> Turn {
    Turn { app: v, task: TaskView::Creating, action: ActionView::CreateSnapshots }
}

pub open spec fn restore_now(
    v: AppView,
    subvol: Seq<char>,
    snapshot: Seq<char>,
    now: u64,
) -> Turn {
    Turn {
        app: v.with_status("Restoring "@ + subvol + "..."@, STATUS_SHORT, now),
        task: TaskView::Restoring(subvol),
        action: ActionView::Restore(subvol, snapshot),
    }
}

/// Asks first, unless the settings say not to.
pub open spec fn confirmed_first(
    v: AppView,
    question: Seq<char>,
    asked: TaskView,
    go: Turn,
) -> Turn {
    if v.config.confirm_actions {
        Turn { app: v, task: asked, action: ActionView::Ask(question) }
    } else {
        go
    }
}

/// The first turn of a job.
pub open spec fn started(
    v: AppView,
    groups: Seq<(String, Vec<String>)>,
    wanted: MainAction,
    now: u64,
) -> Turn {
    match wanted {
        MainAction::Nothing => idle(v),
        MainAction::Reboot => if !v.reboot_needed {
            idle(v.with_status("No reboot needed"@, STATUS_SHORT, now))
        } else {
            confirmed_first(v, "Reboot system now?"@, TaskView::RebootAsked, reboot_now(v))
        },
        MainAction::Purge => Turn {
            app: v.with_status("Checking backup target..."@, STATUS_SHORT, now),
            task: TaskView::PurgePlanning,
            action: ActionView::PlanPurge,
        },
        MainAction::CleanBroken => confirmed_first(
            v,
            "Delete all .BROKEN subvolumes?"@,
            TaskView::CleanAsked,
            clean_now(v, now),
        ),
        MainAction::CreateSnapshot => confirmed_first(
            v,
            "Create new snapshots with btrbk?"@,
            TaskView::CreateAsked,
            create_now(v),
        ),
        MainAction::Restore => match selected_snapshot(v, groups) {
            Some((subvol, snapshot)) => Turn {
                app: v,
                task: TaskView::RestoreLookup(subvol, snapshot),
                action: ActionView::LookUp(subvolume_path(v, subvol)),
            },
            None => idle(v),
        },
    }
}

/// The turn after a purge has been planned.
pub open spec fn purge_planned(
    v: AppView,
    planned: Result<PurgePlanView, Seq<char>>,
    now: u64,
) -> Turn {
    match planned {
        Err(reason) => idle(
            v.with_status(
                "Nothing purged (chain left intact): "@ + reason,
                STATUS_RESULT,
                now,
            ),
        ),
        Ok(plan) => if plan.delete.len() == 0 {
            idle(
                v.with_status(
                    "No old snapshots to purge"@ + skipped_text(plan.skipped),
                    STATUS_LONG,
                    now,
                ),
            )
        } else {
            confirmed_first(
                v,
                purge_question(plan.delete.len()),
                TaskView::PurgeAsked(plan),
                purge_now(v, plan, now),
            )
        },
    }
}

/// The interface after the pool has been cleaned.
pub open spec fn cleaned(
    v: AppView,
    result: Result<(usize, usize), Seq<char>>,
    now: u64,
) -> AppView {
    match result {
        Err(reason) => v.stale().with_status("Error: "@ + reason, STATUS_LONG, now),
        Ok((deleted, failed)) => if deleted == 0 && failed == 0 {
            v.stale().with_status("No .BROKEN subvolumes found"@, STATUS_MEDIUM, now)
        } else if failed == 0 {
            v.stale().with_status(
                "Cleaned "@ + decimal(deleted as nat) + " .BROKEN subvolumes"@,
                STATUS_RESULT,
                now,
            )
        } else {
            v.stale().with_status(
                "Cleaned "@ + decimal(deleted as nat) + " .BROKEN subvolumes, "@ + decimal(
                    failed as nat,
                ) + " could NOT be deleted (still mounted?)"@,
                STATUS_RESULT,
                now,
            )
        },
    }
}

/// The interface after a restore.
pub open spec fn restored(v: AppView, subvol: Seq<char>, outcome: OutcomeView, now: u64) -> AppView {
    match outcome {
        OutcomeView::Success => (AppView { reboot_needed: true, ..v }).stale().with_status(
            subvol + " restored! Press H to reboot when ready"@,
            STATUS_RESULT,
            now,
        ),
        OutcomeView::Failed(reason) => v.stale().with_status(
            "Error: "@ + subvol + " restore failed, rolled back: "@ + reason,
            STATUS_RESULT,
            now,
        ),
        OutcomeView::RollbackFailed(reason) => v.stale().with_status(
            "CRITICAL: "@ + subvol
                + " restore AND rollback failed, manual recovery needed: "@ + reason,
            STATUS_CRITICAL,
            now,
        ),
    }
}

/// The turn after an event. One that does not belong to the job ends it.
pub open spec fn advanced(v: AppView, task: TaskView, event: EventView, now: u64) -> Turn {
    match (task, event) {
        (TaskView::RebootAsked, EventView::Answer(yes)) => if yes {
            reboot_now(v)
        } else {
            idle(v.with_status("Reboot cancelled"@, STATUS_SHORT, now))
        },
        (TaskView::Rebooting, EventView::Ran(result)) => match result {
            Ok(()) => idle(v),
            Err(reason) => idle(
                v.with_status("Error: reboot failed: "@ + reason, STATUS_LONG, now),
            ),
        },
        (TaskView::PurgePlanning, EventView::Planned(planned)) => purge_planned(v, planned, now),
        (TaskView::PurgeAsked(plan), EventView::Answer(yes)) => if yes {
            purge_now(v, plan, now)
        } else {
            idle(v.with_status("Purge cancelled"@, STATUS_SHORT, now))
        },
        (TaskView::Purging(skipped), EventView::Deleted(deleted, failed)) => idle(
            v.stale().with_status(
                purged_text(deleted as nat, failed as nat, skipped),
                STATUS_RESULT,
                now,
            ),
        ),
        (TaskView::CleanAsked, EventView::Answer(yes)) => if yes {
            clean_now(v, now)
        } else {
            idle(v.with_status("Clean cancelled"@, STATUS_SHORT, now))
        },
        (TaskView::Cleaning, EventView::Cleaned(result)) => idle(cleaned(v, result, now)),
        (TaskView::CreateAsked, EventView::Answer(yes)) => if yes {
            create_now(v)
        } else {
            idle(v.with_status("Snapshot creation cancelled"@, STATUS_SHORT, now))
        },
        (TaskView::Creating, EventView::Ran(result)) => match result {
            Ok(()) => idle(
                v.stale().with_status("Snapshots created successfully"@, STATUS_LONG, now),
            ),
            Err(reason) => idle(
                v.stale().with_status(
                    "Snapshot creation failed: "@ + reason,
                    STATUS_RESULT,
                    now,
                ),
            ),
        },
        (TaskView::RestoreLookup(subvol, snapshot), EventView::Exists(exists)) => confirmed_first(
            v,
            restore_question(subvol, snapshot, subvolume_path(v, subvol), exists),
            TaskView::RestoreAsked(subvol, snapshot),
            restore_now(v, subvol, snapshot, now),
        ),
        (TaskView::RestoreAsked(subvol, snapshot), EventView::Answer(yes)) => if yes {
            restore_now(v, subvol, snapshot, now)
        } else {
            idle(v.with_status("Restore cancelled"@, STATUS_SHORT, now))
        },
        (TaskView::Restoring(subvol), EventView::Restored(outcome)) => idle(
            restored(v, subvol, outcome, now),
        ),
        _ => idle(v),
    }
}

impl App {
    fn reboot(&mut self) -> (turn: (Task, Action))
        ensures
            (Turn { app: final(self)@, task: turn.0@, action: turn.1@ }) == reboot_now(old(self)@),
    {
        (Task::Rebooting, Action::Reboot)
    }

    fn purge(&mut self, plan: PurgePlan, now: u64) -> (turn: (Task, Action))
        ensures
            (Turn { app: final(self)@, task: turn.0@, action: turn.1@ }) == purge_now(
                old(self)@,
                plan@,
                now,
            ),
    {
        let paths = purge_paths(self.config.snapshots_dir.as_str(), &plan.delete);
        self.set_status("Purging old snapshots...", STATUS_SHORT, now);
        (Task::Purging(plan.skipped), Action::Delete(paths))
    }

    fn clean_broken(&mut self, now: u64) -> (turn: (Task, Action))
        ensures
            (Turn { app: final(self)@, task: turn.0@, action: turn.1@ }) == clean_now(
                old(self)@,
                now,
            ),
    {
        self.set_status("Cleaning .BROKEN subvolumes...", STATUS_SHORT, now);
        (Task::Cleaning, Action::CleanBroken)
    }

    fn create(&mut self) -> (turn: (Task, Action))
        ensures
            (Turn { app: final(self)@, task: turn.0@, action: turn.1@ }) == create_now(old(self)@),
    {
        (Task::Creating, Action::CreateSnapshots)
    }

    fn restore(&mut self, subvol: String, snapshot: String, now: u64) -> (turn: (Task, Action))
        ensures
            (Turn { app: final(self)@, task: turn.0@, action: turn.1@ }) == restore_now(
                old(self)@,
                subvol@,
                snapshot@,
                now,
            ),
    {
        let message = around("Restoring ", subvol.as_str(), "...");
        self.set_status(message.as_str(), STATUS_SHORT, now);
        (Task::Restoring(subvol.clone()), Action::Restore(subvol, snapshot))
    }

    fn handle_reboot(&mut self, now: u64) -> (turn: (Task, Action))
        ensures
            forall|groups: Seq<(String, Vec<String>)>|
                (Turn { app: final(self)@, task: turn.0@, action: turn.1@ }) == #[trigger] started(
                    old(self)@,
                    groups,
                    MainAction::Reboot,
                    now,
                ),
    {
        if !self.reboot_needed {
            self.set_status("No reboot needed", STATUS_SHORT, now);
            (Task::Idle, Action::Nothing)
        } else if self.config.confirm_actions {
            (Task::RebootAsked, Action::Ask("Reboot system now?".to_owned()))
        } else {
            self.reboot()
        }
    }

    /// A snapshot has been chosen to be restored.
    fn handle_snapshot_selection(&mut self, groups: &SnapshotGroups, now: u64) -> (turn: (
        Task,
        Action,
    ))
        ensures
            (Turn { app: final(self)@, task: turn.0@, action: turn.1@ }) == started(
                old(self)@,
                groups@,
                MainAction::Restore,
                now,
            ),
            old(self).selected_col < groups@.len() && old(self).selected_row < groups@[old(
                self,
            ).selected_col as int].1@.len() ==> turn.0@ == TaskView::RestoreLookup(
                groups@[old(self).selected_col as int].0@,
                groups@[old(self).selected_col as int].1@[old(self).selected_row as int]@,
            ),
    {
        if self.selected_col >= groups.len() {
            return (Task::Idle, Action::Nothing);
        }
        let group = &groups[self.selected_col];
        if self.selected_row >= group.1.len() {
            return (Task::Idle, Action::Nothing);
        }
        let snapshot = &group.1[self.selected_row];
        let target = join_text(self.config.btr_pool_dir.as_str(), group.0.as_str());
        (Task::RestoreLookup(group.0.clone(), snapshot.clone()), Action::LookUp(target))
    }

    /// Starts a job.
    pub fn start(&mut self, groups: &SnapshotGroups, wanted: MainAction, now: u64) -> (turn: (
        Task,
        Action,
    ))
        ensures
            (Turn { app: final(self)@, task: turn.0@, action: turn.1@ }) == started(
                old(self)@,
                groups@,
                wanted,
                now,
            ),
            wanted == MainAction::Restore && old(self).selected_col < groups@.len() && old(self).selected_row < groups@[old(
                self,
            ).selected_col as int].1@.len() ==> turn.0@ == TaskView::RestoreLookup(
                groups@[old(self).selected_col as int].0@,
                groups@[old(self).selected_col as int].1@[old(self).selected_row as int]@,
            ),
    {
        match wanted {
            MainAction::Nothing => (Task::Idle, Action::Nothing),
            MainAction::Reboot => self.handle_reboot(now),
            MainAction::Purge => {
                // querying the target takes a moment: say so before blocking
                self.set_status("Checking backup target...", STATUS_SHORT, now);
                (Task::PurgePlanning, Action::PlanPurge)
            },
            MainAction::CleanBroken => {
                if self.config.confirm_actions {
                    (
                        Task::CleanAsked,
                        Action::Ask("Delete all .BROKEN subvolumes?".to_owned()),
                    )
                } else {
                    self.clean_broken(now)
                }
            },
            MainAction::CreateSnapshot => {
                if self.config.confirm_actions {
                    (
                        Task::CreateAsked,
                        Action::Ask("Create new snapshots with btrbk?".to_owned()),
                    )
                } else {
                    self.create()
                }
            },
            MainAction::Restore => self.handle_snapshot_selection(groups, now),
        }
    }

    /// A purge has been planned, or could not be.
    fn handle_purge(&mut self, planned: Result<PurgePlan, String>, now: u64) -> (turn: (
        Task,
        Action,
    ))
        ensures
            (Turn { app: final(self)@, task: turn.0@, action: turn.1@ }) == purge_planned(
                old(self)@,
                match planned {
                    Ok(plan) => Ok(plan@),
                    Err(reason) => Err(reason@),
                },
                now,
            ),
    {
        match planned {
            Err(reason) => {
                let message = around("Nothing purged (chain left intact): ", reason.as_str(), "");
                proof {
                    reveal_strlit("");
                    assert(message@ =~= "Nothing purged (chain left intact): "@ + reason@);
                }
                self.set_status(message.as_str(), STATUS_RESULT, now);
                (Task::Idle, Action::Nothing)
            },
            Ok(plan) => {
                if plan.delete.len() == 0 {
                    let mut message = "No old snapshots to purge".to_owned();
                    let skipped = skipped_words(&plan.skipped);
                    message.append(skipped.as_str());
                    self.set_status(message.as_str(), STATUS_LONG, now);
                    (Task::Idle, Action::Nothing)
                } else if self.config.confirm_actions {
                    let question = purge_question_words(plan.delete.len());
                    (Task::PurgeAsked(plan), Action::Ask(question))
                } else {
                    self.purge(plan, now)
                }
            },
        }
    }

    /// The pool has been cleaned, or could not be.
    fn handle_clean_broken(&mut self, result: Result<(usize, usize), String>, now: u64)
        ensures
            final(self)@ == cleaned(
                old(self)@,
                match result {
                    Ok(counts) => Ok(counts),
                    Err(reason) => Err(reason@),
                },
                now,
            ),
    {
        self.invalidate_snapshots();
        match result {
            Err(reason) => {
                let mut message = "Error: ".to_owned();
                message.append(reason.as_str());
                self.set_status(message.as_str(), STATUS_LONG, now);
            },
            Ok((deleted, failed)) => {
                if deleted == 0 && failed == 0 {
                    self.set_status("No .BROKEN subvolumes found", STATUS_MEDIUM, now);
                } else {
                    let n = decimal_text(deleted as u64);
                    if failed == 0 {
                        let message = around("Cleaned ", n.as_str(), " .BROKEN subvolumes");
                        self.set_status(message.as_str(), STATUS_RESULT, now);
                    } else {
                        let mut message = around("Cleaned ", n.as_str(), " .BROKEN subvolumes, ");
                        let n = decimal_text(failed as u64);
                        message.append(n.as_str());
                        message.append(" could NOT be deleted (still mounted?)");
                        self.set_status(message.as_str(), STATUS_RESULT, now);
                    }
                }
            },
        }
    }

    /// A restore has ended.
    fn handle_restored(&mut self, subvol: &str, outcome: RestoreOutcome, now: u64)
        ensures
            final(self)@ == restored(old(self)@, subvol@, outcome@, now),
    {
        match outcome {
            RestoreOutcome::Success => {
                self.reboot_needed = true;
                let mut message = subvol.to_owned();
                message.append(" restored! Press H to reboot when ready");
                self.set_status(message.as_str(), STATUS_RESULT, now);
            },
            RestoreOutcome::Failed(reason) => {
                let mut message = around("Error: ", subvol, " restore failed, rolled back: ");
                message.append(reason.as_str());
                self.set_status(message.as_str(), STATUS_RESULT, now);
            },
            RestoreOutcome::RollbackFailed(reason) => {
                let mut message = around(
                    "CRITICAL: ",
                    subvol,
                    " restore AND rollback failed, manual recovery needed: ",
                );
                message.append(reason.as_str());
                self.set_status(message.as_str(), STATUS_CRITICAL, now);
            },
        }
        self.invalidate_snapshots();
    }

    /// btrbk has run, or could not: even a run that was interrupted may have
    /// created snapshots.
    fn handle_create_snapshot(&mut self, result: Result<(), String>, now: u64)
        ensures
            final(self)@ == match result {
                Ok(()) => old(self)@.stale().with_status(
                    "Snapshots created successfully"@,
                    STATUS_LONG,
                    now,
                ),
                Err(reason) => old(self)@.stale().with_status(
                    "Snapshot creation failed: "@ + reason@,
                    STATUS_RESULT,
                    now,
                ),
            },
    {
        self.invalidate_snapshots();
        match result {
            Ok(()) => {
                self.set_status("Snapshots created successfully", STATUS_LONG, now);
            },
            Err(reason) => {
                let mut message = "Snapshot creation failed: ".to_owned();
                message.append(reason.as_str());
                self.set_status(message.as_str(), STATUS_RESULT, now);
            },
        }
    }

    fn cancel(&mut self, message: &str, now: u64) -> (turn: (Task, Action))
        ensures
            (Turn { app: final(self)@, task: turn.0@, action: turn.1@ }) == idle(
                old(self)@.with_status(message@, STATUS_SHORT, now),
            ),
    {
        self.set_status(message, STATUS_SHORT, now);
        (Task::Idle, Action::Nothing)
    }

    /// Takes in what happened, and decides what comes next.
    pub fn advance(&mut self, task: Task, event: Event, now: u64) -> (turn: (Task, Action))
        ensures
            (Turn { app: final(self)@, task: turn.0@, action: turn.1@ }) == advanced(
                old(self)@,
                task@,
                event@,
                now,
            ),
    {
        match (task, event) {
            (Task::RebootAsked, Event::Answer(yes)) => {
                if yes {
                    self.reboot()
                } else {
                    self.cancel("Reboot cancelled", now)
                }
            },
            (Task::Rebooting, Event::Ran(result)) => {
                if let Err(reason) = result {
                    let mut message = "Error: reboot failed: ".to_owned();
                    message.append(reason.as_str());
                    self.set_status(message.as_str(), STATUS_LONG, now);
                }
                (Task::Idle, Action::Nothing)
            },
            (Task::PurgePlanning, Event::Planned(planned)) => self.handle_purge(planned, now),
            (Task::PurgeAsked(plan), Event::Answer(yes)) => {
                if yes {
                    self.purge(plan, now)
                } else {
                    self.cancel("Purge cancelled", now)
                }
            },
            (Task::Purging(skipped), Event::Deleted(deleted, failed)) => {
                self.invalidate_snapshots();
                let message = purged_words(deleted, failed, &skipped);
                self.set_status(message.as_str(), STATUS_RESULT, now);
                (Task::Idle, Action::Nothing)
            },
            (Task::CleanAsked, Event::Answer(yes)) => {
                if yes {
                    self.clean_broken(now)
                } else {
                    self.cancel("Clean cancelled", now)
                }
            },
            (Task::Cleaning, Event::Cleaned(result)) => {
                self.handle_clean_broken(result, now);
                (Task::Idle, Action::Nothing)
            },
            (Task::CreateAsked, Event::Answer(yes)) => {
                if yes {
                    self.create()
                } else {
                    self.cancel("Snapshot creation cancelled", now)
                }
            },
            (Task::Creating, Event::Ran(result)) => {
                self.handle_create_snapshot(result, now);
                (Task::Idle, Action::Nothing)
            },
            (Task::RestoreLookup(subvol, snapshot), Event::Exists(exists)) => {
                if self.config.confirm_actions {
                    let target = join_text(self.config.btr_pool_dir.as_str(), subvol.as_str());
                    let question = restore_question_words(
                        subvol.as_str(),
                        snapshot.as_str(),
                        target.as_str(),
                        exists,
                    );
                    (Task::RestoreAsked(subvol, snapshot), Action::Ask(question))
                } else {
                    self.restore(subvol, snapshot, now)
                }
            },
            (Task::RestoreAsked(subvol, snapshot), Event::Answer(yes)) => {
                if yes {
                    self.restore(subvol, snapshot, now)
                } else {
                    self.cancel("Restore cancelled", now)
                }
            },
            (Task::Restoring(subvol), Event::Restored(outcome)) => {
                self.handle_restored(subvol.as_str(), outcome, now);
                (Task::Idle, Action::Nothing)
            },
            _ => (Task::Idle, Action::Nothing),
        }
    }
}

// ---------------------------------------------------------------------------
// Laws

/// Whether an action changes anything outside the interface.
pub open spec fn is_critical(action: ActionView) -> bool {
    match action {
        ActionView::Reboot => true,
        ActionView::Delete(_) => true,
        ActionView::CleanBroken => true,
        ActionView::CreateSnapshots => true,
        ActionView::Restore(_, _) => true,
        _ => false,
    }
}

/// Unless the settings say not to ask, nothing critical is done before the
/// user has been asked and has agreed.
pub proof fn law_critical_actions_need_consent(
    v: AppView,
    groups: Seq<(String, Vec<String>)>,
    wanted: MainAction,
    task: TaskView,
    event: EventView,
    now: u64,
)
    requires
        v.config.confirm_actions,
    ensures
        !is_critical(started(v, groups, wanted, now).action),
        is_critical(advanced(v, task, event, now).action) ==> event == EventView::Answer(true),
{
}

/// A purge cannot be planned without the backup target: then nothing is
/// deleted and the job is over.
pub proof fn law_no_purge_without_the_target(v: AppView, reason: Seq<char>, now: u64)
    ensures
        ({
            let t = advanced(
                v,
                TaskView::PurgePlanning,
                EventView::Planned(Err(reason)),
                now,
            );
            &&& t.action == ActionView::Nothing
            &&& t.task == TaskView::Idle
        }),
{
}

/// What a purge deletes is what it planned to delete, and that many are asked
/// about.
pub proof fn law_purge_deletes_what_it_asked_about(v: AppView, plan: PurgePlanView, now: u64)
    requires
        plan.delete.len() > 0,
        v.config.confirm_actions,
    ensures
        ({
            let asked = advanced(v, TaskView::PurgePlanning, EventView::Planned(Ok(plan)), now);
            let agreed = advanced(asked.app, asked.task, EventView::Answer(true), now);
            &&& asked.action == ActionView::Ask(purge_question(plan.delete.len()))
            &&& agreed.action == ActionView::Delete(
                paths_in(v.config.snapshots_dir, plan.delete),
            )
        }),
{
}

/// A refusal ends the job and changes nothing but the message.
pub proof fn law_refusal_changes_nothing(v: AppView, task: TaskView, now: u64)
    ensures
        ({
            let t = advanced(v, task, EventView::Answer(false), now);
            &&& t.action == ActionView::Nothing
            &&& t.task == TaskView::Idle
            &&& (AppView { status: v.status, ..t.app }) == v
        }),
{
}

/// A reboot is called for by a successful restore and by nothing else, and
/// stays called for.
pub proof fn law_only_a_restore_calls_for_a_reboot(
    v: AppView,
    groups: Seq<(String, Vec<String>)>,
    wanted: MainAction,
    task: TaskView,
    event: EventView,
    now: u64,
)
    ensures
        started(v, groups, wanted, now).app.reboot_needed == v.reboot_needed,
        advanced(v, task, event, now).app.reboot_needed == (v.reboot_needed || (
        task is Restoring && event == EventView::Restored(OutcomeView::Success))),
{
}

/// How many turns a job has left at most.
pub open spec fn turns_left(task: TaskView) -> nat {
    match task {
        TaskView::Idle => 0,
        TaskView::Rebooting => 1,
        TaskView::Purging(_) => 1,
        TaskView::Cleaning => 1,
        TaskView::Creating => 1,
        TaskView::Restoring(_) => 1,
        TaskView::RebootAsked => 2,
        TaskView::PurgeAsked(_) => 2,
        TaskView::CleanAsked => 2,
        TaskView::CreateAsked => 2,
        TaskView::RestoreAsked(_, _) => 2,
        TaskView::PurgePlanning => 3,
        TaskView::RestoreLookup(_, _) => 3,
    }
}

/// Every event brings a job closer to its end, and a job without anything to
/// do is over.
pub proof fn law_jobs_end(v: AppView, task: TaskView, event: EventView, now: u64)
    requires
        task !is Idle,
    ensures
        turns_left(advanced(v, task, event, now).task) < turns_left(task),
        advanced(v, task, event, now).action is Nothing <==> advanced(
            v,
            task,
            event,
            now,
        ).task is Idle,
{
}

/// After anything that may have changed the snapshots they are read again.
pub proof fn law_changed_snapshots_are_read_again(v: AppView, task: TaskView, event: EventView, now: u64)
    requires
        event is Deleted && task is Purging || event is Restored && task is Restoring
            || event is Ran && task is Creating || event is Cleaned && task is Cleaning,
    ensures
        advanced(v, task, event, now).app.snapshots_cache is None,
{
}

// ---------------------------------------------------------------------------
// What the jobs are about, said of the selection, the plans and the results

/// A restore is of the snapshot under the cursor: the one in the selected row
/// of the selected column, and of that column's subvolume. Off the lists there
/// is nothing to restore.
pub proof fn law_the_selected_snapshot_is_restored(
    v: AppView,
    groups: Seq<(String, Vec<String>)>,
    now: u64,
)
    ensures
        v.selected_col < groups.len() && v.selected_row < groups[v.selected_col as int].1@.len()
            ==> started(v, groups, MainAction::Restore, now) == (Turn {
            app: v,
            task: TaskView::RestoreLookup(
                groups[v.selected_col as int].0@,
                groups[v.selected_col as int].1@[v.selected_row as int]@,
            ),
            action: ActionView::LookUp(
                path_join(v.config.btr_pool_dir, groups[v.selected_col as int].0@, '/'),
            ),
        }),
        v.selected_col >= groups.len() || v.selected_row >= groups[v.selected_col as int].1@.len()
            ==> started(v, groups, MainAction::Restore, now) == (Turn {
            app: v,
            task: TaskView::Idle,
            action: ActionView::Nothing,
        }),
{
}

/// Another row with another name is another restore.
pub proof fn law_other_rows_are_other_restores(
    v: AppView,
    w: AppView,
    groups: Seq<(String, Vec<String>)>,
    now: u64,
)
    requires
        v.selected_col == w.selected_col,
        v.selected_col < groups.len(),
        v.selected_row < groups[v.selected_col as int].1@.len(),
        w.selected_row < groups[v.selected_col as int].1@.len(),
        groups[v.selected_col as int].1@[v.selected_row as int]@
            != groups[v.selected_col as int].1@[w.selected_row as int]@,
    ensures
        started(v, groups, MainAction::Restore, now).task != started(
            w,
            groups,
            MainAction::Restore,
            now,
        ).task,
{
}

/// What was chosen is what is asked about and what is restored, with or without
/// the question.
pub proof fn law_what_was_chosen_is_restored(
    v: AppView,
    subvol: Seq<char>,
    snapshot: Seq<char>,
    exists: bool,
    now: u64,
)
    ensures
        ({
            let found = advanced(
                v,
                TaskView::RestoreLookup(subvol, snapshot),
                EventView::Exists(exists),
                now,
            );
            let agreed = advanced(
                v,
                TaskView::RestoreAsked(subvol, snapshot),
                EventView::Answer(true),
                now,
            );
            let target = path_join(v.config.btr_pool_dir, subvol, '/');
            &&& v.config.confirm_actions ==> found.task == TaskView::RestoreAsked(subvol, snapshot)
                && found.app == v && found.action == ActionView::Ask(
                "Restore "@ + subvol + " from "@ + snapshot + "?\n"@ + if exists {
                    "Replaces "@ + target + " (the old one is kept as .BROKEN)"@
                } else {
                    "WARNING: "@ + target + " does not exist, it will be CREATED"@
                },
            )
            &&& !v.config.confirm_actions ==> found == agreed
            &&& agreed.task == TaskView::Restoring(subvol)
            &&& agreed.action == ActionView::Restore(subvol, snapshot)
            &&& agreed.app == v.with_status("Restoring "@ + subvol + "..."@, 3_000_000_000, now)
        }),
{
}

/// A reboot is offered only when one is called for, and asked about unless the
/// settings say not to.
pub proof fn law_reboot_is_offered_when_called_for(
    v: AppView,
    groups: Seq<(String, Vec<String>)>,
    now: u64,
)
    ensures
        ({
            let t = started(v, groups, MainAction::Reboot, now);
            &&& !v.reboot_needed ==> t.action is Nothing && t.task is Idle && t.app
                == v.with_status("No reboot needed"@, 3_000_000_000, now)
            &&& v.reboot_needed && v.config.confirm_actions ==> t.action == ActionView::Ask(
                "Reboot system now?"@,
            ) && t.task is RebootAsked && t.app == v
            &&& v.reboot_needed && !v.config.confirm_actions ==> t.action is Reboot && t.task
                is Rebooting && t.app == v
        }),
{
}

/// A cleanup, new snapshots and a purge begin with what they are for; the first
/// two are asked about unless the settings say not to, a purge is planned first.
pub proof fn law_jobs_begin_with_what_they_are_for(
    v: AppView,
    groups: Seq<(String, Vec<String>)>,
    now: u64,
)
    ensures
        ({
            let clean = started(v, groups, MainAction::CleanBroken, now);
            let create = started(v, groups, MainAction::CreateSnapshot, now);
            let purge = started(v, groups, MainAction::Purge, now);
            let nothing = started(v, groups, MainAction::Nothing, now);
            &&& v.config.confirm_actions ==> clean.action == ActionView::Ask(
                "Delete all .BROKEN subvolumes?"@,
            ) && clean.task is CleanAsked && clean.app == v
            &&& !v.config.confirm_actions ==> clean.action is CleanBroken && clean.task is Cleaning
                && clean.app == v.with_status("Cleaning .BROKEN subvolumes..."@, 3_000_000_000, now)
            &&& v.config.confirm_actions ==> create.action == ActionView::Ask(
                "Create new snapshots with btrbk?"@,
            ) && create.task is CreateAsked && create.app == v
            &&& !v.config.confirm_actions ==> create.action is CreateSnapshots && create.task
                is Creating && create.app == v
            &&& purge.action is PlanPurge && purge.task is PurgePlanning && purge.app
                == v.with_status("Checking backup target..."@, 3_000_000_000, now)
            &&& nothing.action is Nothing && nothing.task is Idle && nothing.app == v
        }),
{
}

/// Once the user agrees, what was asked about is done.
pub proof fn law_agreement_starts_the_work(v: AppView, plan: PurgePlanView, now: u64)
    ensures
        advanced(v, TaskView::RebootAsked, EventView::Answer(true), now) == (Turn {
            app: v,
            task: TaskView::Rebooting,
            action: ActionView::Reboot,
        }),
        advanced(v, TaskView::CleanAsked, EventView::Answer(true), now) == (Turn {
            app: v.with_status("Cleaning .BROKEN subvolumes..."@, 3_000_000_000, now),
            task: TaskView::Cleaning,
            action: ActionView::CleanBroken,
        }),
        advanced(v, TaskView::CreateAsked, EventView::Answer(true), now) == (Turn {
            app: v,
            task: TaskView::Creating,
            action: ActionView::CreateSnapshots,
        }),
        advanced(v, TaskView::PurgeAsked(plan), EventView::Answer(true), now) == (Turn {
            app: v.with_status("Purging old snapshots..."@, 3_000_000_000, now),
            task: TaskView::Purging(plan.skipped),
            action: ActionView::Delete(paths_in(v.config.snapshots_dir, plan.delete)),
        }),
{
}

/// The paths that a purge deletes are those of the planned snapshots in the
/// snapshots directory, each one and no other.
pub proof fn law_purge_deletes_the_planned_snapshots(
    v: AppView,
    plan: PurgePlanView,
    now: u64,
    i: int,
)
    requires
        plan.delete.len() > 0,
        0 <= i < plan.delete.len(),
    ensures
        ({
            let agreed = advanced(v, TaskView::PurgeAsked(plan), EventView::Answer(true), now);
            let planned = advanced(v, TaskView::PurgePlanning, EventView::Planned(Ok(plan)), now);
            &&& agreed.action matches ActionView::Delete(paths) && paths.len()
                == plan.delete.len() && paths[i] == path_join(
                v.config.snapshots_dir,
                plan.delete[i],
                '/',
            )
            &&& !v.config.confirm_actions ==> planned == agreed
            &&& v.config.confirm_actions ==> planned.task == TaskView::PurgeAsked(plan)
                && planned.app == v && planned.action == ActionView::Ask(
                "Delete "@ + decimal(plan.delete.len())
                    + " old snapshots? The backup chain is kept."@,
            )
        }),
{
}

/// A plan that deletes nothing is reported, with what was skipped, and one that
/// could not be made is reported with the reason; nothing is done then.
pub proof fn law_purges_without_work_are_reported(
    v: AppView,
    skipped: Seq<Seq<char>>,
    reason: Seq<char>,
    now: u64,
)
    ensures
        advanced(
            v,
            TaskView::PurgePlanning,
            EventView::Planned(Ok(PurgePlanView { delete: Seq::empty(), skipped })),
            now,
        ) == (Turn {
            app: v.with_status(
                "No old snapshots to purge"@ + skipped_text(skipped),
                10_000_000_000,
                now,
            ),
            task: TaskView::Idle,
            action: ActionView::Nothing,
        }),
        advanced(v, TaskView::PurgePlanning, EventView::Planned(Err(reason)), now) == (Turn {
            app: v.with_status(
                "Nothing purged (chain left intact): "@ + reason,
                15_000_000_000,
                now,
            ),
            task: TaskView::Idle,
            action: ActionView::Nothing,
        }),
        skipped.len() == 0 ==> skipped_text(skipped).len() == 0,
        skipped.len() > 0 ==> skipped_text(skipped) == " ("@ + join(skipped, ", "@)
            + " skipped: not on the backup target)"@,
{
}

/// The result of a purge says how many snapshots are gone, how many could not
/// be deleted, and what was skipped.
pub proof fn law_purges_are_reported(
    v: AppView,
    skipped: Seq<Seq<char>>,
    deleted: usize,
    failed: usize,
    now: u64,
)
    ensures
        advanced(v, TaskView::Purging(skipped), EventView::Deleted(deleted, failed), now) == (Turn {
            app: v.stale().with_status(
                "Purged "@ + decimal(deleted as nat) + (if failed == 0 {
                    " old snapshots"@
                } else {
                    " old snapshots, "@ + decimal(failed as nat) + " could NOT be deleted"@
                }) + skipped_text(skipped),
                15_000_000_000,
                now,
            ),
            task: TaskView::Idle,
            action: ActionView::Nothing,
        }),
{
    let said = "Purged "@ + decimal(deleted as nat) + (if failed == 0 {
        " old snapshots"@
    } else {
        " old snapshots, "@ + decimal(failed as nat) + " could NOT be deleted"@
    }) + skipped_text(skipped);
    assert(purged_text(deleted as nat, failed as nat, skipped) =~= said);
}

/// The result of a cleanup says how many subvolumes are gone and how many could
/// not be deleted, or why there was no cleanup.
pub proof fn law_cleanups_are_reported(
    v: AppView,
    deleted: usize,
    failed: usize,
    reason: Seq<char>,
    now: u64,
)
    ensures
        ({
            let done = advanced(
                v,
                TaskView::Cleaning,
                EventView::Cleaned(Ok((deleted, failed))),
                now,
            );
            let not_done = advanced(v, TaskView::Cleaning, EventView::Cleaned(Err(reason)), now);
            let cleaned = "Cleaned "@ + decimal(deleted as nat) + " .BROKEN subvolumes"@;
            &&& done.task is Idle && not_done.task is Idle
            &&& not_done.app == v.stale().with_status("Error: "@ + reason, 10_000_000_000, now)
            &&& deleted == 0 && failed == 0 ==> done.app == v.stale().with_status(
                "No .BROKEN subvolumes found"@,
                5_000_000_000,
                now,
            )
            &&& deleted > 0 && failed == 0 ==> done.app == v.stale().with_status(
                cleaned,
                15_000_000_000,
                now,
            )
            &&& failed > 0 ==> done.app == v.stale().with_status(
                cleaned + ", "@ + decimal(failed as nat)
                    + " could NOT be deleted (still mounted?)"@,
                15_000_000_000,
                now,
            )
        }),
{
    reveal_strlit(" .BROKEN subvolumes");
    reveal_strlit(" .BROKEN subvolumes, ");
    reveal_strlit(", ");
    let n = decimal(deleted as nat);
    assert(" .BROKEN subvolumes, "@ =~= " .BROKEN subvolumes"@ + ", "@);
    assert("Cleaned "@ + n + " .BROKEN subvolumes, "@ + decimal(failed as nat)
        + " could NOT be deleted (still mounted?)"@ =~= "Cleaned "@ + n + " .BROKEN subvolumes"@
        + ", "@ + decimal(failed as nat) + " could NOT be deleted (still mounted?)"@);
}

/// The result of a restore, of new snapshots and of a reboot is said, with the
/// reason where it failed; a failed rollback is said the longest.
pub proof fn law_results_are_reported(v: AppView, subvol: Seq<char>, reason: Seq<char>, now: u64)
    ensures
        advanced(
            v,
            TaskView::Restoring(subvol),
            EventView::Restored(OutcomeView::Success),
            now,
        ).app == (AppView { reboot_needed: true, ..v }).stale().with_status(
            subvol + " restored! Press H to reboot when ready"@,
            15_000_000_000,
            now,
        ),
        advanced(
            v,
            TaskView::Restoring(subvol),
            EventView::Restored(OutcomeView::Failed(reason)),
            now,
        ).app == v.stale().with_status(
            "Error: "@ + subvol + " restore failed, rolled back: "@ + reason,
            15_000_000_000,
            now,
        ),
        advanced(
            v,
            TaskView::Restoring(subvol),
            EventView::Restored(OutcomeView::RollbackFailed(reason)),
            now,
        ).app == v.stale().with_status(
            "CRITICAL: "@ + subvol + " restore AND rollback failed, manual recovery needed: "@
                + reason,
            60_000_000_000,
            now,
        ),
        advanced(v, TaskView::Creating, EventView::Ran(Ok(())), now).app == v.stale().with_status(
            "Snapshots created successfully"@,
            10_000_000_000,
            now,
        ),
        advanced(v, TaskView::Creating, EventView::Ran(Err(reason)), now).app
            == v.stale().with_status("Snapshot creation failed: "@ + reason, 15_000_000_000, now),
        advanced(v, TaskView::Rebooting, EventView::Ran(Ok(())), now).app == v,
        advanced(v, TaskView::Rebooting, EventView::Ran(Err(reason)), now).app == v.with_status(
            "Error: reboot failed: "@ + reason,
            10_000_000_000,
            now,
        ),
{
}

/// A refusal says what was cancelled.
pub proof fn law_refusals_are_reported(
    v: AppView,
    plan: PurgePlanView,
    subvol: Seq<char>,
    snapshot: Seq<char>,
    now: u64,
)
    ensures
        advanced(v, TaskView::RebootAsked, EventView::Answer(false), now).app == v.with_status(
            "Reboot cancelled"@,
            3_000_000_000,
            now,
        ),
        advanced(v, TaskView::PurgeAsked(plan), EventView::Answer(false), now).app == v.with_status(
            "Purge cancelled"@,
            3_000_000_000,
            now,
        ),
        advanced(v, TaskView::CleanAsked, EventView::Answer(false), now).app == v.with_status(
            "Clean cancelled"@,
            3_000_000_000,
            now,
        ),
        advanced(v, TaskView::CreateAsked, EventView::Answer(false), now).app == v.with_status(
            "Snapshot creation cancelled"@,
            3_000_000_000,
            now,
        ),
        advanced(
            v,
            TaskView::RestoreAsked(subvol, snapshot),
            EventView::Answer(false),
            now,
        ).app == v.with_status("Restore cancelled"@, 3_000_000_000, now),
{
}

/// The views of jobs show what they hold.
pub proof fn law_views_of_jobs_show_what_they_hold(
    plan: PurgePlan,
    list: Vec<String>,
    a: String,
    b: String,
    yes: bool,
    deleted: usize,
    failed: usize,
    outcome: RestoreOutcome,
)
    ensures
        Task::PurgeAsked(plan)@ == TaskView::PurgeAsked(plan@),
        Task::Purging(list)@ == TaskView::Purging(texts(list@)),
        Task::RestoreLookup(a, b)@ == TaskView::RestoreLookup(a@, b@),
        Task::RestoreAsked(a, b)@ == TaskView::RestoreAsked(a@, b@),
        Task::Restoring(a)@ == TaskView::Restoring(a@),
        Task::Idle@ is Idle,
        Task::RebootAsked@ is RebootAsked,
        Task::Rebooting@ is Rebooting,
        Task::PurgePlanning@ is PurgePlanning,
        Task::CleanAsked@ is CleanAsked,
        Task::Cleaning@ is Cleaning,
        Task::CreateAsked@ is CreateAsked,
        Task::Creating@ is Creating,
        Action::Nothing@ is Nothing,
        Action::Ask(a)@ == ActionView::Ask(a@),
        Action::Reboot@ is Reboot,
        Action::PlanPurge@ is PlanPurge,
        Action::Delete(list)@ == ActionView::Delete(texts(list@)),
        Action::CleanBroken@ is CleanBroken,
        Action::CreateSnapshots@ is CreateSnapshots,
        Action::LookUp(a)@ == ActionView::LookUp(a@),
        Action::Restore(a, b)@ == ActionView::Restore(a@, b@),
        Event::Answer(yes)@ == EventView::Answer(yes),
        Event::Ran(Ok(()))@ == EventView::Ran(Ok(())),
        Event::Ran(Err(a))@ == EventView::Ran(Err(a@)),
        Event::Planned(Ok(plan))@ == EventView::Planned(Ok(plan@)),
        Event::Planned(Err(a))@ == EventView::Planned(Err(a@)),
        Event::Deleted(deleted, failed)@ == EventView::Deleted(deleted, failed),
        Event::Cleaned(Ok((deleted, failed)))@ == EventView::Cleaned(Ok((deleted, failed))),
        Event::Cleaned(Err(a))@ == EventView::Cleaned(Err(a@)),
        Event::Exists(yes)@ == EventView::Exists(yes),
        Event::Restored(outcome)@ == EventView::Restored(outcome@),
{
}

} // verus!
