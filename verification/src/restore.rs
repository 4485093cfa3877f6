//! Replacing a subvolume by a snapshot of it, with the previous one kept as
//! `.BROKEN` and put back when anything goes wrong.
//!
//! The steps touch the disk, so they are performed by the caller: `step` says
//! what to do next, `reply` takes in what came of it.

use crate::config::{Config, ConfigView};
use crate::mounts::{
    describes_mount, kind_of, law_the_last_mount_is_in_effect, subvolume_at, subvolume_kind,
    SubvolumeKind,
};
use crate::paths::{join_text, path_join};
use crate::snapshots::DirEntry;
use crate::text::{
    equal_to, find, law_the_first_occurrence_is_found, lemma_run_len_is, lines, occurs_at,
    position_of_text, texts, to_chars,
};
use crate::timestamp::{law_stamps_tell_seconds_apart, stamp, stamp_text, Timestamp};
use vstd::prelude::*;

verus! {

/// How a restore ended. The failures carry the reason.
#[derive(Debug, PartialEq)]
pub enum RestoreOutcome {
    /// Restored and verified.
    Success,
    /// Failed, but rolled back: everything is as it was before.
    Failed(String),
    /// Failed, and so did the rollback: someone has to step in.
    RollbackFailed(String),
}

/// A restore's end, as text.
pub enum OutcomeView {
    Success,
    Failed(Seq<char>),
    RollbackFailed(Seq<char>),
}

impl View for RestoreOutcome {
    type V = OutcomeView;

    open spec fn view(&self) -> OutcomeView {
        match self {
            RestoreOutcome::Success => OutcomeView::Success,
            RestoreOutcome::Failed(reason) => OutcomeView::Failed(reason@),
            RestoreOutcome::RollbackFailed(reason) => OutcomeView::RollbackFailed(reason@),
        }
    }
}

/// How far a restore has come: what its next step finds out or does.
#[derive(Debug, Clone, Copy, PartialEq, Eq, Structural)]
pub enum Stage {
    /// Is there a snapshot to restore?
    CheckSource,
    /// Is there a subvolume to replace?
    CheckCurrent,
    /// Is it really a subvolume?
    GuardCurrent,
    /// Is the name it is to be kept under free?
    CheckBroken,
    /// Move it out of the way.
    MoveAside,
    /// Put a snapshot in its place.
    TakeSnapshot,
    /// Is the restored subvolume there?
    VerifyExists,
    /// Is it a subvolume?
    VerifySubvolume,
    /// What is mounted where?
    ReadMounts,
    /// Does a restored root have the n-th thing that a root must have?
    VerifyRoot(u8),
    /// Does a restored home hold anything?
    VerifyHome,
    /// Can any other restored subvolume be read?
    VerifyOther,
    /// Remove a restored subvolume that failed its checks.
    RemoveFailed,
    /// Put the previous subvolume back.
    RollBack,
    /// Delete the previous subvolume.
    CleanUp,
    /// All done.
    Finished,
}

/// A restore in progress.
#[derive(Debug)]
pub struct Restore {
    /// The name of the subvolume.
    pub subvol_name: String,
    /// The snapshot that is restored.
    pub source: String,
    /// The path of the subvolume.
    pub current: String,
    /// The path under which the previous subvolume is kept.
    pub broken: String,
    /// Whether the previous subvolume is deleted after a success.
    pub auto_cleanup: bool,
    /// Whether there was a previous subvolume.
    pub existed: bool,
    pub stage: Stage,
    /// Why the restore is being rolled back.
    pub reason: String,
    /// How it ended, once it has.
    pub outcome: RestoreOutcome,
}

/// A restore in progress, as text.
pub struct RestoreView {
    pub subvol_name: Seq<char>,
    pub source: Seq<char>,
    pub current: Seq<char>,
    pub broken: Seq<char>,
    pub auto_cleanup: bool,
    pub existed: bool,
    pub stage: Stage,
    pub reason: Seq<char>,
    pub outcome: OutcomeView,
}

impl View for Restore {
    type V = RestoreView;

    open spec fn view(&self) -> RestoreView {
        RestoreView {
            subvol_name: self.subvol_name@,
            source: self.source@,
            current: self.current@,
            broken: self.broken@,
            auto_cleanup: self.auto_cleanup,
            existed: self.existed,
            stage: self.stage,
            reason: self.reason@,
            outcome: self.outcome@,
        }
    }
}

/// Something to find out or to do on the disk.
#[derive(Debug, PartialEq)]
pub enum Step {
    /// Does the path exist?
    Exists(String),
    /// Is the path a file?
    IsFile(String),
    /// Can the directory be read, and is anything in it?
    ReadDir(String),
    /// What does /proc/self/mountinfo say?
    ReadMounts,
    /// Rename, without ever copying.
    Rename(String, String),
    /// `btrfs subvolume show`
    Show(String),
    /// `btrfs subvolume snapshot`
    Snapshot(String, String),
    /// `btrfs subvolume delete`
    Delete(String),
    /// Nothing more.
    Finish,
}

/// A step, as text.
pub enum StepView {
    Exists(Seq<char>),
    IsFile(Seq<char>),
    ReadDir(Seq<char>),
    ReadMounts,
    Rename(Seq<char>, Seq<char>),
    Show(Seq<char>),
    Snapshot(Seq<char>, Seq<char>),
    Delete(Seq<char>),
    Finish,
}

impl View for Step {
    type V = StepView;

    open spec fn view(&self) -> StepView {
        match self {
            Step::Exists(path) => StepView::Exists(path@),
            Step::IsFile(path) => StepView::IsFile(path@),
            Step::ReadDir(path) => StepView::ReadDir(path@),
            Step::ReadMounts => StepView::ReadMounts,
            Step::Rename(from, to) => StepView::Rename(from@, to@),
            Step::Show(path) => StepView::Show(path@),
            Step::Snapshot(from, to) => StepView::Snapshot(from@, to@),
            Step::Delete(path) => StepView::Delete(path@),
            Step::Finish => StepView::Finish,
        }
    }
}

/// What came of a step.
#[derive(Debug)]
pub struct Reply {
    /// The answer to a question; whether an action succeeded.
    pub ok: bool,
    /// Whether a directory that was read holds anything.
    pub nonempty: bool,
    /// Why an action failed or a directory could not be read; the content of
    /// a file that was read, empty when it could not be.
    pub text: String,
}

/// What came of a step, as text.
pub struct ReplyView {
    pub ok: bool,
    pub nonempty: bool,
    pub text: Seq<char>,
}

impl View for Reply {
    type V = ReplyView;

    open spec fn view(&self) -> ReplyView {
        ReplyView { ok: self.ok, nonempty: self.nonempty, text: self.text@ }
    }
}

/// How many things a restored root must have.
pub const ROOT_ENTRIES: u8 = 6;

/// How many of them may be anything; the others are files.
pub const ROOT_DIRS: u8 = 4;

/// The n-th thing that a restored root must have.
pub open spec fn root_entry(n: u8) -> Seq<char> {
    if n == 0 {
        "etc"@
    } else if n == 1 {
        "usr"@
    } else if n == 2 {
        "var"@
    } else if n == 3 {
        "bin"@
    } else if n == 4 {
        "etc/fstab"@
    } else {
        "etc/passwd"@
    }
}

/// The path under which a subvolume that is replaced at `timestamp` is kept.
pub open spec fn broken_path(
    pool: Seq<char>,
    subvol_name: Seq<char>,
    timestamp: Seq<char>,
) -> Seq<char> {
    path_join(pool, subvol_name + ".BROKEN."@ + timestamp, '/')
}

impl RestoreView {
    /// A restore that has not begun.
    pub open spec fn start(
        config: ConfigView,
        snapshot: Seq<char>,
        subvol_name: Seq<char>,
        timestamp: Seq<char>,
    ) -> RestoreView {
        RestoreView {
            subvol_name,
            source: path_join(config.snapshots_dir, snapshot, '/'),
            current: path_join(config.btr_pool_dir, subvol_name, '/'),
            broken: broken_path(config.btr_pool_dir, subvol_name, timestamp),
            auto_cleanup: config.auto_cleanup,
            existed: false,
            stage: Stage::CheckSource,
            reason: Seq::empty(),
            outcome: OutcomeView::Success,
        }
    }

    /// What is to be done next.
    pub open spec fn step(self) -> StepView {
        match self.stage {
            Stage::CheckSource => StepView::Exists(self.source),
            Stage::CheckCurrent => StepView::Exists(self.current),
            Stage::GuardCurrent => StepView::Show(self.current),
            Stage::CheckBroken => StepView::Exists(self.broken),
            Stage::MoveAside => StepView::Rename(self.current, self.broken),
            Stage::TakeSnapshot => StepView::Snapshot(self.source, self.current),
            Stage::VerifyExists => StepView::Exists(self.current),
            Stage::VerifySubvolume => StepView::Show(self.current),
            Stage::ReadMounts => StepView::ReadMounts,
            Stage::VerifyRoot(n) => if n < ROOT_DIRS {
                StepView::Exists(path_join(self.current, root_entry(n), '/'))
            } else {
                StepView::IsFile(path_join(self.current, root_entry(n), '/'))
            },
            Stage::VerifyHome => StepView::ReadDir(self.current),
            Stage::VerifyOther => StepView::ReadDir(self.current),
            Stage::RemoveFailed => StepView::Delete(self.current),
            Stage::RollBack => StepView::Rename(self.broken, self.current),
            Stage::CleanUp => StepView::Delete(self.broken),
            Stage::Finished => StepView::Finish,
        }
    }

    /// On to another stage.
    pub open spec fn at(self, stage: Stage) -> RestoreView {
        RestoreView { stage, ..self }
    }

    /// The end.
    pub open spec fn ended(self, outcome: OutcomeView) -> RestoreView {
        RestoreView { stage: Stage::Finished, outcome, ..self }
    }

    /// The previous subvolume has to be put back, if there was one.
    pub open spec fn rolling_back(self, reason: Seq<char>) -> RestoreView {
        if self.existed {
            RestoreView { stage: Stage::RollBack, reason, ..self }
        } else {
            self.ended(OutcomeView::Failed(reason))
        }
    }

    /// The restored subvolume failed its checks.
    pub open spec fn rejected(self, reason: Seq<char>) -> RestoreView {
        RestoreView { stage: Stage::RemoveFailed, reason, ..self }
    }

    /// The restored subvolume passed its checks.
    pub open spec fn verified(self) -> RestoreView {
        if self.auto_cleanup && self.existed {
            self.at(Stage::CleanUp)
        } else {
            self.ended(OutcomeView::Success)
        }
    }

    /// The restore after its step has been done, with what came of it.
    pub open spec fn after(self, r: ReplyView) -> RestoreView {
        match self.stage {
            Stage::CheckSource => if r.ok {
                self.at(Stage::CheckCurrent)
            } else {
                self.ended(OutcomeView::Failed(self.source + " no longer exists"@))
            },
            Stage::CheckCurrent => if r.ok {
                RestoreView { existed: true, stage: Stage::GuardCurrent, ..self }
            } else {
                RestoreView { existed: false, stage: Stage::TakeSnapshot, ..self }
            },
            Stage::GuardCurrent => if r.ok {
                self.at(Stage::CheckBroken)
            } else {
                self.ended(
                    OutcomeView::Failed(self.current + " is not a btrfs subvolume: "@ + r.text),
                )
            },
            Stage::CheckBroken => if r.ok {
                self.ended(OutcomeView::Failed(self.broken + " already exists"@))
            } else {
                self.at(Stage::MoveAside)
            },
            Stage::MoveAside => if r.ok {
                self.at(Stage::TakeSnapshot)
            } else {
                self.ended(
                    OutcomeView::Failed("cannot move "@ + self.subvol_name + ": "@ + r.text),
                )
            },
            Stage::TakeSnapshot => if r.ok {
                self.at(Stage::VerifyExists)
            } else {
                self.rolling_back("snapshot failed: "@ + r.text)
            },
            Stage::VerifyExists => if r.ok {
                self.at(Stage::VerifySubvolume)
            } else {
                self.rejected("restored subvolume is missing"@)
            },
            Stage::VerifySubvolume => if r.ok {
                self.at(Stage::ReadMounts)
            } else {
                self.rejected("restored path is not a subvolume: "@ + r.text)
            },
            Stage::ReadMounts => match kind_of(self.subvol_name, r.text) {
                SubvolumeKind::Root => self.at(Stage::VerifyRoot(0)),
                SubvolumeKind::Home => self.at(Stage::VerifyHome),
                SubvolumeKind::Other => self.at(Stage::VerifyOther),
            },
            Stage::VerifyRoot(n) => if !r.ok {
                self.rejected("restored root has no /"@ + root_entry(n))
            } else if n + 1 < ROOT_ENTRIES {
                self.at(Stage::VerifyRoot((n + 1) as u8))
            } else {
                self.verified()
            },
            Stage::VerifyHome => if !r.ok {
                self.rejected("restored home is unreadable: "@ + r.text)
            } else if !r.nonempty {
                self.rejected("restored home is empty"@)
            } else {
                self.verified()
            },
            Stage::VerifyOther => if r.ok {
                self.verified()
            } else {
                self.rejected("restored subvolume is unreadable: "@ + r.text)
            },
            Stage::RemoveFailed => if r.ok {
                self.rolling_back(self.reason)
            } else {
                self.ended(
                    OutcomeView::RollbackFailed(
                        self.reason + "; cannot remove the failed restore ("@ + r.text
                            + "), original kept as "@ + self.broken,
                    ),
                )
            },
            Stage::RollBack => if r.ok {
                self.ended(OutcomeView::Failed(self.reason))
            } else {
                self.ended(
                    OutcomeView::RollbackFailed(
                        self.reason + "; original kept as "@ + self.broken + " ("@ + r.text
                            + ")"@,
                    ),
                )
            },
            Stage::CleanUp => self.ended(OutcomeView::Success),
            Stage::Finished => self,
        }
    }
}

/// The n-th thing that a restored root must have.
pub fn root_entry_name(n: u8) -> (name: &'static str)
    ensures
        name@ == root_entry(n),
{
    match n {
        0 => "etc",
        1 => "usr",
        2 => "var",
        3 => "bin",
        4 => "etc/fstab",
        _ => "etc/passwd",
    }
}

/// Begins to replace the subvolume `subvol_name` (e.g. "@home") by a writable
/// snapshot of `snapshot`. The subvolume to replace is the snapshot's prefix
/// as it is: "@root" is never taken for "@". What is replaced is kept under a
/// name with the time `now`.
pub fn restore_snapshot(
    config: &Config,
    snapshot: &str,
    subvol_name: &str,
    now: &Timestamp,
) -> (restore: Restore)
    requires
        now.well_formed(),
    ensures
        restore@ == RestoreView::start(config@, snapshot@, subvol_name@, stamp_text(*now)),
{
    let mut broken_name = subvol_name.to_owned();
    broken_name.append(".BROKEN.");
    broken_name.append(stamp(now).as_str());
    let restore = Restore {
        subvol_name: subvol_name.to_owned(),
        source: join_text(config.snapshots_dir.as_str(), snapshot),
        current: join_text(config.btr_pool_dir.as_str(), subvol_name),
        broken: join_text(config.btr_pool_dir.as_str(), broken_name.as_str()),
        auto_cleanup: config.auto_cleanup,
        existed: false,
        stage: Stage::CheckSource,
        reason: String::new(),
        outcome: RestoreOutcome::Success,
    };
    assert(restore.reason@ =~= Seq::<char>::empty());
    restore
}

/// One text after another.
fn concat2(a: &str, b: &str) -> (s: String)
    ensures
        s@ == a@ + b@,
{
    let mut s = a.to_owned();
    s.append(b);
    s
}

impl Restore {
    /// What is to be done next.
    pub fn step(&self) -> (step: Step)
        ensures
            step@ == self@.step(),
    {
        match self.stage {
            Stage::CheckSource => Step::Exists(self.source.clone()),
            Stage::CheckCurrent => Step::Exists(self.current.clone()),
            Stage::GuardCurrent => Step::Show(self.current.clone()),
            Stage::CheckBroken => Step::Exists(self.broken.clone()),
            Stage::MoveAside => Step::Rename(self.current.clone(), self.broken.clone()),
            Stage::TakeSnapshot => Step::Snapshot(self.source.clone(), self.current.clone()),
            Stage::VerifyExists => Step::Exists(self.current.clone()),
            Stage::VerifySubvolume => Step::Show(self.current.clone()),
            Stage::ReadMounts => Step::ReadMounts,
            Stage::VerifyRoot(n) => {
                let path = join_text(self.current.as_str(), root_entry_name(n));
                if n < ROOT_DIRS {
                    Step::Exists(path)
                } else {
                    Step::IsFile(path)
                }
            },
            Stage::VerifyHome => Step::ReadDir(self.current.clone()),
            Stage::VerifyOther => Step::ReadDir(self.current.clone()),
            Stage::RemoveFailed => Step::Delete(self.current.clone()),
            Stage::RollBack => Step::Rename(self.broken.clone(), self.current.clone()),
            Stage::CleanUp => Step::Delete(self.broken.clone()),
            Stage::Finished => Step::Finish,
        }
    }

    fn end(&mut self, outcome: RestoreOutcome)
        ensures
            final(self)@ == old(self)@.ended(outcome@),
    {
        self.stage = Stage::Finished;
        self.outcome = outcome;
    }

    fn roll_back(&mut self, reason: String)
        ensures
            final(self)@ == old(self)@.rolling_back(reason@),
    {
        if self.existed {
            self.stage = Stage::RollBack;
            self.reason = reason;
        } else {
            self.end(RestoreOutcome::Failed(reason));
        }
    }

    fn reject(&mut self, reason: String)
        ensures
            final(self)@ == old(self)@.rejected(reason@),
    {
        self.stage = Stage::RemoveFailed;
        self.reason = reason;
    }

    fn accept(&mut self)
        ensures
            final(self)@ == old(self)@.verified(),
    {
        if self.auto_cleanup && self.existed {
            self.stage = Stage::CleanUp;
        } else {
            self.end(RestoreOutcome::Success);
        }
    }

    /// Takes in what came of a check of the restored subvolume, or of the
    /// question what kind of subvolume it is.
    fn verify_restore_success(&mut self, r: &Reply)
        requires
            old(self).stage is VerifyExists || old(self).stage is VerifySubvolume || old(
                self,
            ).stage is ReadMounts || old(self).stage is VerifyRoot || old(self).stage is VerifyHome
                || old(self).stage is VerifyOther,
        ensures
            final(self)@ == old(self)@.after(r@),
            old(self).stage is ReadMounts && (old(self)@.subvol_name == "@"@ || subvolume_at(
                r.text@,
                "/"@,
            ) == Some(old(self)@.subvol_name)) ==> final(self).stage == Stage::VerifyRoot(0),
    {
        match self.stage {
            Stage::VerifyExists => {
                if r.ok {
                    self.stage = Stage::VerifySubvolume;
                } else {
                    self.reject("restored subvolume is missing".to_owned());
                }
            },
            Stage::VerifySubvolume => {
                if r.ok {
                    self.stage = Stage::ReadMounts;
                } else {
                    self.reject(concat2("restored path is not a subvolume: ", r.text.as_str()));
                }
            },
            Stage::ReadMounts => {
                match subvolume_kind(self.subvol_name.as_str(), r.text.as_str()) {
                    SubvolumeKind::Root => {
                        self.stage = Stage::VerifyRoot(0);
                    },
                    SubvolumeKind::Home => {
                        self.stage = Stage::VerifyHome;
                    },
                    SubvolumeKind::Other => {
                        self.stage = Stage::VerifyOther;
                    },
                }
            },
            Stage::VerifyRoot(n) => {
                if !r.ok {
                    self.reject(concat2("restored root has no /", root_entry_name(n)));
                } else if n < ROOT_ENTRIES - 1 {
                    self.stage = Stage::VerifyRoot(n + 1);
                } else {
                    self.accept();
                }
            },
            Stage::VerifyHome => {
                if !r.ok {
                    self.reject(concat2("restored home is unreadable: ", r.text.as_str()));
                } else if !r.nonempty {
                    self.reject("restored home is empty".to_owned());
                } else {
                    self.accept();
                }
            },
            _ => {
                if r.ok {
                    self.accept();
                } else {
                    self.reject(concat2("restored subvolume is unreadable: ", r.text.as_str()));
                }
            },
        }
    }

    /// Takes in what came of a step before the old subvolume has been moved,
    /// and of the move.
    fn make_room(&mut self, r: &Reply)
        requires
            old(self).stage is CheckSource || old(self).stage is CheckCurrent || old(
                self,
            ).stage is GuardCurrent || old(self).stage is CheckBroken || old(
                self,
            ).stage is MoveAside,
        ensures
            final(self)@ == old(self)@.after(r@),
    {
        match self.stage {
            Stage::CheckSource => {
                if r.ok {
                    self.stage = Stage::CheckCurrent;
                } else {
                    let reason = concat2(self.source.as_str(), " no longer exists");
                    self.end(RestoreOutcome::Failed(reason));
                }
            },
            Stage::CheckCurrent => {
                self.existed = r.ok;
                if r.ok {
                    self.stage = Stage::GuardCurrent;
                } else {
                    self.stage = Stage::TakeSnapshot;
                }
            },
            Stage::GuardCurrent => {
                if r.ok {
                    self.stage = Stage::CheckBroken;
                } else {
                    let mut reason = concat2(self.current.as_str(), " is not a btrfs subvolume: ");
                    reason.append(r.text.as_str());
                    self.end(RestoreOutcome::Failed(reason));
                }
            },
            Stage::CheckBroken => {
                if r.ok {
                    let reason = concat2(self.broken.as_str(), " already exists");
                    self.end(RestoreOutcome::Failed(reason));
                } else {
                    self.stage = Stage::MoveAside;
                }
            },
            _ => {
                if r.ok {
                    self.stage = Stage::TakeSnapshot;
                } else {
                    let mut reason = concat2("cannot move ", self.subvol_name.as_str());
                    reason.append(": ");
                    reason.append(r.text.as_str());
                    self.end(RestoreOutcome::Failed(reason));
                }
            },
        }
    }

    /// Takes in what came of the step, and decides what comes next.
    pub fn reply(&mut self, r: &Reply)
        ensures
            final(self)@ == old(self)@.after(r@),
            old(self).stage is ReadMounts && (old(self)@.subvol_name == "@"@ || subvolume_at(
                r.text@,
                "/"@,
            ) == Some(old(self)@.subvol_name)) ==> final(self).stage == Stage::VerifyRoot(0),
    {
        match self.stage {
            Stage::CheckSource
            | Stage::CheckCurrent
            | Stage::GuardCurrent
            | Stage::CheckBroken
            | Stage::MoveAside => {
                self.make_room(r);
            },
            Stage::TakeSnapshot => {
                if r.ok {
                    self.stage = Stage::VerifyExists;
                } else {
                    self.roll_back(concat2("snapshot failed: ", r.text.as_str()));
                }
            },
            Stage::VerifyExists
            | Stage::VerifySubvolume
            | Stage::ReadMounts
            | Stage::VerifyRoot(_)
            | Stage::VerifyHome
            | Stage::VerifyOther => {
                self.verify_restore_success(r);
            },
            Stage::RemoveFailed => {
                if r.ok {
                    let reason = self.reason.clone();
                    self.roll_back(reason);
                } else {
                    let mut reason = concat2(
                        self.reason.as_str(),
                        "; cannot remove the failed restore (",
                    );
                    reason.append(r.text.as_str());
                    reason.append("), original kept as ");
                    reason.append(self.broken.as_str());
                    self.end(RestoreOutcome::RollbackFailed(reason));
                }
            },
            Stage::RollBack => {
                if r.ok {
                    let reason = self.reason.clone();
                    self.end(RestoreOutcome::Failed(reason));
                } else {
                    let mut reason = concat2(self.reason.as_str(), "; original kept as ");
                    reason.append(self.broken.as_str());
                    reason.append(" (");
                    reason.append(r.text.as_str());
                    reason.append(")");
                    self.end(RestoreOutcome::RollbackFailed(reason));
                }
            },
            Stage::CleanUp => {
                self.end(RestoreOutcome::Success);
            },
            Stage::Finished => {},
        }
    }
}

// ---------------------------------------------------------------------------
// Commands

/// The command that performs a step, if a command does.
pub open spec fn command_for(step: StepView) -> Option<Seq<Seq<char>>> {
    match step {
        StepView::Show(path) => Some(seq!["btrfs"@, "subvolume"@, "show"@, path]),
        StepView::Snapshot(from, to) => Some(
            seq!["btrfs"@, "subvolume"@, "snapshot"@, from, to],
        ),
        StepView::Delete(path) => Some(delete_command(path)),
        _ => None,
    }
}

/// The command that deletes a subvolume.
pub open spec fn delete_command(path: Seq<char>) -> Seq<Seq<char>> {
    seq!["btrfs"@, "subvolume"@, "delete"@, path]
}

/// A `btrfs subvolume` command on one path.
fn subvolume_command(verb: &str, path: &str) -> (words: Vec<String>)
    ensures
        texts(words@) == seq!["btrfs"@, "subvolume"@, verb@, path@],
{
    let mut words: Vec<String> = Vec::new();
    words.push("btrfs".to_owned());
    words.push("subvolume".to_owned());
    words.push(verb.to_owned());
    words.push(path.to_owned());
    assert(texts(words@) =~= seq!["btrfs"@, "subvolume"@, verb@, path@]);
    words
}

/// The command that deletes a subvolume.
pub fn delete_subvolume(path: &str) -> (words: Vec<String>)
    ensures
        texts(words@) == delete_command(path@),
{
    subvolume_command("delete", path)
}

impl Step {
    /// The command that performs the step, if a command does.
    pub fn command(&self) -> (words: Option<Vec<String>>)
        ensures
            match words {
                Some(words) => command_for(self@) == Some(texts(words@)),
                None => command_for(self@) is None,
            },
    {
        match self {
            Step::Show(path) => Some(subvolume_command("show", path.as_str())),
            Step::Snapshot(from, to) => {
                let mut words = subvolume_command("snapshot", from.as_str());
                let ghost first = words@;
                words.push(to.clone());
                assert(texts(words@) =~= texts(first).push(to@));
                assert(texts(words@) =~= seq![
                    "btrfs"@,
                    "subvolume"@,
                    "snapshot"@,
                    from@,
                    to@,
                ]);
                Some(words)
            },
            Step::Delete(path) => Some(delete_subvolume(path.as_str())),
            _ => None,
        }
    }
}

// ---------------------------------------------------------------------------
// What a restore does to the subvolumes

/// What is under a path.
pub enum Content {
    Missing,
    /// The subvolume that was there before.
    Original,
    /// The snapshot taken to replace it.
    Restored,
    /// Something else.
    Other,
}

/// What is under the subvolume's path and under the `.BROKEN` path.
pub struct World {
    pub current: Content,
    pub broken: Content,
}

/// What is under a path of the restore `v`.
pub open spec fn held(v: RestoreView, w: World, path: Seq<char>) -> Content {
    if path == v.current {
        w.current
    } else if path == v.broken {
        w.broken
    } else {
        Content::Other
    }
}

/// The world with something else under a path.
pub open spec fn with_content(v: RestoreView, w: World, path: Seq<char>, c: Content) -> World {
    if path == v.current {
        World { current: c, ..w }
    } else if path == v.broken {
        World { broken: c, ..w }
    } else {
        w
    }
}

/// What a step does: one that fails changes nothing.
pub open spec fn effect(v: RestoreView, w: World, r: ReplyView) -> World {
    if !r.ok {
        w
    } else {
        match v.step() {
            StepView::Rename(from, to) => with_content(
                v,
                with_content(v, w, to, held(v, w, from)),
                from,
                Content::Missing,
            ),
            StepView::Snapshot(_, to) => with_content(v, w, to, Content::Restored),
            StepView::Delete(path) => with_content(v, w, path, Content::Missing),
            _ => w,
        }
    }
}

/// Whether a reply to the question what exists is true.
pub open spec fn truthful(v: RestoreView, w: World, r: ReplyView) -> bool {
    match v.step() {
        StepView::Exists(path) => path == v.current || path == v.broken ==> (r.ok
            <==> held(v, w, path) !is Missing),
        _ => true,
    }
}

/// The restore and the world after the replies `rs`.
pub open spec fn run(v: RestoreView, w: World, rs: Seq<ReplyView>) -> (RestoreView, World)
    decreases rs.len(),
{
    if rs.len() == 0 {
        (v, w)
    } else {
        run(v.after(rs[0]), effect(v, w, rs[0]), rs.drop_first())
    }
}

/// Whether all the replies `rs` are true.
pub open spec fn all_truthful(v: RestoreView, w: World, rs: Seq<ReplyView>) -> bool
    decreases rs.len(),
{
    rs.len() == 0 || (truthful(v, w, rs[0]) && all_truthful(
        v.after(rs[0]),
        effect(v, w, rs[0]),
        rs.drop_first(),
    ))
}

/// A world to begin with: the subvolume may be there or not, and something
/// may already be in the way of the `.BROKEN` name.
pub open spec fn is_initial(w: World) -> bool {
    &&& w.current is Missing || w.current is Original
    &&& w.broken is Missing || w.broken is Other
}

/// The previous subvolume, if there was one, is under its `.BROKEN` name.
pub open spec fn is_kept(v: RestoreView, w: World, w0: World) -> bool {
    if v.existed {
        w0.current is Original && w0.broken is Missing && w.broken is Original
    } else {
        w0.current is Missing && w.broken == w0.broken
    }
}

/// What holds at each stage of a restore that began in the world `w0`.
pub open spec fn restore_invariant(v: RestoreView, w: World, w0: World) -> bool {
    &&& is_initial(w0)
    &&& v.current != v.broken
    &&& match v.stage {
        Stage::CheckSource => w == w0,
        Stage::CheckCurrent => w == w0,
        Stage::GuardCurrent => w == w0 && v.existed && w0.current is Original,
        Stage::CheckBroken => w == w0 && v.existed && w0.current is Original,
        Stage::MoveAside => w == w0 && v.existed && w0.current is Original
            && w0.broken is Missing,
        Stage::TakeSnapshot => w.current is Missing && is_kept(v, w, w0),
        Stage::RollBack => w.current is Missing && v.existed && is_kept(v, w, w0),
        Stage::CleanUp => w.current is Restored && v.existed && v.auto_cleanup && is_kept(
            v,
            w,
            w0,
        ),
        Stage::Finished => match v.outcome {
            OutcomeView::Success => w.current is Restored && (is_kept(v, w, w0) || (
            v.auto_cleanup && v.existed && w0.current is Original && w.broken is Missing)),
            OutcomeView::Failed(_) => w == w0,
            OutcomeView::RollbackFailed(_) => is_kept(v, w, w0),
        },
        _ => w.current is Restored && is_kept(v, w, w0),
    }
}

proof fn lemma_step_keeps_invariant(v: RestoreView, w: World, w0: World, r: ReplyView)
    requires
        restore_invariant(v, w, w0),
        truthful(v, w, r),
    ensures
        restore_invariant(v.after(r), effect(v, w, r), w0),
{
}

proof fn lemma_run_keeps_invariant(v: RestoreView, w: World, w0: World, rs: Seq<ReplyView>)
    requires
        restore_invariant(v, w, w0),
        all_truthful(v, w, rs),
    ensures
        restore_invariant(run(v, w, rs).0, run(v, w, rs).1, w0),
        run(v, w, rs).0.auto_cleanup == v.auto_cleanup,
    decreases rs.len(),
{
    if rs.len() > 0 {
        lemma_step_keeps_invariant(v, w, w0, rs[0]);
        lemma_run_keeps_invariant(v.after(rs[0]), effect(v, w, rs[0]), w0, rs.drop_first());
    }
}

/// The subvolume and its `.BROKEN` copy never share a path.
proof fn lemma_broken_path_differs(pool: Seq<char>, subvol_name: Seq<char>, timestamp: Seq<char>)
    ensures
        path_join(pool, subvol_name, '/') != broken_path(pool, subvol_name, timestamp),
{
    let name = subvol_name + ".BROKEN."@ + timestamp;
    reveal_strlit(".BROKEN.");
    assert(name.len() > subvol_name.len());
    if subvol_name.len() > 0 {
        assert(name[0] == subvol_name[0]);
    } else {
        assert(name[0] == '.');
    }
    assert(path_join(pool, subvol_name, '/').len() < path_join(pool, name, '/').len());
}

/// Different timestamps make different `.BROKEN` paths.
proof fn lemma_broken_paths_differ(
    pool: Seq<char>,
    subvol_name: Seq<char>,
    a: Seq<char>,
    b: Seq<char>,
)
    requires
        a != b,
    ensures
        broken_path(pool, subvol_name, a) != broken_path(pool, subvol_name, b),
{
    reveal_strlit(".BROKEN.");
    let stem = subvol_name + ".BROKEN."@;
    let x = broken_path(pool, subvol_name, a);
    let y = broken_path(pool, subvol_name, b);
    assert((stem + a)[0] == stem[0]);
    assert((stem + b)[0] == stem[0]);
    let start = x.len() - a.len();
    if x == y {
        assert(x.skip(start) =~= a);
        assert(y.skip(start) =~= b);
    }
}

/// Replaced in different seconds, a subvolume is kept under different names: one
/// restore never takes the `.BROKEN` name of another.
pub proof fn law_broken_names_are_unique(
    pool: Seq<char>,
    subvol_name: Seq<char>,
    a: Timestamp,
    b: Timestamp,
)
    requires
        a.well_formed(),
        b.well_formed(),
        a.whole_second() != b.whole_second(),
    ensures
        broken_path(pool, subvol_name, stamp_text(a)) != broken_path(
            pool,
            subvol_name,
            stamp_text(b),
        ),
{
    law_stamps_tell_seconds_apart(a, b);
    lemma_broken_paths_differ(pool, subvol_name, stamp_text(a), stamp_text(b));
}

/// At every moment of a restore, whatever fails and whatever the commands
/// answer, the previous subvolume is at its own path or under its `.BROKEN`
/// name. Only the automatic cleanup deletes it, and only once the restored
/// subvolume has passed its checks.
pub proof fn law_restore_never_loses_the_original(
    config: ConfigView,
    snapshot: Seq<char>,
    subvol_name: Seq<char>,
    timestamp: Seq<char>,
    w0: World,
    rs: Seq<ReplyView>,
)
    requires
        is_initial(w0),
        w0.current is Original,
        all_truthful(RestoreView::start(config, snapshot, subvol_name, timestamp), w0, rs),
    ensures
        ({
            let (v, w) = run(
                RestoreView::start(config, snapshot, subvol_name, timestamp),
                w0,
                rs,
            );
            ||| w.current is Original
            ||| w.broken is Original
            ||| config.auto_cleanup && v.stage is Finished && v.outcome is Success
                && w.current is Restored
        }),
{
    lemma_broken_path_differs(config.btr_pool_dir, subvol_name, timestamp);
    lemma_run_keeps_invariant(
        RestoreView::start(config, snapshot, subvol_name, timestamp),
        w0,
        w0,
        rs,
    );
}

/// How a restore ends says what is on the disk. After a success the restored
/// subvolume is in place. After a failure that was rolled back everything is as
/// before. After a failed rollback the previous subvolume, if there was one,
/// is under its `.BROKEN` name.
pub proof fn law_outcome_tells_what_is_on_the_disk(
    config: ConfigView,
    snapshot: Seq<char>,
    subvol_name: Seq<char>,
    timestamp: Seq<char>,
    w0: World,
    rs: Seq<ReplyView>,
)
    requires
        is_initial(w0),
        all_truthful(RestoreView::start(config, snapshot, subvol_name, timestamp), w0, rs),
        run(
            RestoreView::start(config, snapshot, subvol_name, timestamp),
            w0,
            rs,
        ).0.stage is Finished,
    ensures
        ({
            let (v, w) = run(
                RestoreView::start(config, snapshot, subvol_name, timestamp),
                w0,
                rs,
            );
            match v.outcome {
                OutcomeView::Success => w.current is Restored && (!config.auto_cleanup ==>
                    w0.current is Original ==> w.broken is Original),
                OutcomeView::Failed(_) => w == w0,
                OutcomeView::RollbackFailed(_) => w0.current is Original ==> w.broken is Original,
            }
        }),
{
    lemma_broken_path_differs(config.btr_pool_dir, subvol_name, timestamp);
    lemma_run_keeps_invariant(
        RestoreView::start(config, snapshot, subvol_name, timestamp),
        w0,
        w0,
        rs,
    );
}

/// How many steps a restore has left at most.
pub open spec fn steps_left(stage: Stage) -> nat {
    match stage {
        Stage::CheckSource => 17,
        Stage::CheckCurrent => 16,
        Stage::GuardCurrent => 15,
        Stage::CheckBroken => 14,
        Stage::MoveAside => 13,
        Stage::TakeSnapshot => 12,
        Stage::VerifyExists => 11,
        Stage::VerifySubvolume => 10,
        Stage::ReadMounts => 9,
        Stage::VerifyRoot(n) => if n < ROOT_ENTRIES {
            (8 - n) as nat
        } else {
            3
        },
        Stage::VerifyHome => 3,
        Stage::VerifyOther => 3,
        Stage::RemoveFailed => 2,
        Stage::RollBack => 1,
        Stage::CleanUp => 1,
        Stage::Finished => 0,
    }
}

/// Every step brings a restore closer to its end.
pub proof fn law_restore_makes_progress(v: RestoreView, r: ReplyView)
    requires
        v.stage !is Finished,
    ensures
        steps_left(v.after(r).stage) < steps_left(v.stage),
{
}

/// A restore ends, whatever it is told.
pub proof fn law_restore_ends(v: RestoreView, w: World, rs: Seq<ReplyView>)
    requires
        rs.len() >= steps_left(v.stage),
    ensures
        run(v, w, rs).0.stage is Finished,
    decreases rs.len(),
{
    if rs.len() > 0 {
        if v.stage !is Finished {
            law_restore_makes_progress(v, rs[0]);
        }
        law_restore_ends(v.after(rs[0]), effect(v, w, rs[0]), rs.drop_first());
    }
}

/// A snapshot that is gone is noticed before anything is touched.
pub proof fn law_source_is_checked_first(
    config: ConfigView,
    snapshot: Seq<char>,
    subvol_name: Seq<char>,
    timestamp: Seq<char>,
    r: ReplyView,
)
    ensures
        ({
            let v = RestoreView::start(config, snapshot, subvol_name, timestamp);
            &&& v.step() == StepView::Exists(path_join(config.snapshots_dir, snapshot, '/'))
            &&& !r.ok ==> v.after(r).stage is Finished && v.after(r).outcome is Failed
        }),
{
}

/// A subvolume is moved aside only after `btrfs subvolume show` has accepted
/// it, so that a plain directory is never moved, and only to a name that is
/// free.
pub proof fn law_only_a_checked_subvolume_is_moved(v: RestoreView, r1: ReplyView, r2: ReplyView)
    requires
        v.after(r1).after(r2).stage is MoveAside,
    ensures
        v.step() == StepView::Show(v.current),
        r1.ok,
        v.after(r1).step() == StepView::Exists(v.broken),
        !r2.ok,
{
}

// ---------------------------------------------------------------------------
// Cleaning up

/// Whether an entry of the pool is a subvolume that a restore has replaced.
pub open spec fn is_broken(entry: DirEntry) -> bool {
    entry.is_dir && find(entry.name@, ".BROKEN"@) is Some
}

/// The paths of the replaced subvolumes among the entries of the pool.
pub open spec fn broken_paths(pool: Seq<char>, entries: Seq<DirEntry>) -> Seq<Seq<char>>
    decreases entries.len(),
{
    if entries.len() == 0 {
        Seq::empty()
    } else {
        let rest = broken_paths(pool, entries.drop_last());
        if is_broken(entries.last()) {
            rest.push(path_join(pool, entries.last().name@, '/'))
        } else {
            rest
        }
    }
}

/// The replaced subvolumes among the entries of the pool.
fn list_broken(pool: &str, entries: &Vec<DirEntry>) -> (paths: Vec<String>)
    ensures
        texts(paths@) == broken_paths(pool@, entries@),
        forall|i: int, at: int|
            0 <= i < entries@.len() && entries@[i].is_dir && #[trigger] occurs_at(
                entries@[i].name@,
                ".BROKEN"@,
                at,
            ) ==> texts(paths@).contains(path_join(pool@, entries@[i].name@, '/')),
{
    let mark = to_chars(".BROKEN");
    let mut paths: Vec<String> = Vec::new();
    let mut i: usize = 0;
    assert(texts(paths@) =~= broken_paths(pool@, entries@.take(0)));
    while i < entries.len()
        invariant
            i <= entries@.len(),
            mark@ == ".BROKEN"@,
            texts(paths@) == broken_paths(pool@, entries@.take(i as int)),
        decreases entries@.len() - i,
    {
        let ghost paths0 = paths@;
        assert(entries@.take(i + 1).drop_last() =~= entries@.take(i as int));
        assert(entries@.take(i + 1).last() == entries@[i as int]);
        if entries[i].is_dir {
            let name = to_chars(entries[i].name.as_str());
            if position_of_text(name.as_slice(), mark.as_slice()).is_some() {
                paths.push(join_text(pool, entries[i].name.as_str()));
                assert(texts(paths@) =~= texts(paths0).push(
                    path_join(pool@, entries@[i as int].name@, '/'),
                ));
            }
        }
        i = i + 1;
    }
    assert(entries@.take(i as int) =~= entries@);
    assert forall|i: int, at: int|
        0 <= i < entries@.len() && entries@[i].is_dir && #[trigger] occurs_at(
            entries@[i].name@,
            ".BROKEN"@,
            at,
        ) implies texts(paths@).contains(path_join(pool@, entries@[i].name@, '/')) by {
        law_every_broken_subvolume_is_cleaned(pool@, entries@, i, at);
    }
    paths
}

/// The subvolumes to delete when the pool is cleaned: every one that a
/// restore has replaced. Fails when the pool could not be read.
pub fn clean_broken_subvolumes(pool: &str, entries: Result<Vec<DirEntry>, String>) -> (paths:
    Result<Vec<String>, String>)
    ensures
        match (entries, paths) {
            (Ok(entries), Ok(paths)) => {
                &&& texts(paths@) == broken_paths(pool@, entries@)
                &&& forall|i: int, at: int|
                    0 <= i < entries@.len() && entries@[i].is_dir && #[trigger] occurs_at(
                        entries@[i].name@,
                        ".BROKEN"@,
                        at,
                    ) ==> texts(paths@).contains(path_join(pool@, entries@[i].name@, '/'))
            },
            (Err(error), Err(reason)) => reason@ == "cannot read pool directory: "@ + error@,
            _ => false,
        },
{
    match entries {
        Ok(entries) => Ok(list_broken(pool, &entries)),
        Err(error) => Err(concat2("cannot read pool directory: ", error.as_str())),
    }
}

/// What a restore keeps is found by the cleanup: the name under which it keeps
/// a subvolume is one that the cleanup looks for.
pub proof fn law_kept_subvolumes_can_be_cleaned(entry: DirEntry, subvol_name: Seq<char>, timestamp: Seq<char>)
    requires
        entry.is_dir,
        entry.name@ == subvol_name + ".BROKEN."@ + timestamp,
    ensures
        is_broken(entry),
{
    reveal_strlit(".BROKEN.");
    reveal_strlit(".BROKEN");
    lemma_found(entry.name@, ".BROKEN"@, subvol_name.len() as int);
}

/// A text that occurs is found.
proof fn lemma_found(s: Seq<char>, p: Seq<char>, at: int)
    requires
        0 <= at <= s.len(),
        p.is_prefix_of(s.skip(at)),
    ensures
        find(s, p) is Some,
    decreases s.len(),
{
    if at == 0 {
        assert(s.skip(0) =~= s);
    } else {
        assert(s.drop_first().skip(at - 1) =~= s.skip(at));
        lemma_found(s.drop_first(), p, at - 1);
    }
}

/// The cleanup deletes nothing but directories with `.BROKEN` in their name.
pub proof fn law_cleanup_spares_everything_else(pool: Seq<char>, entries: Seq<DirEntry>, path: Seq<char>)
    requires
        broken_paths(pool, entries).contains(path),
    ensures
        exists|i: int|
            0 <= i < entries.len() && is_broken(#[trigger] entries[i]) && path == path_join(
                pool,
                entries[i].name@,
                '/',
            ),
    decreases entries.len(),
{
    let rest = entries.drop_last();
    let k = broken_paths(pool, entries).index_of(path);
    if is_broken(entries.last()) && k == broken_paths(pool, rest).len() {
        assert(is_broken(entries[entries.len() - 1]));
    } else {
        assert(broken_paths(pool, rest)[k] == path);
        law_cleanup_spares_everything_else(pool, rest, path);
        let i = choose|i: int|
            0 <= i < rest.len() && is_broken(#[trigger] rest[i]) && path == path_join(
                pool,
                rest[i].name@,
                '/',
            );
        assert(entries[i] == rest[i]);
    }
}

/// A directory with `.BROKEN` anywhere in its name is one that a restore has
/// replaced, and nothing else is.
pub proof fn law_broken_is_told_by_the_name(entry: DirEntry)
    ensures
        is_broken(entry) <==> entry.is_dir && exists|at: int|
            occurs_at(entry.name@, ".BROKEN"@, at),
{
    law_the_first_occurrence_is_found(entry.name@, ".BROKEN"@);
}

/// The cleanup goes through the whole pool, entry by entry: each directory with
/// `.BROKEN` in its name gives its path, anything else gives nothing.
pub proof fn law_cleanup_looks_at_every_entry(
    pool: Seq<char>,
    a: Seq<DirEntry>,
    b: Seq<DirEntry>,
    entry: DirEntry,
    at: int,
)
    ensures
        broken_paths(pool, a + b) == broken_paths(pool, a) + broken_paths(pool, b),
        entry.is_dir && occurs_at(entry.name@, ".BROKEN"@, at) ==> broken_paths(pool, seq![entry])
            == seq![path_join(pool, entry.name@, '/')],
        !entry.is_dir || (forall|j: int| !occurs_at(entry.name@, ".BROKEN"@, j)) ==> broken_paths(
            pool,
            seq![entry],
        ).len() == 0,
        broken_paths(pool, Seq::empty()).len() == 0,
    decreases b.len(),
{
    law_broken_is_told_by_the_name(entry);
    reveal_with_fuel(broken_paths, 2);
    assert(seq![entry].drop_last() =~= Seq::empty());
    if entry.is_dir && occurs_at(entry.name@, ".BROKEN"@, at) {
        assert(broken_paths(pool, seq![entry]) =~= seq![path_join(pool, entry.name@, '/')]);
    }
    if b.len() == 0 {
        assert(a + b =~= a);
        assert(broken_paths(pool, a) + broken_paths(pool, b) =~= broken_paths(pool, a));
    } else {
        assert((a + b).drop_last() =~= a + b.drop_last());
        assert((a + b).last() == b.last());
        law_cleanup_looks_at_every_entry(pool, a, b.drop_last(), entry, at);
        assert(broken_paths(pool, a + b) =~= broken_paths(pool, a) + broken_paths(pool, b));
    }
}

/// Every directory of the pool with `.BROKEN` in its name is deleted, wherever
/// it is listed.
pub proof fn law_every_broken_subvolume_is_cleaned(
    pool: Seq<char>,
    entries: Seq<DirEntry>,
    i: int,
    at: int,
)
    requires
        0 <= i < entries.len(),
        entries[i].is_dir,
        occurs_at(entries[i].name@, ".BROKEN"@, at),
    ensures
        broken_paths(pool, entries).contains(path_join(pool, entries[i].name@, '/')),
{
    let (a, b) = (entries.take(i), entries.skip(i + 1));
    let one = seq![entries[i]];
    law_cleanup_looks_at_every_entry(pool, a, one, entries[i], at);
    law_cleanup_looks_at_every_entry(pool, a + one, b, entries[i], at);
    assert(entries =~= a + one + b);
    let k = broken_paths(pool, a).len() as int;
    assert(broken_paths(pool, entries)[k] == path_join(pool, entries[i].name@, '/'));
}

// ---------------------------------------------------------------------------
// What a restore is about

/// A restore is about the snapshot in the snapshots directory and the subvolume
/// of that name in the pool, which it keeps beside itself under a name with
/// `.BROKEN.` and the time.
pub proof fn law_restore_is_about_what_was_chosen(
    config: ConfigView,
    snapshot: Seq<char>,
    subvol_name: Seq<char>,
    timestamp: Seq<char>,
)
    ensures
        ({
            let v = RestoreView::start(config, snapshot, subvol_name, timestamp);
            &&& v.subvol_name == subvol_name
            &&& v.source == path_join(config.snapshots_dir, snapshot, '/')
            &&& v.current == path_join(config.btr_pool_dir, subvol_name, '/')
            &&& v.broken == path_join(
                config.btr_pool_dir,
                subvol_name + ".BROKEN."@ + timestamp,
                '/',
            )
            &&& v.auto_cleanup == config.auto_cleanup
            &&& !v.existed
            &&& v.stage is CheckSource
        }),
{
}

/// Whatever happens, a restore stays about the same snapshot and subvolume.
pub proof fn law_restore_stays_about_the_same(v: RestoreView, w: World, rs: Seq<ReplyView>)
    ensures
        ({
            let (end, _) = run(v, w, rs);
            &&& end.subvol_name == v.subvol_name
            &&& end.source == v.source
            &&& end.current == v.current
            &&& end.broken == v.broken
            &&& end.auto_cleanup == v.auto_cleanup
        }),
    decreases rs.len(),
{
    if rs.len() > 0 {
        law_restore_stays_about_the_same(v.after(rs[0]), effect(v, w, rs[0]), rs.drop_first());
    }
}

/// Only the subvolume is renamed, to its `.BROKEN` name and back; only the
/// snapshot that was chosen is taken, and only to the subvolume's path; only
/// what failed its checks, and at the end the previous subvolume, is deleted.
pub proof fn law_steps_touch_the_right_paths(v: RestoreView)
    ensures
        v.step() matches StepView::Rename(from, to) ==> {
            ||| v.stage is MoveAside && from == v.current && to == v.broken
            ||| v.stage is RollBack && from == v.broken && to == v.current
        },
        v.step() matches StepView::Snapshot(from, to) ==> v.stage is TakeSnapshot && from
            == v.source && to == v.current,
        v.step() matches StepView::Delete(path) ==> {
            ||| v.stage is RemoveFailed && path == v.current
            ||| v.stage is CleanUp && path == v.broken
        },
        v.stage is MoveAside || v.stage is RollBack ==> v.step() is Rename,
        v.stage is TakeSnapshot ==> v.step() is Snapshot,
        v.stage is RemoveFailed || v.stage is CleanUp ==> v.step() is Delete,
        v.step() is Finish <==> v.stage is Finished,
{
}

/// What is found out before anything is touched, and about the restored
/// subvolume, is asked of the right paths.
pub proof fn law_questions_are_about_the_right_paths(v: RestoreView)
    ensures
        v.stage is CheckSource ==> v.step() == StepView::Exists(v.source),
        v.stage is CheckCurrent || v.stage is VerifyExists ==> v.step() == StepView::Exists(
            v.current,
        ),
        v.stage is GuardCurrent || v.stage is VerifySubvolume ==> v.step() == StepView::Show(
            v.current,
        ),
        v.stage is CheckBroken ==> v.step() == StepView::Exists(v.broken),
        v.stage is ReadMounts ==> v.step() is ReadMounts,
        v.stage is VerifyHome || v.stage is VerifyOther ==> v.step() == StepView::ReadDir(
            v.current,
        ),
        v.stage == Stage::VerifyRoot(0) ==> v.step() == StepView::Exists(
            path_join(v.current, "etc"@, '/'),
        ),
        v.stage == Stage::VerifyRoot(1) ==> v.step() == StepView::Exists(
            path_join(v.current, "usr"@, '/'),
        ),
        v.stage == Stage::VerifyRoot(2) ==> v.step() == StepView::Exists(
            path_join(v.current, "var"@, '/'),
        ),
        v.stage == Stage::VerifyRoot(3) ==> v.step() == StepView::Exists(
            path_join(v.current, "bin"@, '/'),
        ),
        v.stage == Stage::VerifyRoot(4) ==> v.step() == StepView::IsFile(
            path_join(v.current, "etc/fstab"@, '/'),
        ),
        v.stage == Stage::VerifyRoot(5) ==> v.step() == StepView::IsFile(
            path_join(v.current, "etc/passwd"@, '/'),
        ),
{
}

/// Every stage is reached from one before it, and only with the reply that
/// allows it: nothing is moved, taken, accepted or deleted out of turn.
pub proof fn law_stages_come_in_order(v: RestoreView, r: ReplyView)
    requires
        v.stage !is Finished,
    ensures
        v.after(r).stage !is CheckSource,
        v.after(r).stage is CheckCurrent <==> v.stage is CheckSource && r.ok,
        v.after(r).stage is GuardCurrent <==> v.stage is CheckCurrent && r.ok,
        v.after(r).stage is CheckBroken <==> v.stage is GuardCurrent && r.ok,
        v.after(r).stage is MoveAside <==> v.stage is CheckBroken && !r.ok,
        v.after(r).stage is TakeSnapshot <==> v.stage is MoveAside && r.ok || v.stage
            is CheckCurrent && !r.ok,
        v.after(r).stage is VerifyExists <==> v.stage is TakeSnapshot && r.ok,
        v.after(r).stage is VerifySubvolume <==> v.stage is VerifyExists && r.ok,
        v.after(r).stage is ReadMounts <==> v.stage is VerifySubvolume && r.ok,
        v.after(r).stage is VerifyHome || v.after(r).stage is VerifyOther ==> v.stage
            is ReadMounts,
        v.after(r).stage == Stage::VerifyRoot(0) ==> v.stage is ReadMounts,
        v.stage is ReadMounts ==> v.after(r).stage is VerifyHome || v.after(r).stage
            is VerifyOther || v.after(r).stage == Stage::VerifyRoot(0),
        v.after(r).stage matches Stage::VerifyRoot(n) ==> n == 0 || (n < 6 && v.stage
            == Stage::VerifyRoot((n - 1) as u8) && r.ok),
        v.stage matches Stage::VerifyRoot(n) ==> (n < 5 && r.ok ==> v.after(r).stage
            == Stage::VerifyRoot((n + 1) as u8)),
        v.after(r).stage is RemoveFailed <==> (v.stage is VerifyExists || v.stage
            is VerifySubvolume || v.stage is VerifyRoot || v.stage is VerifyHome || v.stage
            is VerifyOther) && (!r.ok || v.stage is VerifyHome && !r.nonempty),
        v.after(r).stage is RollBack <==> v.existed && (v.stage is TakeSnapshot && !r.ok
            || v.stage is RemoveFailed && r.ok),
        v.after(r).existed == if v.stage is CheckCurrent {
            r.ok
        } else {
            v.existed
        },
{
}

/// Whether a reply is the last good one that a restored subvolume needs.
pub open spec fn passes_last_check(v: RestoreView, r: ReplyView) -> bool {
    ||| v.stage == Stage::VerifyRoot(5) && r.ok
    ||| v.stage is VerifyHome && r.ok && r.nonempty
    ||| v.stage is VerifyOther && r.ok
}

/// A restore succeeds only once the restored subvolume has passed its last
/// check; the previous one is deleted then if that is wanted and there was one,
/// and its deletion decides nothing.
pub proof fn law_success_is_the_last_check_passed(v: RestoreView, r: ReplyView)
    requires
        v.stage !is Finished,
        v.stage matches Stage::VerifyRoot(n) ==> n < 6,
    ensures
        v.after(r).stage is CleanUp <==> passes_last_check(v, r) && v.auto_cleanup && v.existed,
        v.after(r).stage is Finished && v.after(r).outcome is Success <==> v.stage is CleanUp || (
        passes_last_check(v, r) && !(v.auto_cleanup && v.existed)),
        v.after(r).stage is Finished && v.after(r).outcome is RollbackFailed <==> !r.ok && (
        v.stage is RemoveFailed || v.stage is RollBack),
{
}

/// What failed before anything was touched, or could be rolled back, is said to
/// have failed.
pub proof fn law_failures_are_reported(v: RestoreView, r: ReplyView)
    requires
        v.stage !is Finished,
    ensures
        v.after(r).stage is Finished && v.after(r).outcome is Failed <==> {
            ||| !r.ok && (v.stage is CheckSource || v.stage is GuardCurrent || v.stage
                is MoveAside)
            ||| r.ok && (v.stage is CheckBroken || v.stage is RollBack)
            ||| !v.existed && (v.stage is TakeSnapshot && !r.ok || v.stage is RemoveFailed && r.ok)
        },
{
}

/// The reason that is told is the one found: of the step that failed, and, once
/// something is being rolled back, of what set that off.
pub proof fn law_reasons_say_what_failed(v: RestoreView, r: ReplyView)
    ensures
        v.stage is CheckSource && !r.ok ==> v.after(r).outcome == OutcomeView::Failed(
            v.source + " no longer exists"@,
        ),
        v.stage is GuardCurrent && !r.ok ==> v.after(r).outcome == OutcomeView::Failed(
            v.current + " is not a btrfs subvolume: "@ + r.text,
        ),
        v.stage is CheckBroken && r.ok ==> v.after(r).outcome == OutcomeView::Failed(
            v.broken + " already exists"@,
        ),
        v.stage is MoveAside && !r.ok ==> v.after(r).outcome == OutcomeView::Failed(
            "cannot move "@ + v.subvol_name + ": "@ + r.text,
        ),
        v.stage is TakeSnapshot && !r.ok && v.existed ==> v.after(r).reason
            == "snapshot failed: "@ + r.text,
        v.stage is TakeSnapshot && !r.ok && !v.existed ==> v.after(r).outcome
            == OutcomeView::Failed("snapshot failed: "@ + r.text),
        v.stage is VerifyExists && !r.ok ==> v.after(r).reason
            == "restored subvolume is missing"@,
        v.stage is VerifySubvolume && !r.ok ==> v.after(r).reason
            == "restored path is not a subvolume: "@ + r.text,
        v.stage == Stage::VerifyRoot(0) && !r.ok ==> v.after(r).reason == "restored root has no /"@
            + "etc"@,
        v.stage == Stage::VerifyRoot(1) && !r.ok ==> v.after(r).reason == "restored root has no /"@
            + "usr"@,
        v.stage == Stage::VerifyRoot(2) && !r.ok ==> v.after(r).reason == "restored root has no /"@
            + "var"@,
        v.stage == Stage::VerifyRoot(3) && !r.ok ==> v.after(r).reason == "restored root has no /"@
            + "bin"@,
        v.stage == Stage::VerifyRoot(4) && !r.ok ==> v.after(r).reason == "restored root has no /"@
            + "etc/fstab"@,
        v.stage == Stage::VerifyRoot(5) && !r.ok ==> v.after(r).reason == "restored root has no /"@
            + "etc/passwd"@,
        v.stage is VerifyHome && !r.ok ==> v.after(r).reason == "restored home is unreadable: "@
            + r.text,
        v.stage is VerifyHome && r.ok && !r.nonempty ==> v.after(r).reason
            == "restored home is empty"@,
        v.stage is VerifyOther && !r.ok ==> v.after(r).reason
            == "restored subvolume is unreadable: "@ + r.text,
        v.stage is RemoveFailed && r.ok && v.existed ==> v.after(r).reason == v.reason,
        v.stage is RemoveFailed && r.ok && !v.existed ==> v.after(r).outcome
            == OutcomeView::Failed(v.reason),
        v.stage is RollBack && r.ok ==> v.after(r).outcome == OutcomeView::Failed(v.reason),
        v.stage is RollBack && !r.ok ==> v.after(r).outcome == OutcomeView::RollbackFailed(
            v.reason + "; original kept as "@ + v.broken + " ("@ + r.text + ")"@,
        ),
        v.stage is RemoveFailed && !r.ok ==> v.after(r).outcome == OutcomeView::RollbackFailed(
            v.reason + "; cannot remove the failed restore ("@ + r.text + "), original kept as "@
                + v.broken,
        ),
{
}

/// Whether the line `k` of mountinfo puts the subvolume `name` at `mountpoint`,
/// and no later line puts anything else there.
pub open spec fn is_put_at(
    mountinfo: Seq<char>,
    k: int,
    mount: Seq<char>,
    fs: Seq<char>,
    slashes: Seq<char>,
    name: Seq<char>,
    mountpoint: Seq<char>,
) -> bool {
    &&& 0 <= k < lines(mountinfo).len()
    &&& describes_mount(lines(mountinfo)[k], mount, fs, slashes + name, mountpoint)
    &&& forall|i: int| 0 <= i < slashes.len() ==> slashes[i] == '/'
    &&& name.len() > 0 ==> name[0] != '/'
    &&& forall|j: int, m: Seq<char>, f: Seq<char>, r: Seq<char>|
        k < j < lines(mountinfo).len() ==> !#[trigger] describes_mount(
            lines(mountinfo)[j],
            m,
            f,
            r,
            mountpoint,
        )
}

proof fn lemma_put_at(
    mountinfo: Seq<char>,
    k: int,
    mount: Seq<char>,
    fs: Seq<char>,
    slashes: Seq<char>,
    name: Seq<char>,
    mountpoint: Seq<char>,
)
    requires
        is_put_at(mountinfo, k, mount, fs, slashes, name, mountpoint),
    ensures
        subvolume_at(mountinfo, mountpoint) == Some(name),
{
    let root = slashes + name;
    law_the_last_mount_is_in_effect(mountinfo, mountpoint, k, mount, fs, root);
    let n = slashes.len() as int;
    assert forall|i: int| 0 <= i < n implies equal_to('/')(#[trigger] root[i]) by {
        assert(root[i] == slashes[i]);
    }
    if n < root.len() {
        assert(root[n] == name[0]);
    }
    lemma_run_len_is(root, equal_to('/'), n);
    assert(root.skip(n) =~= name);
}

/// What is mounted on / is checked as a root, under whatever name, and what is
/// mounted on /home as a home.
pub proof fn law_mounted_root_and_home_are_checked_as_such(
    v: RestoreView,
    r: ReplyView,
    k: int,
    mount: Seq<char>,
    fs: Seq<char>,
    slashes: Seq<char>,
)
    requires
        v.stage is ReadMounts,
    ensures
        is_put_at(r.text, k, mount, fs, slashes, v.subvol_name, "/"@) ==> v.after(r).stage
            == Stage::VerifyRoot(0),
        is_put_at(r.text, k, mount, fs, slashes, v.subvol_name, "/home"@) ==> v.after(r).stage
            is VerifyHome || v.after(r).stage == Stage::VerifyRoot(0),
        v.subvol_name == "@"@ ==> v.after(r).stage == Stage::VerifyRoot(0),
        v.subvol_name == "@home"@ ==> v.after(r).stage is VerifyHome || v.after(r).stage
            == Stage::VerifyRoot(0),
        v.after(r).stage == Stage::VerifyRoot(0) ==> v.subvol_name == "@"@ || subvolume_at(
            r.text,
            "/"@,
        ) == Some(v.subvol_name),
        v.after(r).stage is VerifyHome ==> v.subvol_name == "@home"@ || subvolume_at(
            r.text,
            "/home"@,
        ) == Some(v.subvol_name),
{
    if is_put_at(r.text, k, mount, fs, slashes, v.subvol_name, "/"@) {
        lemma_put_at(r.text, k, mount, fs, slashes, v.subvol_name, "/"@);
    }
    if is_put_at(r.text, k, mount, fs, slashes, v.subvol_name, "/home"@) {
        lemma_put_at(r.text, k, mount, fs, slashes, v.subvol_name, "/home"@);
    }
}

/// What is being rolled back, or has failed, never becomes a success.
proof fn lemma_failure_is_final(v: RestoreView, w: World, rs: Seq<ReplyView>)
    requires
        v.stage is RemoveFailed || v.stage is RollBack || v.stage is Finished && v.outcome
            !is Success,
    ensures
        !(run(v, w, rs).0.stage is Finished && run(v, w, rs).0.outcome is Success),
    decreases rs.len(),
{
    if rs.len() > 0 {
        lemma_failure_is_final(v.after(rs[0]), effect(v, w, rs[0]), rs.drop_first());
    }
}

/// A restored root is accepted only with everything that a root must have: from
/// its n-th check on, each of the replies has to be good.
proof fn lemma_root_needs_the_rest(v: RestoreView, w: World, rs: Seq<ReplyView>, n: u8)
    requires
        v.stage == Stage::VerifyRoot(n),
        n < 6,
        run(v, w, rs).0.stage is Finished,
        run(v, w, rs).0.outcome is Success,
    ensures
        rs.len() >= 6 - n,
        forall|k: int| 0 <= k < 6 - n ==> (#[trigger] rs[k]).ok,
        forall|k: int|
            0 <= k < 6 - n ==> (#[trigger] run(v, w, rs.take(k)).0).stage == Stage::VerifyRoot(
                (n + k) as u8,
            ),
    decreases rs.len(),
{
    let next = v.after(rs[0]);
    let rest = rs.drop_first();
    let world = effect(v, w, rs[0]);
    if !rs[0].ok {
        lemma_failure_is_final(next, world, rest);
    }
    assert(rs.take(0) =~= Seq::empty());
    if n < 5 {
        let m = (n + 1) as u8;
        lemma_root_needs_the_rest(next, world, rest, m);
        assert forall|k: int| 0 <= k < 6 - n implies (#[trigger] rs[k]).ok by {
            if k > 0 {
                assert(rs[k] == rest[k - 1]);
            }
        }
        assert forall|k: int| 0 <= k < 6 - n implies (#[trigger] run(v, w, rs.take(k)).0).stage
            == Stage::VerifyRoot((n + k) as u8) by {
            if k > 0 {
                assert(rs.take(k).drop_first() =~= rest.take(k - 1));
                assert(rs.take(k)[0] == rs[0]);
                assert(run(next, world, rest.take(k - 1)).0.stage == Stage::VerifyRoot(
                    (m + (k - 1)) as u8,
                ));
            }
        }
    }
}

/// A restore of the subvolume mounted on /, or of "@", succeeds only if each
/// thing that a root must have was asked about and found.
pub proof fn law_restored_root_has_everything(
    v: RestoreView,
    w: World,
    rs: Seq<ReplyView>,
    k: int,
    mount: Seq<char>,
    fs: Seq<char>,
    slashes: Seq<char>,
    n: int,
)
    requires
        v.stage is ReadMounts,
        rs.len() > 0,
        v.subvol_name == "@"@ || is_put_at(
            rs[0].text,
            k,
            mount,
            fs,
            slashes,
            v.subvol_name,
            "/"@,
        ),
        run(v, w, rs).0.stage is Finished,
        run(v, w, rs).0.outcome is Success,
        0 <= n < 6,
    ensures
        rs.len() > 6,
        rs[n + 1].ok,
        run(v, w, rs.take(n + 1)).0.step() == if n == 0 {
            StepView::Exists(path_join(v.current, "etc"@, '/'))
        } else if n == 1 {
            StepView::Exists(path_join(v.current, "usr"@, '/'))
        } else if n == 2 {
            StepView::Exists(path_join(v.current, "var"@, '/'))
        } else if n == 3 {
            StepView::Exists(path_join(v.current, "bin"@, '/'))
        } else if n == 4 {
            StepView::IsFile(path_join(v.current, "etc/fstab"@, '/'))
        } else {
            StepView::IsFile(path_join(v.current, "etc/passwd"@, '/'))
        },
{
    let next = v.after(rs[0]);
    let rest = rs.drop_first();
    let world = effect(v, w, rs[0]);
    law_mounted_root_and_home_are_checked_as_such(v, rs[0], k, mount, fs, slashes);
    lemma_root_needs_the_rest(next, world, rest, 0);
    assert(rest[n] == rs[n + 1]);
    assert(rs.take(n + 1).drop_first() =~= rest.take(n));
    assert(rs.take(n + 1)[0] == rs[0]);
    let then = run(next, world, rest.take(n)).0;
    assert(then.stage == Stage::VerifyRoot((0 + n) as u8));
    law_restore_stays_about_the_same(next, world, rest.take(n));
    law_questions_are_about_the_right_paths(then);
}

/// A restored subvolume that is no root succeeds only if it could be read, and
/// a home only if there was something in it.
pub proof fn law_restored_subvolume_was_read(v: RestoreView, w: World, rs: Seq<ReplyView>)
    requires
        v.stage is VerifyHome || v.stage is VerifyOther,
        run(v, w, rs).0.stage is Finished,
        run(v, w, rs).0.outcome is Success,
    ensures
        rs.len() > 0,
        rs[0].ok,
        v.stage is VerifyHome ==> rs[0].nonempty,
{
    let next = v.after(rs[0]);
    if next.stage is RemoveFailed {
        lemma_failure_is_final(next, effect(v, w, rs[0]), rs.drop_first());
    }
}

/// Steps on subvolumes are `btrfs subvolume` commands with their paths; the
/// others are no commands.
pub proof fn law_commands_are_those_of_btrfs(step: StepView, path: Seq<char>, to: Seq<char>)
    ensures
        command_for(StepView::Show(path)) == Some(seq!["btrfs"@, "subvolume"@, "show"@, path]),
        command_for(StepView::Snapshot(path, to)) == Some(
            seq!["btrfs"@, "subvolume"@, "snapshot"@, path, to],
        ),
        command_for(StepView::Delete(path)) == Some(seq!["btrfs"@, "subvolume"@, "delete"@, path]),
        delete_command(path) == seq!["btrfs"@, "subvolume"@, "delete"@, path],
        command_for(step) is Some <==> step is Show || step is Snapshot || step is Delete,
{
}

/// The views of a restore show its fields.
pub proof fn law_view_of_a_restore_shows_its_fields(
    restore: Restore,
    reply: Reply,
    path: String,
    to: String,
)
    ensures
        restore@.subvol_name == restore.subvol_name@,
        restore@.source == restore.source@,
        restore@.current == restore.current@,
        restore@.broken == restore.broken@,
        restore@.auto_cleanup == restore.auto_cleanup,
        restore@.existed == restore.existed,
        restore@.stage == restore.stage,
        restore@.reason == restore.reason@,
        restore@.outcome == restore.outcome@,
        RestoreOutcome::Success@ is Success,
        RestoreOutcome::Failed(path)@ == OutcomeView::Failed(path@),
        RestoreOutcome::RollbackFailed(path)@ == OutcomeView::RollbackFailed(path@),
        reply@.ok == reply.ok,
        reply@.nonempty == reply.nonempty,
        reply@.text == reply.text@,
        Step::Exists(path)@ == StepView::Exists(path@),
        Step::IsFile(path)@ == StepView::IsFile(path@),
        Step::ReadDir(path)@ == StepView::ReadDir(path@),
        Step::ReadMounts@ is ReadMounts,
        Step::Rename(path, to)@ == StepView::Rename(path@, to@),
        Step::Show(path)@ == StepView::Show(path@),
        Step::Snapshot(path, to)@ == StepView::Snapshot(path@, to@),
        Step::Delete(path)@ == StepView::Delete(path@),
        Step::Finish@ is Finish,
{
}

} // verus!
