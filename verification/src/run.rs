//! Watching a run of btrbk: collecting its output, cancelling it, and noticing
//! its end.
//!
//! Times are nanoseconds since some fixed moment.

use crate::canvas::Style;
use crate::keys::KEY_ESC;
use crate::output::{clean, is_blank, messages, OutputLog, OutputLogView};
use crate::text::trim;
use vstd::prelude::*;

verus! {

/// How long btrbk has to stop by itself after it has been interrupted.
pub const PATIENCE: u64 = 5_000_000_000;

/// How long output may stay silent after btrbk has gone, when something else
/// keeps its pipes open.
pub const LINGER: u64 = 500_000_000;

/// A run of btrbk.
#[derive(Debug)]
pub struct BtrbkRun {
    pub log: OutputLog,
    /// When it was interrupted.
    pub cancelled_at: Option<u64>,
    /// When it was first seen to have exited.
    pub exited_at: Option<u64>,
    /// Whether it has been killed.
    pub killed: bool,
}

/// A run of btrbk, with its output as text.
pub struct BtrbkRunView {
    pub log: OutputLogView,
    pub cancelled_at: Option<u64>,
    pub exited_at: Option<u64>,
    pub killed: bool,
}

impl View for BtrbkRun {
    type V = BtrbkRunView;

    open spec fn view(&self) -> BtrbkRunView {
        BtrbkRunView {
            log: self.log@,
            cancelled_at: self.cancelled_at,
            exited_at: self.exited_at,
            killed: self.killed,
        }
    }
}

/// Whether more than `limit` has passed since a moment, if there was one.
pub open spec fn is_past(since: Option<u64>, limit: u64, now: u64) -> bool {
    match since {
        Some(since) => now > since + limit,
        None => false,
    }
}

/// Whether any of the messages shows.
pub open spec fn any_shown(list: Seq<(Seq<char>, bool)>) -> bool {
    exists|i: int| 0 <= i < list.len() && !is_blank(clean(#[trigger] list[i].0))
}

/// The log after several messages.
pub open spec fn log_after(log: OutputLogView, list: Seq<(Seq<char>, bool)>) -> OutputLogView
    decreases list.len(),
{
    if list.len() == 0 {
        log
    } else {
        log_after(log, list.drop_last()).push(list.last().0, list.last().1)
    }
}

impl BtrbkRunView {
    /// A run that has just begun.
    pub open spec fn start() -> BtrbkRunView {
        BtrbkRunView {
            log: OutputLogView::empty(),
            cancelled_at: None,
            exited_at: None,
            killed: false,
        }
    }

    /// Whether a key interrupts the run: ESC does, once.
    pub open spec fn interrupted_by(self, key: i32) -> bool {
        key == KEY_ESC && self.cancelled_at is None
    }

    /// The run after a key.
    pub open spec fn after_key(self, key: i32, now: u64) -> BtrbkRunView {
        if self.interrupted_by(key) {
            BtrbkRunView { cancelled_at: Some(now), ..self }
        } else {
            self
        }
    }

    /// Whether the run must be killed: it was interrupted and has not stopped
    /// in time.
    pub open spec fn must_be_killed(self, now: u64) -> bool {
        is_past(self.cancelled_at, PATIENCE, now) && !self.killed
    }

    /// The run after a look at the time.
    pub open spec fn after_time(self, now: u64) -> BtrbkRunView {
        BtrbkRunView { killed: self.killed || self.must_be_killed(now), ..self }
    }

    /// The run after a look at the process.
    pub open spec fn after_look(self, exited: bool, now: u64) -> BtrbkRunView {
        BtrbkRunView {
            exited_at: if self.exited_at is None && exited {
                Some(now)
            } else {
                self.exited_at
            },
            ..self
        }
    }

    /// Whether the run is over: btrbk has exited, and its output has ended or
    /// has been silent for long enough.
    pub open spec fn is_over(self, disconnected: bool, dirty: bool, now: u64) -> bool {
        self.exited_at is Some && (disconnected || (!dirty && is_past(
            self.exited_at,
            LINGER,
            now,
        )))
    }
}

fn past(since: Option<u64>, limit: u64, now: u64) -> (yes: bool)
    ensures
        yes == is_past(since, limit, now),
{
    match since {
        Some(since) => now > since && now - since > limit,
        None => false,
    }
}

/// How a run ended.
#[derive(Debug, PartialEq)]
pub enum RunEnd {
    /// It was cancelled.
    Cancelled,
    Succeeded,
    Failed(String),
}

/// How a run ended, as text.
pub enum RunEndView {
    Cancelled,
    Succeeded,
    Failed(Seq<char>),
}

impl View for RunEnd {
    type V = RunEndView;

    open spec fn view(&self) -> RunEndView {
        match self {
            RunEnd::Cancelled => RunEndView::Cancelled,
            RunEnd::Succeeded => RunEndView::Succeeded,
            RunEnd::Failed(reason) => RunEndView::Failed(reason@),
        }
    }
}

impl BtrbkRunView {
    /// How the run ended: the reason of a failure is the last line of output.
    pub open spec fn end(self, success: bool) -> RunEndView {
        if self.cancelled_at is Some {
            RunEndView::Cancelled
        } else if success {
            RunEndView::Succeeded
        } else if self.log.lines.len() > 0 {
            RunEndView::Failed(self.log.lines.last())
        } else {
            RunEndView::Failed("btrbk exited with an error"@)
        }
    }
}

impl BtrbkRun {
    /// A run that has just begun.
    pub fn new() -> (run: Self)
        ensures
            run@ == BtrbkRunView::start(),
    {
        BtrbkRun {
            log: OutputLog::default(),
            cancelled_at: None,
            exited_at: None,
            killed: false,
        }
    }

    /// A key while btrbk runs. Returns whether to interrupt it, with the
    /// signal that Ctrl-C sends in a shell.
    pub fn press(&mut self, key: i32, now: u64) -> (interrupt: bool)
        ensures
            interrupt == old(self)@.interrupted_by(key),
            final(self)@ == old(self)@.after_key(key, now),
    {
        if key == KEY_ESC && self.cancelled_at.is_none() {
            self.cancelled_at = Some(now);
            true
        } else {
            false
        }
    }

    /// A look at the time. Returns whether to kill btrbk.
    pub fn escalate(&mut self, now: u64) -> (kill: bool)
        ensures
            kill == old(self)@.must_be_killed(now),
            final(self)@ == old(self)@.after_time(now),
    {
        if !self.killed && past(self.cancelled_at, PATIENCE, now) {
            self.killed = true;
            true
        } else {
            false
        }
    }

    /// Takes in output. Returns whether anything changed on screen.
    pub fn receive(&mut self, list: &Vec<(String, bool)>) -> (dirty: bool)
        ensures
            final(self)@ == (BtrbkRunView {
                log: log_after(old(self)@.log, messages(list@)),
                ..old(self)@
            }),
            dirty == any_shown(messages(list@)),
    {
        let ghost all = messages(list@);
        let ghost before = self@;
        let mut dirty = false;
        let mut i: usize = 0;
        while i < list.len()
            invariant
                i <= list@.len(),
                all == messages(list@),
                self@ == (BtrbkRunView { log: log_after(before.log, all.take(i as int)), ..before }),
                dirty == any_shown(all.take(i as int)),
            decreases list@.len() - i,
        {
            let shown = self.log.push(list[i].0.as_str(), list[i].1);
            proof {
                let old_part = all.take(i as int);
                let part = all.take(i + 1);
                assert(part.drop_last() =~= old_part);
                assert(part.last() == all[i as int]);
                if dirty {
                    let k = choose|k: int|
                        0 <= k < old_part.len() && !is_blank(clean(#[trigger] old_part[k].0));
                    assert(part[k] == old_part[k]);
                }
                if shown {
                    assert(!is_blank(clean(part[i as int].0)));
                }
                if any_shown(part) {
                    let k = choose|k: int|
                        0 <= k < part.len() && !is_blank(clean(#[trigger] part[k].0));
                    if k < i {
                        assert(old_part[k] == part[k]);
                    }
                }
            }
            dirty = dirty || shown;
            i = i + 1;
        }
        assert(all.take(i as int) =~= all);
        dirty
    }

    /// A look at the process and its pipes. Returns whether the run is over.
    pub fn observe(&mut self, exited: bool, disconnected: bool, dirty: bool, now: u64) -> (over:
        bool)
        ensures
            final(self)@ == old(self)@.after_look(exited, now),
            over == final(self)@.is_over(disconnected, dirty, now),
    {
        if self.exited_at.is_none() && exited {
            self.exited_at = Some(now);
        }
        self.exited_at.is_some() && (disconnected || (!dirty && past(
            self.exited_at,
            LINGER,
            now,
        )))
    }

    /// How the run ended; `success` is what its exit status said.
    pub fn end(&self, success: bool) -> (end: RunEnd)
        ensures
            end@ == self@.end(success),
    {
        if self.cancelled_at.is_some() {
            RunEnd::Cancelled
        } else if success {
            RunEnd::Succeeded
        } else if self.log.lines.len() > 0 {
            RunEnd::Failed(self.log.lines[self.log.lines.len() - 1].clone())
        } else {
            RunEnd::Failed("btrbk exited with an error".to_owned())
        }
    }
}

impl RunEnd {
    /// Whether the whole process group of the run is killed once btrbk is gone:
    /// nothing of a run may outlive its cancellation.
    pub fn kills_the_rest(&self) -> (kill: bool)
        ensures
            kill == (self@ is Cancelled),
    {
        match self {
            RunEnd::Cancelled => true,
            RunEnd::Succeeded | RunEnd::Failed(_) => false,
        }
    }

    /// The line that closes a run and waits for a key; none after a cancel.
    /// ASCII only: in a C locale other glyphs would be garbled.
    pub fn banner(&self) -> (line: Option<(Style, &'static str)>)
        ensures
            match line {
                Some((style, text)) => match self@ {
                    RunEndView::Cancelled => false,
                    RunEndView::Succeeded => style == Style::Success && text@
                        == "[OK] Snapshots created successfully! Press any key to continue..."@,
                    RunEndView::Failed(_) => style == Style::Warning && text@
                        == "[FAILED] Error creating snapshots! Press any key to continue..."@,
                },
                None => self@ is Cancelled,
            },
    {
        match self {
            RunEnd::Cancelled => None,
            RunEnd::Succeeded => Some(
                (
                    Style::Success,
                    "[OK] Snapshots created successfully! Press any key to continue...",
                ),
            ),
            RunEnd::Failed(_) => Some(
                (
                    Style::Warning,
                    "[FAILED] Error creating snapshots! Press any key to continue...",
                ),
            ),
        }
    }

    /// What the run came to.
    pub fn result(self) -> (result: Result<(), String>)
        ensures
            match result {
                Ok(()) => self@ is Succeeded,
                Err(reason) => match self@ {
                    RunEndView::Cancelled => reason@ == "cancelled by user"@,
                    RunEndView::Succeeded => false,
                    RunEndView::Failed(why) => reason@ == why,
                },
            },
    {
        match self {
            RunEnd::Cancelled => Err("cancelled by user".to_owned()),
            RunEnd::Succeeded => Ok(()),
            RunEnd::Failed(reason) => Err(reason),
        }
    }
}

// ---------------------------------------------------------------------------
// Laws

/// What can happen while btrbk runs.
pub enum Happening {
    Key(i32, u64),
    Time(u64),
    Output(Seq<(Seq<char>, bool)>),
    Look(bool, u64),
}

/// The run after something has happened.
pub open spec fn after(v: BtrbkRunView, h: Happening) -> BtrbkRunView {
    match h {
        Happening::Key(key, now) => v.after_key(key, now),
        Happening::Time(now) => v.after_time(now),
        Happening::Output(list) => BtrbkRunView { log: log_after(v.log, list), ..v },
        Happening::Look(exited, now) => v.after_look(exited, now),
    }
}

/// The run after several things have happened.
pub open spec fn after_all(v: BtrbkRunView, hs: Seq<Happening>) -> BtrbkRunView
    decreases hs.len(),
{
    if hs.len() == 0 {
        v
    } else {
        after(after_all(v, hs.drop_last()), hs.last())
    }
}

/// How often btrbk has been interrupted.
pub open spec fn interrupts(v: BtrbkRunView, hs: Seq<Happening>) -> nat
    decreases hs.len(),
{
    if hs.len() == 0 {
        0
    } else {
        interrupts(v, hs.drop_last()) + match hs.last() {
            Happening::Key(key, _) => if after_all(v, hs.drop_last()).interrupted_by(key) {
                1nat
            } else {
                0nat
            },
            _ => 0nat,
        }
    }
}

/// How often btrbk has been killed.
pub open spec fn kills(v: BtrbkRunView, hs: Seq<Happening>) -> nat
    decreases hs.len(),
{
    if hs.len() == 0 {
        0
    } else {
        kills(v, hs.drop_last()) + match hs.last() {
            Happening::Time(now) => if after_all(v, hs.drop_last()).must_be_killed(now) {
                1nat
            } else {
                0nat
            },
            _ => 0nat,
        }
    }
}

/// Whatever happens, a run is interrupted at most once and killed at most
/// once, and it is killed only if it has been interrupted.
pub proof fn law_signals_are_sent_once(hs: Seq<Happening>)
    ensures
        interrupts(BtrbkRunView::start(), hs) <= 1,
        interrupts(BtrbkRunView::start(), hs) == 1 <==> after_all(
            BtrbkRunView::start(),
            hs,
        ).cancelled_at is Some,
        kills(BtrbkRunView::start(), hs) <= interrupts(BtrbkRunView::start(), hs),
        kills(BtrbkRunView::start(), hs) == 1 <==> after_all(BtrbkRunView::start(), hs).killed,
    decreases hs.len(),
{
    if hs.len() > 0 {
        law_signals_are_sent_once(hs.drop_last());
    }
}

/// btrbk gets its time to stop by itself: it is killed only when more than
/// that has passed since it was interrupted.
pub proof fn law_btrbk_gets_time_to_stop(v: BtrbkRunView, now: u64)
    requires
        v.must_be_killed(now),
    ensures
        v.cancelled_at matches Some(since) && now > since + PATIENCE,
{
}

/// A run is never over before btrbk has exited.
pub proof fn law_run_waits_for_btrbk(v: BtrbkRunView, disconnected: bool, dirty: bool, now: u64)
    requires
        v.is_over(disconnected, dirty, now),
    ensures
        v.exited_at is Some,
{
}

/// A cancelled run never counts as a success, whatever btrbk's exit status.
pub proof fn law_cancelled_run_is_no_success(hs: Seq<Happening>, success: bool)
    requires
        interrupts(BtrbkRunView::start(), hs) > 0,
    ensures
        after_all(BtrbkRunView::start(), hs).end(success) is Cancelled,
{
    law_signals_are_sent_once(hs);
}

proof fn lemma_log_after_is_well_formed(log: OutputLogView, list: Seq<(Seq<char>, bool)>)
    requires
        log.well_formed(),
    ensures
        log_after(log, list).well_formed(),
    decreases list.len(),
{
    if list.len() > 0 {
        lemma_log_after_is_well_formed(log, list.drop_last());
        crate::output::law_push_keeps_log_well_formed(
            log_after(log, list.drop_last()),
            list.last().0,
            list.last().1,
        );
    }
}

/// However much btrbk prints, the output kept is bounded, clean and not blank.
pub proof fn law_output_stays_bounded(hs: Seq<Happening>)
    ensures
        after_all(BtrbkRunView::start(), hs).log.well_formed(),
    decreases hs.len(),
{
    if hs.len() > 0 {
        law_output_stays_bounded(hs.drop_last());
        if let Happening::Output(list) = hs.last() {
            lemma_log_after_is_well_formed(
                after_all(BtrbkRunView::start(), hs.drop_last()).log,
                list,
            );
        }
    }
}

/// Escape interrupts btrbk, the first time it is pressed, and that moment is
/// kept; no other key does anything.
pub proof fn law_escape_cancels_the_run(v: BtrbkRunView, key: i32, now: u64)
    ensures
        v.interrupted_by(key) <==> key == 27 && v.cancelled_at is None,
        key == 27 && v.cancelled_at is None ==> v.after_key(key, now) == (BtrbkRunView {
            cancelled_at: Some(now),
            ..v
        }),
        key != 27 || v.cancelled_at is Some ==> v.after_key(key, now) == v,
{
}

/// btrbk is killed once five seconds have passed since it was interrupted, if
/// it has not been killed yet, and not before.
pub proof fn law_patience_ends_after_five_seconds(v: BtrbkRunView, since: u64, now: u64)
    ensures
        v.cancelled_at is None ==> !v.must_be_killed(now),
        v.cancelled_at == Some(since) ==> (v.must_be_killed(now) <==> !v.killed && now - since
            > 5_000_000_000),
        v.after_time(now) == (BtrbkRunView { killed: v.killed || v.must_be_killed(now), ..v }),
        PATIENCE == 5_000_000_000,
{
}

/// The moment when btrbk was first seen to have exited is kept, and nothing
/// else changes.
pub proof fn law_exit_is_noticed_once(v: BtrbkRunView, exited: bool, now: u64)
    ensures
        v.exited_at is Some || !exited ==> v.after_look(exited, now) == v,
        v.exited_at is None && exited ==> v.after_look(exited, now) == (BtrbkRunView {
            exited_at: Some(now),
            ..v
        }),
{
}

/// A run is over once btrbk has exited and its output has ended, or has been
/// silent for half a second since.
pub proof fn law_run_ends_with_its_output(
    v: BtrbkRunView,
    since: u64,
    disconnected: bool,
    dirty: bool,
    now: u64,
)
    ensures
        v.exited_at is None ==> !v.is_over(disconnected, dirty, now),
        v.exited_at == Some(since) ==> (v.is_over(disconnected, dirty, now) <==> disconnected || (
        !dirty && now - since > 500_000_000)),
        LINGER == 500_000_000,
{
}

/// How a run ended: cancelled if it was interrupted, else by its exit status,
/// and the reason of a failure is the last line of output, if there was any.
pub proof fn law_end_tells_how_the_run_went(v: BtrbkRunView, success: bool)
    ensures
        v.end(success) is Cancelled <==> v.cancelled_at is Some,
        v.end(success) is Succeeded <==> v.cancelled_at is None && success,
        v.end(success) matches RunEndView::Failed(reason) ==> {
            &&& v.log.lines.len() > 0 ==> reason == v.log.lines[v.log.lines.len() - 1]
            &&& v.log.lines.len() == 0 ==> reason == "btrbk exited with an error"@
        },
{
}

/// A run begins with no output, and has neither been interrupted nor exited.
pub proof fn law_run_begins_afresh(run: BtrbkRun, reason: String)
    ensures
        BtrbkRunView::start().log.lines.len() == 0,
        !BtrbkRunView::start().log.last_is_transient,
        BtrbkRunView::start().cancelled_at is None,
        BtrbkRunView::start().exited_at is None,
        !BtrbkRunView::start().killed,
        run@.log == run.log@,
        run@.cancelled_at == run.cancelled_at,
        run@.exited_at == run.exited_at,
        run@.killed == run.killed,
        RunEnd::Cancelled@ is Cancelled,
        RunEnd::Succeeded@ is Succeeded,
        RunEnd::Failed(reason)@ == RunEndView::Failed(reason@),
{
}

/// Output is taken in message by message, in order, and the screen changes if
/// any of them can be seen.
pub proof fn law_output_is_taken_in_order(
    log: OutputLogView,
    a: Seq<(Seq<char>, bool)>,
    b: Seq<(Seq<char>, bool)>,
    text: Seq<char>,
    transient: bool,
)
    ensures
        log_after(log, a + b) == log_after(log_after(log, a), b),
        log_after(log, seq![(text, transient)]) == log.push(text, transient),
        log_after(log, Seq::empty()) == log,
        any_shown(a + b) <==> any_shown(a) || any_shown(b),
        any_shown(seq![(text, transient)]) <==> trim(clean(text)).len() > 0,
        !any_shown(Seq::empty()),
    decreases b.len(),
{
    reveal_with_fuel(log_after, 2);
    let one = seq![(text, transient)];
    assert(one.drop_last() =~= Seq::empty());
    assert(one[0].0 == text);
    if trim(clean(text)).len() > 0 {
        assert(!is_blank(clean(one[0].0)));
    }
    let whole = a + b;
    if any_shown(a) {
        let i = choose|i: int| 0 <= i < a.len() && !is_blank(clean(#[trigger] a[i].0));
        assert(whole[i] == a[i]);
    }
    if any_shown(b) {
        let i = choose|i: int| 0 <= i < b.len() && !is_blank(clean(#[trigger] b[i].0));
        assert(whole[i + a.len()] == b[i]);
    }
    if any_shown(whole) {
        let i = choose|i: int| 0 <= i < whole.len() && !is_blank(clean(#[trigger] whole[i].0));
        if i < a.len() {
            assert(a[i] == whole[i]);
        } else {
            assert(b[i - a.len()] == whole[i]);
        }
    }
    if b.len() == 0 {
        assert(whole =~= a);
    } else {
        assert(whole.drop_last() =~= a + b.drop_last());
        assert(whole.last() == b.last());
        law_output_is_taken_in_order(log, a, b.drop_last(), text, transient);
    }
}

} // verus!
