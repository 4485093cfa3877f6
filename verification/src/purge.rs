//! What a purge may delete: the snapshots older than the one that the backup
//! target needs as parent for the next incremental send.

use crate::output::{
    clean, from_utf8_lossy, last_line, last_shown, law_reason_is_the_last_line_with_anything_on_it,
    lossy_text,
};
use crate::paths::{join_text, path_join};
use crate::snapshots::{
    dated, directory_names, get_snapshots, groups_view, is_grouping, is_oldest_first, is_read,
    law_reversed_is_oldest_first, oldest_first, reversed_groups, snapshot_entries, snapshot_time,
    DirEntry, SnapshotGroups,
};
use crate::ssh::{btrbk_conf, first_target, no_options, parse_ssh_target, SshTarget};
use crate::text::{
    after_prefix, fields, law_stripping_undoes_prefixing, lemma_lines_ended, lemma_lines_joined,
    lemma_run_len_is, lines, other_than, run_len, spells, split_fields, split_lines, strip_prefix,
    text_of, texts, to_chars, to_text, trim, trimmed, views,
};
use crate::timestamp::time_less;
use vstd::hash_set::StringHashSet;
use vstd::prelude::*;
use vstd::utf8::{decode_utf8, valid_utf8};

verus! {

// ---------------------------------------------------------------------------
// UUIDs in command output

/// The received_uuid on a line with the fields `fs`: the field after the first
/// "received_uuid", unless it is "-", which means unset.
pub open spec fn line_uuid(fs: Seq<Seq<char>>) -> Option<Seq<char>> {
    let n = run_len(fs, other_than("received_uuid"@)) as int;
    if n + 1 < fs.len() && fs[n + 1] != "-"@ {
        Some(fs[n + 1])
    } else {
        None
    }
}

/// The received_uuid values on the lines `ls`.
pub open spec fn uuids_on(ls: Seq<Seq<char>>) -> Set<Seq<char>>
    decreases ls.len(),
{
    if ls.len() == 0 {
        Set::empty()
    } else {
        match line_uuid(fields(ls.last())) {
            Some(uuid) => uuids_on(ls.drop_last()).insert(uuid),
            None => uuids_on(ls.drop_last()),
        }
    }
}

/// received_uuid values in the output of `btrfs subvolume list -u -R`.
pub fn parse_received_uuids(output: &str) -> (uuids: StringHashSet)
    ensures
        uuids@ == uuids_on(lines(output@)),
{
    let chars = to_chars(output);
    let rows = split_lines(chars.as_slice());
    let ghost ls = lines(output@);
    let mut uuids = StringHashSet::new();
    let mut i: usize = 0;
    while i < rows.len()
        invariant
            i <= rows@.len(),
            views(rows@) == ls,
            uuids@ == uuids_on(ls.take(i as int)),
        decreases rows@.len() - i,
    {
        let parts = split_fields(rows[i]);
        let ghost fs = fields(rows@[i as int]@);
        assert(ls.take(i + 1).drop_last() =~= ls.take(i as int));
        assert(ls.take(i + 1).last() == rows@[i as int]@);
        let mut n: usize = 0;
        while n < parts.len() && !spells(parts[n], "received_uuid")
            invariant
                n <= parts@.len(),
                views(parts@) == fs,
                forall|k: int| 0 <= k < n ==> #[trigger] fs[k] != "received_uuid"@,
            decreases parts@.len() - n,
        {
            n = n + 1;
        }
        proof {
            if n < parts@.len() {
                assert(fs[n as int] == parts@[n as int]@);
            }
            lemma_run_len_is(fs, other_than("received_uuid"@), n as int);
        }
        if n < parts.len() && n + 1 < parts.len() && !spells(parts[n + 1], "-") {
            assert(fs[n + 1] == parts@[n + 1]@);
            let _ = uuids.insert(to_text(parts[n + 1]));
        }
        i = i + 1;
    }
    assert(ls.take(i as int) =~= ls);
    uuids
}

/// The UUID that the first of the lines `ls` with a plain "UUID:" gives.
/// "Parent UUID:" and "Received UUID:" are other fields.
pub open spec fn uuid_shown(ls: Seq<Seq<char>>) -> Option<Seq<char>>
    decreases ls.len(),
{
    if ls.len() == 0 {
        None
    } else {
        match strip_prefix(trim(ls[0]), "UUID:"@) {
            Some(value) => Some(trim(value)),
            None => uuid_shown(ls.drop_first()),
        }
    }
}

/// UUID in the output of `btrfs subvolume show`.
pub fn parse_subvolume_uuid(output: &str) -> (uuid: Option<String>)
    ensures
        text_of(uuid) == uuid_shown(lines(output@)),
{
    let chars = to_chars(output);
    let rows = split_lines(chars.as_slice());
    let ghost ls = lines(output@);
    let label = to_chars("UUID:");
    let mut i: usize = 0;
    assert(ls.skip(0) =~= ls);
    while i < rows.len()
        invariant
            i <= rows@.len(),
            ls == lines(output@),
            views(rows@) == ls,
            label@ == "UUID:"@,
            uuid_shown(ls) == uuid_shown(ls.skip(i as int)),
        decreases rows@.len() - i,
    {
        assert(ls.skip(i as int)[0] == rows@[i as int]@);
        assert(ls.skip(i as int).drop_first() =~= ls.skip(i + 1));
        if let Some(value) = after_prefix(trimmed(rows[i]), label.as_slice()) {
            return Some(to_text(trimmed(value)));
        }
        i = i + 1;
    }
    None
}

/// UUID of a local subvolume, from what `btrfs subvolume show` printed; none
/// if the command failed.
pub fn local_subvolume_uuid(success: bool, stdout: &[u8]) -> (uuid: Option<String>)
    ensures
        text_of(uuid) == if success {
            uuid_shown(lines(lossy_text(stdout@)))
        } else {
            None
        },
        success && valid_utf8(stdout@) ==> lossy_text(stdout@) == decode_utf8(stdout@),
{
    if !success {
        return None;
    }
    parse_subvolume_uuid(from_utf8_lossy(stdout).as_str())
}

// ---------------------------------------------------------------------------
// Querying the target

/// The target that the configuration declares. Fails when it could not be
/// read or declares none.
pub fn configured_target(conf: Result<String, String>) -> (target: Result<SshTarget, String>)
    ensures
        match (conf, target) {
            (Ok(conf), Ok(target)) => first_target(lines(conf@), no_options()) == Some(target@),
            (Ok(conf), Err(reason)) => first_target(lines(conf@), no_options()) is None
                && reason@ == "no ssh target in "@ + "/etc/btrbk/btrbk.conf"@,
            (Err(error), Ok(_)) => false,
            (Err(error), Err(reason)) => reason@ == "cannot read "@ + "/etc/btrbk/btrbk.conf"@
                + ": "@ + error@,
        },
{
    match conf {
        Ok(conf) => match parse_ssh_target(conf.as_str()) {
            Some(target) => Ok(target),
            None => {
                let mut reason = "no ssh target in ".to_owned();
                reason.append(btrbk_conf());
                Err(reason)
            },
        },
        Err(error) => {
            let mut reason = "cannot read ".to_owned();
            reason.append(btrbk_conf());
            reason.append(": ");
            reason.append(error.as_str());
            Err(reason)
        },
    }
}

/// Why a query of the target failed.
pub open spec fn unreachable_reason(stderr: Seq<char>) -> Seq<char> {
    "backup target unreachable: "@ + match last_shown(lines(stderr)) {
        Some(line) => line,
        None => "ssh failed"@,
    }
}

/// received_uuid of every subvolume present on the backup target, from what
/// the query printed.
///
/// Fails when the target could not be queried: the caller must refuse to
/// purge, since it cannot tell which snapshot is still needed as parent for
/// the next incremental send.
pub fn target_received_uuids(success: bool, stdout: &[u8], stderr: &[u8]) -> (r: Result<
    StringHashSet,
    String,
>)
    ensures
        match r {
            Ok(uuids) => success && uuids@ == uuids_on(lines(lossy_text(stdout@))),
            Err(reason) => !success && reason@ == unreachable_reason(lossy_text(stderr@)),
        },
        success && valid_utf8(stdout@) ==> lossy_text(stdout@) == decode_utf8(stdout@),
        !success && valid_utf8(stderr@) ==> lossy_text(stderr@) == decode_utf8(stderr@),
{
    if success {
        return Ok(parse_received_uuids(from_utf8_lossy(stdout).as_str()));
    }
    let mut reason = "backup target unreachable: ".to_owned();
    match last_line(stderr) {
        Some(line) => reason.append(line.as_str()),
        None => reason.append("ssh failed"),
    }
    Err(reason)
}

// ---------------------------------------------------------------------------
// The plan

/// Snapshots of one subvolume, oldest first, each with its UUID (None when it
/// could not be read).
pub type PurgeCandidates = (String, Vec<(String, Option<String>)>);

/// A snapshot's name and UUID.
pub type CandidateView = (Seq<char>, Option<Seq<char>>);

/// A subvolume with its snapshots, as texts.
pub type CandidatesView = (Seq<char>, Seq<CandidateView>);

/// Snapshots with their UUIDs as texts.
pub open spec fn snapshots_view(snapshots: Seq<(String, Option<String>)>) -> Seq<CandidateView> {
    snapshots.map_values(|s: (String, Option<String>)| (s.0@, text_of(s.1)))
}

/// Candidates as texts.
pub open spec fn candidates_view(groups: Seq<PurgeCandidates>) -> Seq<CandidatesView> {
    groups.map_values(|g: PurgeCandidates| (g.0@, snapshots_view(g.1@)))
}

/// What a purge would delete, computed before touching anything.
#[derive(Debug, PartialEq)]
pub struct PurgePlan {
    /// Snapshot names to delete, oldest first.
    pub delete: Vec<String>,
    /// Subvolumes left alone because they share no snapshot with the target.
    pub skipped: Vec<String>,
}

/// A plan as texts.
pub struct PurgePlanView {
    pub delete: Seq<Seq<char>>,
    pub skipped: Seq<Seq<char>>,
}

impl View for PurgePlan {
    type V = PurgePlanView;

    open spec fn view(&self) -> PurgePlanView {
        PurgePlanView { delete: texts(self.delete@), skipped: texts(self.skipped@) }
    }
}

/// Whether the target also holds the snapshot.
pub open spec fn on_target(snapshot: CandidateView, target: Set<Seq<char>>) -> bool {
    match snapshot.1 {
        Some(uuid) => target.contains(uuid),
        None => false,
    }
}

/// Position of the newest snapshot that the target also holds, or -1. It is
/// the parent for the next incremental send.
pub open spec fn parent_position(snapshots: Seq<CandidateView>, target: Set<Seq<char>>) -> int
    decreases snapshots.len(),
{
    if snapshots.len() == 0 {
        -1
    } else if on_target(snapshots.last(), target) {
        snapshots.len() - 1
    } else {
        parent_position(snapshots.drop_last(), target)
    }
}

/// The names of snapshots.
pub open spec fn names_of(snapshots: Seq<CandidateView>) -> Seq<Seq<char>> {
    snapshots.map_values(|s: CandidateView| s.0)
}

/// What a purge deletes of one subvolume: everything older than the parent.
/// Nothing when there is no parent, or only one snapshot.
pub open spec fn deletions(snapshots: Seq<CandidateView>, target: Set<Seq<char>>) -> Seq<
    Seq<char>,
> {
    let parent = parent_position(snapshots, target);
    if snapshots.len() <= 1 || parent < 0 {
        Seq::empty()
    } else {
        names_of(snapshots.take(parent))
    }
}

/// Whether a purge leaves a subvolume alone for want of a parent.
pub open spec fn is_skipped(snapshots: Seq<CandidateView>, target: Set<Seq<char>>) -> bool {
    snapshots.len() > 1 && parent_position(snapshots, target) < 0
}

/// The plan for all the subvolumes.
pub open spec fn plan_for(groups: Seq<CandidatesView>, target: Set<Seq<char>>) -> PurgePlanView
    decreases groups.len(),
{
    if groups.len() == 0 {
        PurgePlanView { delete: Seq::empty(), skipped: Seq::empty() }
    } else {
        let plan = plan_for(groups.drop_last(), target);
        let (prefix, snapshots) = groups.last();
        PurgePlanView {
            delete: plan.delete + deletions(snapshots, target),
            skipped: if is_skipped(snapshots, target) {
                plan.skipped.push(prefix)
            } else {
                plan.skipped
            },
        }
    }
}

/// Position of the newest snapshot that the target also holds.
fn newest_on_target(
    snapshots: &Vec<(String, Option<String>)>,
    target_uuids: &StringHashSet,
) -> (r: Option<usize>)
    ensures
        match r {
            Some(n) => n < snapshots@.len() && n == parent_position(
                snapshots_view(snapshots@),
                target_uuids@,
            ),
            None => parent_position(snapshots_view(snapshots@), target_uuids@) == -1,
        },
{
    let ghost all = snapshots_view(snapshots@);
    let mut n: usize = snapshots.len();
    assert(all.take(n as int) =~= all);
    while n > 0
        invariant
            n <= snapshots@.len(),
            all == snapshots_view(snapshots@),
            parent_position(all, target_uuids@) == parent_position(
                all.take(n as int),
                target_uuids@,
            ),
        decreases n,
    {
        assert(all.take(n as int).last() == all[n - 1]);
        assert(all.take(n as int).drop_last() =~= all.take(n - 1));
        let held = match &snapshots[n - 1].1 {
            Some(uuid) => target_uuids.contains(uuid.as_str()),
            None => false,
        };
        if held {
            return Some(n - 1);
        }
        n = n - 1;
    }
    None
}

/// Decides what a purge deletes. `groups` lists, per subvolume, its snapshots
/// oldest first with their UUID (None when it could not be read).
///
/// The newest snapshot the target also holds is the parent for the next
/// incremental send: it survives, together with everything newer. A subvolume
/// with nothing in common with the target is skipped altogether: its chain is
/// already broken, deleting more would only force a bigger full send.
pub fn compute_purge_plan(groups: &[PurgeCandidates], target_uuids: &StringHashSet) -> (plan:
    PurgePlan)
    ensures
        plan@ == plan_for(candidates_view(groups@), target_uuids@),
{
    let mut delete: Vec<String> = Vec::new();
    let mut skipped: Vec<String> = Vec::new();
    let ghost all = candidates_view(groups@);
    let mut i: usize = 0;
    assert(texts(delete@) =~= Seq::empty());
    assert(texts(skipped@) =~= Seq::empty());
    while i < groups.len()
        invariant
            i <= groups@.len(),
            all == candidates_view(groups@),
            texts(delete@) == plan_for(all.take(i as int), target_uuids@).delete,
            texts(skipped@) == plan_for(all.take(i as int), target_uuids@).skipped,
        decreases groups@.len() - i,
    {
        let prefix = &groups[i].0;
        let snapshots = &groups[i].1;
        let ghost plan = plan_for(all.take(i as int), target_uuids@);
        let ghost view = snapshots_view(snapshots@);
        assert(all.take(i + 1).drop_last() =~= all.take(i as int));
        assert(all.take(i + 1).last() == (prefix@, view));
        assert(plan.delete + Seq::empty() =~= plan.delete);
        if snapshots.len() > 1 {
            match newest_on_target(snapshots, target_uuids) {
                Some(keep_from) => {
                    let ghost gone = names_of(view.take(keep_from as int));
                    let mut k: usize = 0;
                    assert(plan.delete + gone.take(0) =~= plan.delete);
                    while k < keep_from
                        invariant
                            k <= keep_from < snapshots@.len(),
                            view == snapshots_view(snapshots@),
                            gone == names_of(view.take(keep_from as int)),
                            texts(delete@) == plan.delete + gone.take(k as int),
                        decreases keep_from - k,
                    {
                        let ghost delete0 = delete@;
                        delete.push(snapshots[k].0.clone());
                        assert(texts(delete@) =~= texts(delete0).push(gone[k as int]));
                        assert(plan.delete + gone.take(k + 1) =~= (plan.delete + gone.take(
                            k as int,
                        )).push(gone[k as int]));
                        k = k + 1;
                    }
                    assert(gone.take(k as int) =~= gone);
                },
                None => {
                    let ghost skipped0 = skipped@;
                    skipped.push(prefix.clone());
                    assert(texts(skipped@) =~= texts(skipped0).push(prefix@));
                },
            }
        }
        i = i + 1;
    }
    assert(all.take(i as int) =~= all);
    PurgePlan { delete, skipped }
}

/// The candidates: subvolumes with their snapshots, and for each snapshot, in
/// the same order, the UUID that was read.
pub open spec fn paired(
    groups: Seq<(Seq<char>, Seq<Seq<char>>)>,
    uuids: Seq<Seq<Option<Seq<char>>>>,
) -> Seq<CandidatesView> {
    Seq::new(
        groups.len(),
        |i: int|
            (
                groups[i].0,
                Seq::new(
                    groups[i].1.len(),
                    |j: int|
                        (
                            groups[i].1[j],
                            if i < uuids.len() && j < uuids[i].len() {
                                uuids[i][j]
                            } else {
                                None
                            },
                        ),
                ),
            ),
    )
}

/// UUIDs as texts.
pub open spec fn uuids_view(uuids: Seq<Vec<Option<String>>>) -> Seq<Seq<Option<Seq<char>>>> {
    uuids.map_values(|g: Vec<Option<String>>| g@.map_values(|u: Option<String>| text_of(u)))
}

/// Puts the UUIDs that were read beside the snapshots. A snapshot without one
/// counts as unreadable.
pub fn pair_with_uuids(
    groups: &SnapshotGroups,
    uuids: &Vec<Vec<Option<String>>>,
) -> (r: Vec<PurgeCandidates>)
    ensures
        candidates_view(r@) == paired(
            groups_view(groups@),
            uuids_view(uuids@),
        ),
        r@.len() == groups@.len(),
        forall|g: int, i: int|
            #![trigger r@[g].1@[i]]
            0 <= g < groups@.len() && 0 <= i < groups@[g].1@.len() ==> r@[g].1@[i].0@
                == groups@[g].1@[i]@ && text_of(r@[g].1@[i].1) == if g < uuids@.len() && i
                < uuids@[g]@.len() {
                text_of(uuids@[g]@[i])
            } else {
                None
            },
{
    let ghost want = paired(groups_view(groups@), uuids_view(uuids@));
    let mut r: Vec<PurgeCandidates> = Vec::new();
    let mut i: usize = 0;
    while i < groups.len()
        invariant
            i <= groups@.len(),
            want == paired(groups_view(groups@), uuids_view(uuids@)),
            candidates_view(r@) == want.take(i as int),
        decreases groups@.len() - i,
    {
        let ghost r0 = r@;
        let names = &groups[i].1;
        let mut row: Vec<(String, Option<String>)> = Vec::new();
        let mut j: usize = 0;
        while j < names.len()
            invariant
                i < groups@.len(),
                j <= names@.len(),
                names@ == groups@[i as int].1@,
                want == paired(groups_view(groups@), uuids_view(uuids@)),
                snapshots_view(row@) == want[i as int].1.take(j as int),
            decreases names@.len() - j,
        {
            let ghost row0 = row@;
            let uuid: Option<String> = if i < uuids.len() && j < uuids[i].len() {
                match &uuids[i][j] {
                    Some(uuid) => Some(uuid.clone()),
                    None => None,
                }
            } else {
                None
            };
            assert(want[i as int].1[j as int] == (names@[j as int]@, text_of(uuid)));
            row.push((names[j].clone(), uuid));
            assert(snapshots_view(row@) =~= snapshots_view(row0).push(
                (names@[j as int]@, text_of(uuid)),
            ));
            assert(want[i as int].1.take(j + 1) =~= want[i as int].1.take(j as int).push(
                want[i as int].1[j as int],
            ));
            j = j + 1;
        }
        assert(want[i as int].1.take(j as int) =~= want[i as int].1);
        r.push((groups[i].0.clone(), row));
        assert(candidates_view(r@) =~= candidates_view(r0).push(want[i as int]));
        assert(want.take(i + 1) =~= want.take(i as int).push(want[i as int]));
        i = i + 1;
    }
    assert(want.take(i as int) =~= want);
    assert(candidates_view(r@).len() == want.len());
    assert forall|g: int, i: int|
        #![trigger r@[g].1@[i]]
        0 <= g < groups@.len() && 0 <= i < groups@[g].1@.len() implies r@[g].1@[i].0@
        == groups@[g].1@[i]@ && text_of(r@[g].1@[i].1) == if g < uuids@.len() && i
        < uuids@[g]@.len() {
        text_of(uuids@[g]@[i])
    } else {
        None
    } by {
        law_snapshots_are_paired_with_their_own_uuids(
            groups_view(groups@),
            uuids_view(uuids@),
            g,
            i,
        );
        assert(candidates_view(r@)[g] == want[g]);
        assert(candidates_view(r@)[g].1[i] == want[g].1[i]);
        if g < uuids@.len() {
            assert(uuids_view(uuids@)[g].len() == uuids@[g]@.len());
        }
    }
    r
}

/// The snapshots to consider for a purge: those in the snapshots directory,
/// oldest first by the time in their names. Fails when the directory could not be read.
pub fn purge_groups(entries: Result<Vec<DirEntry>, String>) -> (groups: Result<
    SnapshotGroups,
    String,
>)
    ensures
        match (entries, groups) {
            (Ok(entries), Ok(groups)) => {
                &&& is_grouping(
                    snapshot_entries(directory_names(entries@)),
                    dated(reversed_groups(groups_view(groups@))),
                )
                &&& is_oldest_first(groups_view(groups@))
                &&& forall|k: int|
                    0 <= k < directory_names(entries@).len() ==> is_read(
                        #[trigger] directory_names(entries@)[k],
                    )
            },
            (Err(error), Err(reason)) => reason@ == "cannot read snapshots directory: "@ + error@,
            _ => false,
        },
{
    match entries {
        Ok(entries) => {
            let newest_first = get_snapshots(entries);
            let groups = oldest_first(&newest_first);
            proof {
                lemma_reversed_twice(groups_view(newest_first@));
                law_reversed_is_oldest_first(
                    directory_names(entries@),
                    groups_view(newest_first@),
                );
            }
            Ok(groups)
        },
        Err(error) => {
            let mut reason = "cannot read snapshots directory: ".to_owned();
            reason.append(error.as_str());
            Err(reason)
        },
    }
}

proof fn lemma_reversed_twice(groups: Seq<(Seq<char>, Seq<Seq<char>>)>)
    ensures
        reversed_groups(reversed_groups(groups)) == groups,
{
    let twice = reversed_groups(reversed_groups(groups));
    assert forall|i: int| 0 <= i < groups.len() implies twice[i] == groups[i] by {
        assert(groups[i].1.reverse().reverse() =~= groups[i].1);
    }
    assert(twice =~= groups);
}

/// Works out which old snapshots can go, keeping the ones that the backup
/// target still needs: `groups` are the snapshots, oldest first, `uuids` their
/// UUIDs, `target_uuids` what the target holds.
pub fn plan_purge(
    groups: &SnapshotGroups,
    uuids: &Vec<Vec<Option<String>>>,
    target_uuids: &StringHashSet,
) -> (plan: PurgePlan)
    ensures
        plan@ == plan_for(paired(groups_view(groups@), uuids_view(uuids@)), target_uuids@),
{
    let candidates = pair_with_uuids(groups, uuids);
    compute_purge_plan(candidates.as_slice(), target_uuids)
}

/// The paths of snapshots in their directory.
pub open spec fn paths_in(dir: Seq<char>, names: Seq<Seq<char>>) -> Seq<Seq<char>> {
    names.map_values(|name: Seq<char>| path_join(dir, name, '/'))
}

/// The paths that a purge deletes.
pub fn purge_paths(snapshots_dir: &str, names: &Vec<String>) -> (paths: Vec<String>)
    ensures
        texts(paths@) == paths_in(snapshots_dir@, texts(names@)),
{
    let ghost want = paths_in(snapshots_dir@, texts(names@));
    let mut paths: Vec<String> = Vec::new();
    let mut i: usize = 0;
    assert(texts(paths@) =~= want.take(0));
    while i < names.len()
        invariant
            i <= names@.len(),
            want == paths_in(snapshots_dir@, texts(names@)),
            texts(paths@) == want.take(i as int),
        decreases names@.len() - i,
    {
        let ghost paths0 = paths@;
        paths.push(join_text(snapshots_dir, names[i].as_str()));
        assert(texts(paths@) =~= texts(paths0).push(want[i as int]));
        assert(want.take(i + 1) =~= want.take(i as int).push(want[i as int]));
        i = i + 1;
    }
    assert(want.take(i as int) =~= want);
    paths
}

/// How many commands succeeded.
pub open spec fn successes(results: Seq<bool>) -> nat
    decreases results.len(),
{
    if results.len() == 0 {
        0
    } else {
        successes(results.drop_last()) + if results.last() {
            1nat
        } else {
            0nat
        }
    }
}

/// Counts deletions: how many succeeded and how many failed.
pub fn tally(results: &Vec<bool>) -> (r: (usize, usize))
    ensures
        r.0 == successes(results@),
        r.0 + r.1 == results@.len(),
{
    let mut deleted: usize = 0;
    let mut i: usize = 0;
    while i < results.len()
        invariant
            i <= results@.len(),
            deleted <= i,
            deleted == successes(results@.take(i as int)),
        decreases results@.len() - i,
    {
        assert(results@.take(i + 1).drop_last() =~= results@.take(i as int));
        assert(results@.take(i + 1).last() == results@[i as int]);
        if results[i] {
            deleted = deleted + 1;
        }
        i = i + 1;
    }
    assert(results@.take(i as int) =~= results@);
    (deleted, results.len() - deleted)
}

/// The lines that `--purge-plan` prints.
pub open spec fn report_lines(plan: PurgePlanView) -> Seq<Seq<char>> {
    (if plan.delete.len() == 0 {
        seq!["Nothing to purge."@]
    } else {
        Seq::empty()
    }) + plan.delete.map_values(|name: Seq<char>| "would delete  "@ + name)
        + plan.skipped.map_values(
        |prefix: Seq<char>|
            "skipped       "@ + prefix + " (no snapshot in common with the backup target)"@,
    )
}

/// What a purge would delete, without deleting anything.
pub fn purge_plan_report(plan: &PurgePlan) -> (report: Vec<String>)
    ensures
        texts(report@) == report_lines(plan@),
{
    let mut report: Vec<String> = Vec::new();
    let ghost first: Seq<Seq<char>> = if plan@.delete.len() == 0 {
        seq!["Nothing to purge."@]
    } else {
        Seq::empty()
    };
    let ghost deleted = plan@.delete.map_values(|name: Seq<char>| "would delete  "@ + name);
    let ghost skipped = plan@.skipped.map_values(
        |prefix: Seq<char>|
            "skipped       "@ + prefix + " (no snapshot in common with the backup target)"@,
    );
    if plan.delete.len() == 0 {
        report.push("Nothing to purge.".to_owned());
    }
    assert(texts(report@) =~= first + deleted.take(0));
    let mut i: usize = 0;
    while i < plan.delete.len()
        invariant
            i <= plan.delete@.len(),
            deleted == plan@.delete.map_values(|name: Seq<char>| "would delete  "@ + name),
            texts(report@) == first + deleted.take(i as int),
        decreases plan.delete@.len() - i,
    {
        let ghost report0 = report@;
        let mut line = "would delete  ".to_owned();
        line.append(plan.delete[i].as_str());
        report.push(line);
        assert(texts(report@) =~= texts(report0).push(deleted[i as int]));
        assert(first + deleted.take(i + 1) =~= (first + deleted.take(i as int)).push(
            deleted[i as int],
        ));
        i = i + 1;
    }
    assert(deleted.take(i as int) =~= deleted);
    assert(texts(report@) =~= first + deleted + skipped.take(0));
    let mut i: usize = 0;
    while i < plan.skipped.len()
        invariant
            i <= plan.skipped@.len(),
            skipped == plan@.skipped.map_values(
                |prefix: Seq<char>|
                    "skipped       "@ + prefix + " (no snapshot in common with the backup target)"@,
            ),
            texts(report@) == first + deleted + skipped.take(i as int),
        decreases plan.skipped@.len() - i,
    {
        let ghost report0 = report@;
        let mut line = "skipped       ".to_owned();
        line.append(plan.skipped[i].as_str());
        line.append(" (no snapshot in common with the backup target)");
        report.push(line);
        assert(texts(report@) =~= texts(report0).push(skipped[i as int]));
        assert(first + deleted + skipped.take(i + 1) =~= (first + deleted + skipped.take(
            i as int,
        )).push(skipped[i as int]));
        i = i + 1;
    }
    assert(skipped.take(i as int) =~= skipped);
    report
}

// ---------------------------------------------------------------------------
// Laws

/// `parent_position` names the newest snapshot on the target.
proof fn lemma_parent_position(snapshots: Seq<CandidateView>, target: Set<Seq<char>>)
    ensures
        -1 <= parent_position(snapshots, target) < snapshots.len(),
        parent_position(snapshots, target) >= 0 ==> on_target(
            snapshots[parent_position(snapshots, target)],
            target,
        ),
        forall|i: int|
            parent_position(snapshots, target) < i < snapshots.len() ==> !on_target(
                #[trigger] snapshots[i],
                target,
            ),
    decreases snapshots.len(),
{
    if snapshots.len() > 0 && !on_target(snapshots.last(), target) {
        let rest = snapshots.drop_last();
        lemma_parent_position(rest, target);
        assert forall|i: int|
            parent_position(snapshots, target) < i < snapshots.len() implies !on_target(
            #[trigger] snapshots[i],
            target,
        ) by {
            if i < rest.len() {
                assert(rest[i] == snapshots[i]);
            }
        }
    }
}

/// Whether no two snapshots have the same name, as in a directory.
pub open spec fn names_are_distinct(groups: Seq<CandidatesView>) -> bool {
    forall|g: int, i: int, h: int, j: int|
        #![trigger groups[g].1[i], groups[h].1[j]]
        0 <= g < groups.len() && 0 <= i < groups[g].1.len() && 0 <= h < groups.len() && 0 <= j
            < groups[h].1.len() && groups[g].1[i].0 == groups[h].1[j].0 ==> g == h && i == j
}

/// Whatever is deleted is a snapshot of a subvolume of which the target holds
/// a newer one: the parent survives, and nothing is deleted where the target
/// shares nothing.
pub proof fn law_only_snapshots_older_than_the_parent_are_deleted(
    groups: Seq<CandidatesView>,
    target: Set<Seq<char>>,
    d: int,
)
    requires
        0 <= d < plan_for(groups, target).delete.len(),
    ensures
        exists|g: int, i: int|
            #![trigger groups[g].1[i]]
            0 <= g < groups.len() && 0 <= i < groups[g].1.len() && groups[g].1[i].0 == plan_for(
                groups,
                target,
            ).delete[d] && i < parent_position(groups[g].1, target),
    decreases groups.len(),
{
    if groups.len() > 0 {
        let rest = groups.drop_last();
        let plan = plan_for(rest, target);
        let last = groups.len() - 1;
        let snapshots = groups[last].1;
        if d < plan.delete.len() {
            law_only_snapshots_older_than_the_parent_are_deleted(rest, target, d);
            let (g, i) = choose|g: int, i: int|
                #![trigger rest[g].1[i]]
                0 <= g < rest.len() && 0 <= i < rest[g].1.len() && rest[g].1[i].0
                    == plan.delete[d] && i < parent_position(rest[g].1, target);
            assert(groups[g] == rest[g]);
            assert(groups[g].1[i].0 == plan_for(groups, target).delete[d]);
        } else {
            lemma_parent_position(snapshots, target);
            let i = d - plan.delete.len();
            assert(groups[last].1[i].0 == plan_for(groups, target).delete[d]);
        }
    }
}

/// The newest snapshot that the target also holds, and everything newer, is
/// never deleted. The names are those of a directory: no two are the same.
pub proof fn law_parent_and_newer_survive(
    groups: Seq<CandidatesView>,
    target: Set<Seq<char>>,
    g: int,
    i: int,
)
    requires
        names_are_distinct(groups),
        0 <= g < groups.len(),
        0 <= i < groups[g].1.len(),
        i >= parent_position(groups[g].1, target),
    ensures
        !plan_for(groups, target).delete.contains(groups[g].1[i].0),
{
    let name = groups[g].1[i].0;
    let delete = plan_for(groups, target).delete;
    if delete.contains(name) {
        let d = delete.index_of(name);
        law_only_snapshots_older_than_the_parent_are_deleted(groups, target, d);
        let (h, j) = choose|h: int, j: int|
            #![trigger groups[h].1[j]]
            0 <= h < groups.len() && 0 <= j < groups[h].1.len() && groups[h].1[j].0 == delete[d]
                && j < parent_position(groups[h].1, target);
        assert(groups[g].1[i].0 == groups[h].1[j].0);
    }
}

/// Every snapshot older than its subvolume's parent is deleted.
pub proof fn law_everything_older_is_deleted(
    groups: Seq<CandidatesView>,
    target: Set<Seq<char>>,
    g: int,
    i: int,
)
    requires
        0 <= g < groups.len(),
        0 <= i < parent_position(groups[g].1, target),
    ensures
        plan_for(groups, target).delete.contains(groups[g].1[i].0),
    decreases groups.len(),
{
    let rest = groups.drop_last();
    let plan = plan_for(rest, target);
    let delete = plan_for(groups, target).delete;
    if g < rest.len() {
        law_everything_older_is_deleted(rest, target, g, i);
        let d = plan.delete.index_of(groups[g].1[i].0);
        assert(delete[d] == groups[g].1[i].0);
    } else {
        lemma_parent_position(groups[g].1, target);
        assert(delete[plan.delete.len() + i] == groups[g].1[i].0);
    }
}

/// Every subvolume that had snapshots keeps at least one: the parent, or all.
pub proof fn law_every_subvolume_keeps_a_snapshot(
    groups: Seq<CandidatesView>,
    target: Set<Seq<char>>,
    g: int,
)
    requires
        names_are_distinct(groups),
        0 <= g < groups.len(),
        groups[g].1.len() > 0,
    ensures
        !plan_for(groups, target).delete.contains(groups[g].1.last().0),
{
    lemma_parent_position(groups[g].1, target);
    law_parent_and_newer_survive(groups, target, g, groups[g].1.len() - 1);
}

/// A subvolume with several snapshots and none on the target is reported as
/// skipped; only such a subvolume is.
pub proof fn law_skipped_are_the_broken_chains(
    groups: Seq<CandidatesView>,
    target: Set<Seq<char>>,
    prefix: Seq<char>,
)
    ensures
        plan_for(groups, target).skipped.contains(prefix) <==> exists|g: int|
            0 <= g < groups.len() && #[trigger] groups[g].0 == prefix && is_skipped(
                groups[g].1,
                target,
            ),
    decreases groups.len(),
{
    if groups.len() > 0 {
        let rest = groups.drop_last();
        let last = groups.len() - 1;
        let old_skipped = plan_for(rest, target).skipped;
        let skipped = plan_for(groups, target).skipped;
        law_skipped_are_the_broken_chains(rest, target, prefix);
        if skipped.contains(prefix) {
            let k = skipped.index_of(prefix);
            if k < old_skipped.len() {
                assert(old_skipped[k] == prefix);
                assert(old_skipped.contains(prefix));
                let g = choose|g: int|
                    0 <= g < rest.len() && #[trigger] rest[g].0 == prefix && is_skipped(
                        rest[g].1,
                        target,
                    );
                assert(groups[g] == rest[g]);
            } else {
                assert(groups[last].0 == prefix);
            }
        }
        if exists|g: int|
            0 <= g < groups.len() && #[trigger] groups[g].0 == prefix && is_skipped(
                groups[g].1,
                target,
            ) {
            let g = choose|g: int|
                0 <= g < groups.len() && #[trigger] groups[g].0 == prefix && is_skipped(
                    groups[g].1,
                    target,
                );
            if g < rest.len() {
                assert(rest[g].0 == prefix);
                assert(old_skipped.contains(prefix));
                let k = old_skipped.index_of(prefix);
                assert(skipped[k] == prefix);
            } else {
                assert(skipped[skipped.len() - 1] == prefix);
            }
        }
    }
}

/// A target that holds nothing gets nothing deleted.
pub proof fn law_empty_target_deletes_nothing(groups: Seq<CandidatesView>)
    ensures
        plan_for(groups, Set::empty()).delete.len() == 0,
    decreases groups.len(),
{
    if groups.len() > 0 {
        law_empty_target_deletes_nothing(groups.drop_last());
        lemma_parent_position(groups.last().1, Set::empty());
    }
}

/// What is left of a subvolume after its purge.
pub open spec fn survivors(snapshots: Seq<CandidateView>, target: Set<Seq<char>>) -> Seq<
    CandidateView,
> {
    snapshots.skip(deletions(snapshots, target).len() as int)
}

/// A purge breaks no chain: the parent is the same snapshot as before.
pub proof fn law_purge_keeps_the_parent(snapshots: Seq<CandidateView>, target: Set<Seq<char>>)
    requires
        parent_position(snapshots, target) >= 0,
    ensures
        ({
            let left = survivors(snapshots, target);
            let parent = parent_position(left, target);
            parent >= 0 && left[parent] == snapshots[parent_position(snapshots, target)]
        }),
{
    let left = survivors(snapshots, target);
    lemma_parent_position(snapshots, target);
    lemma_parent_position(left, target);
    let n = deletions(snapshots, target).len() as int;
    let before = parent_position(snapshots, target);
    let after = parent_position(left, target);
    assert(left[before - n] == snapshots[before]);
    if after < before - n {
        assert(!on_target(left[before - n], target));
    }
    if after > before - n {
        assert(left[after] == snapshots[after + n]);
        assert(!on_target(snapshots[after + n], target));
    }
}

/// Purging again, with the same target, deletes nothing more.
pub proof fn law_purging_again_deletes_nothing(
    snapshots: Seq<CandidateView>,
    target: Set<Seq<char>>,
)
    ensures
        deletions(survivors(snapshots, target), target).len() == 0,
{
    let left = survivors(snapshots, target);
    lemma_parent_position(snapshots, target);
    lemma_parent_position(left, target);
    let before = parent_position(snapshots, target);
    let n = deletions(snapshots, target).len() as int;
    if before < 0 || snapshots.len() <= 1 {
        assert(left =~= snapshots);
    } else {
        assert(n == before);
        let after = parent_position(left, target);
        if after > 0 {
            assert(left[after] == snapshots[after + n]);
            assert(!on_target(snapshots[after + n], target));
        }
    }
}

/// A UUID is found exactly where a line gives it.
pub proof fn law_uuids_are_those_on_the_lines(ls: Seq<Seq<char>>, uuid: Seq<char>)
    ensures
        uuids_on(ls).contains(uuid) <==> exists|i: int|
            0 <= i < ls.len() && line_uuid(fields(#[trigger] ls[i])) == Some(uuid),
    decreases ls.len(),
{
    if ls.len() > 0 {
        let rest = ls.drop_last();
        law_uuids_are_those_on_the_lines(rest, uuid);
        if uuids_on(rest).contains(uuid) {
            let i = choose|i: int|
                0 <= i < rest.len() && line_uuid(fields(#[trigger] rest[i])) == Some(uuid);
            assert(ls[i] == rest[i]);
        }
        if line_uuid(fields(ls.last())) == Some(uuid) {
            assert(line_uuid(fields(ls[ls.len() - 1])) == Some(uuid));
        }
        if exists|i: int| 0 <= i < ls.len() && line_uuid(fields(#[trigger] ls[i])) == Some(uuid) {
            let i = choose|i: int|
                0 <= i < ls.len() && line_uuid(fields(#[trigger] ls[i])) == Some(uuid);
            if i < rest.len() {
                assert(rest[i] == ls[i]);
            }
        }
    }
}

/// The UUIDs in one text below another are those in both.
pub proof fn law_uuids_of_joined_texts(a: Seq<char>, b: Seq<char>)
    ensures
        uuids_on(lines(a + seq!['\n'] + b)) == uuids_on(lines(a)).union(uuids_on(lines(b))),
{
    let (above, below) = (lines(a), lines(b));
    let ended = lines(a.push('\n'));
    let whole = lines(a + seq!['\n'] + b);
    assert(a + seq!['\n'] + b =~= a.push('\n') + b);
    lemma_lines_joined(a, b);
    lemma_lines_ended(a);
    assert forall|uuid: Seq<char>|
        uuids_on(whole).contains(uuid) <==> uuids_on(above).contains(uuid) || uuids_on(
            below,
        ).contains(uuid) by {
        law_uuids_are_those_on_the_lines(whole, uuid);
        law_uuids_are_those_on_the_lines(above, uuid);
        law_uuids_are_those_on_the_lines(below, uuid);
        if uuids_on(whole).contains(uuid) {
            let i = choose|i: int|
                0 <= i < whole.len() && line_uuid(fields(#[trigger] whole[i])) == Some(uuid);
            if i < above.len() {
                assert(fields(ended[i]) == fields(above[i]));
            } else if i >= ended.len() {
                assert(whole[i] == below[i - ended.len()]);
            } else {
                assert(fields(ended.last()).len() == 0);
            }
        }
        if uuids_on(above).contains(uuid) {
            let i = choose|i: int|
                0 <= i < above.len() && line_uuid(fields(#[trigger] above[i])) == Some(uuid);
            assert(fields(ended[i]) == fields(above[i]));
            assert(whole[i] == ended[i]);
        }
        if uuids_on(below).contains(uuid) {
            let i = choose|i: int|
                0 <= i < below.len() && line_uuid(fields(#[trigger] below[i])) == Some(uuid);
            assert(whole[i + ended.len()] == below[i]);
        }
    }
    assert(uuids_on(whole) =~= uuids_on(above).union(uuids_on(below)));
}

/// What is left of all the subvolumes after a purge.
pub open spec fn surviving(groups: Seq<CandidatesView>, target: Set<Seq<char>>) -> Seq<
    CandidatesView,
> {
    groups.map_values(|g: CandidatesView| (g.0, survivors(g.1, target)))
}

/// Planned again for what a purge has left, with the same target, a purge
/// deletes nothing, and leaves the same subvolumes alone.
pub proof fn law_purging_all_again_deletes_nothing(
    groups: Seq<CandidatesView>,
    target: Set<Seq<char>>,
)
    ensures
        plan_for(surviving(groups, target), target) == (PurgePlanView {
            delete: Seq::empty(),
            skipped: plan_for(groups, target).skipped,
        }),
    decreases groups.len(),
{
    let left = surviving(groups, target);
    if groups.len() > 0 {
        let rest = groups.drop_last();
        let (prefix, snapshots) = groups.last();
        assert(left.drop_last() =~= surviving(rest, target));
        assert(left.last() == (prefix, survivors(snapshots, target)));
        law_purging_all_again_deletes_nothing(rest, target);
        law_purging_again_deletes_nothing(snapshots, target);
        if parent_position(snapshots, target) >= 0 {
            law_purge_keeps_the_parent(snapshots, target);
        } else {
            assert(survivors(snapshots, target) =~= snapshots);
        }
        assert(plan_for(left, target).delete =~= Seq::empty());
        lemma_parent_position(snapshots, target);
    } else {
        assert(left =~= groups);
    }
}

/// Knowing of fewer snapshots on the target never deletes more.
pub proof fn law_knowing_less_deletes_no_more(
    groups: Seq<CandidatesView>,
    known: Set<Seq<char>>,
    target: Set<Seq<char>>,
)
    requires
        known.subset_of(target),
    ensures
        forall|g: int|
            0 <= g < groups.len() ==> #[trigger] deletions(groups[g].1, known).is_prefix_of(
                deletions(groups[g].1, target),
            ),
        plan_for(groups, known).delete.to_multiset().subset_of(
            plan_for(groups, target).delete.to_multiset(),
        ),
    decreases groups.len(),
{
    broadcast use vstd::multiset::group_multiset_axioms;

    if groups.len() > 0 {
        let rest = groups.drop_last();
        let (_, snapshots) = groups.last();
        law_knowing_less_deletes_no_more(rest, known, target);
        let (fewer, more) = (deletions(snapshots, known), deletions(snapshots, target));
        lemma_parent_position(snapshots, known);
        lemma_parent_position(snapshots, target);
        let (p, q) = (parent_position(snapshots, known), parent_position(snapshots, target));
        if p > q {
            assert(!on_target(snapshots[p], target));
        }
        assert(fewer =~= more.take(fewer.len() as int));
        assert forall|g: int| 0 <= g < groups.len() implies #[trigger] deletions(
            groups[g].1,
            known,
        ).is_prefix_of(deletions(groups[g].1, target)) by {
            if g < rest.len() {
                assert(rest[g] == groups[g]);
                assert(deletions(rest[g].1, known).is_prefix_of(deletions(rest[g].1, target)));
            }
        }
        let extra = more.skip(fewer.len() as int);
        assert(more =~= fewer + extra);
        vstd::seq_lib::lemma_multiset_commutative(fewer, extra);
        vstd::seq_lib::lemma_multiset_commutative(plan_for(rest, known).delete, fewer);
        vstd::seq_lib::lemma_multiset_commutative(plan_for(rest, target).delete, more);
    }
}

/// Whatever is deleted has a time not after that of a snapshot of the same
/// subvolume that the target also holds, and that stays.
pub proof fn law_deleted_snapshots_are_not_newer_than_the_parent(
    groups: Seq<(Seq<char>, Seq<Seq<char>>)>,
    uuids: Seq<Seq<Option<Seq<char>>>>,
    target: Set<Seq<char>>,
    d: int,
)
    requires
        is_oldest_first(groups),
        0 <= d < plan_for(paired(groups, uuids), target).delete.len(),
    ensures
        exists|g: int, i: int, p: int|
            #![trigger groups[g].1[i], groups[g].1[p]]
            0 <= g < groups.len() && 0 <= i < p < groups[g].1.len() && groups[g].1[i] == plan_for(
                paired(groups, uuids),
                target,
            ).delete[d] && p == parent_position(paired(groups, uuids)[g].1, target) && on_target(
                paired(groups, uuids)[g].1[p],
                target,
            ) && !time_less(snapshot_time(groups[g].1[p]), snapshot_time(groups[g].1[i])),
{
    let all = paired(groups, uuids);
    law_only_snapshots_older_than_the_parent_are_deleted(all, target, d);
    let (g, i) = choose|g: int, i: int|
        #![trigger all[g].1[i]]
        0 <= g < all.len() && 0 <= i < all[g].1.len() && all[g].1[i].0 == plan_for(
            all,
            target,
        ).delete[d] && i < parent_position(all[g].1, target);
    let p = parent_position(all[g].1, target);
    lemma_parent_position(all[g].1, target);
    assert(groups[g].1[i] == all[g].1[i].0);
    assert(!time_less(snapshot_time(groups[g].1[p]), snapshot_time(groups[g].1[i])));
}

/// Everything with a later time than the newest snapshot that the target also
/// holds stays. The names are those of a directory: no two are the same.
pub proof fn law_purge_keeps_everything_newer(
    groups: Seq<(Seq<char>, Seq<Seq<char>>)>,
    uuids: Seq<Seq<Option<Seq<char>>>>,
    target: Set<Seq<char>>,
    g: int,
    i: int,
)
    requires
        is_oldest_first(groups),
        names_are_distinct(paired(groups, uuids)),
        0 <= g < groups.len(),
        0 <= i < groups[g].1.len(),
        parent_position(paired(groups, uuids)[g].1, target) >= 0,
        time_less(
            snapshot_time(groups[g].1[parent_position(paired(groups, uuids)[g].1, target)]),
            snapshot_time(groups[g].1[i]),
        ),
    ensures
        !plan_for(paired(groups, uuids), target).delete.contains(groups[g].1[i]),
{
    let all = paired(groups, uuids);
    let p = parent_position(all[g].1, target);
    lemma_parent_position(all[g].1, target);
    if i < p {
        assert(!time_less(snapshot_time(groups[g].1[p]), snapshot_time(groups[g].1[i])));
    }
    law_parent_and_newer_survive(all, target, g, i);
    assert(all[g].1[i].0 == groups[g].1[i]);
}

// ---------------------------------------------------------------------------
// What a purge does, said of the snapshots and the UUIDs that were read

/// Each snapshot is paired with the UUID that was read for it, and with none
/// where none was read.
pub proof fn law_snapshots_are_paired_with_their_own_uuids(
    groups: Seq<(Seq<char>, Seq<Seq<char>>)>,
    uuids: Seq<Seq<Option<Seq<char>>>>,
    g: int,
    i: int,
)
    requires
        0 <= g < groups.len(),
        0 <= i < groups[g].1.len(),
    ensures
        paired(groups, uuids).len() == groups.len(),
        paired(groups, uuids)[g].0 == groups[g].0,
        paired(groups, uuids)[g].1.len() == groups[g].1.len(),
        paired(groups, uuids)[g].1[i].0 == groups[g].1[i],
        g < uuids.len() && i < uuids[g].len() ==> paired(groups, uuids)[g].1[i].1 == uuids[g][i],
        g >= uuids.len() || i >= uuids[g].len() ==> paired(groups, uuids)[g].1[i].1 is None,
{
}

/// Whether a UUID was read for the i-th snapshot of the g-th subvolume, and the
/// target holds it.
pub open spec fn is_held(
    uuids: Seq<Seq<Option<Seq<char>>>>,
    target: Set<Seq<char>>,
    g: int,
    i: int,
) -> bool {
    0 <= g < uuids.len() && 0 <= i < uuids[g].len() && uuids[g][i] is Some && target.contains(
        uuids[g][i]->0,
    )
}

proof fn lemma_held(
    groups: Seq<(Seq<char>, Seq<Seq<char>>)>,
    uuids: Seq<Seq<Option<Seq<char>>>>,
    target: Set<Seq<char>>,
    g: int,
    i: int,
)
    requires
        0 <= g < groups.len(),
        0 <= i < groups[g].1.len(),
    ensures
        on_target(paired(groups, uuids)[g].1[i], target) == is_held(uuids, target, g, i),
        paired(groups, uuids)[g].1[i].0 == groups[g].1[i],
        paired(groups, uuids)[g].1.len() == groups[g].1.len(),
{
}

/// A snapshot is deleted exactly if the target holds a newer one of the same
/// subvolume: the snapshots are listed oldest first, and `uuids` are those read
/// for them.
pub proof fn law_deleted_is_what_the_target_has_a_newer_one_of(
    groups: Seq<(Seq<char>, Seq<Seq<char>>)>,
    uuids: Seq<Seq<Option<Seq<char>>>>,
    target: Set<Seq<char>>,
    name: Seq<char>,
)
    ensures
        plan_for(paired(groups, uuids), target).delete.contains(name) <==> exists|
            g: int,
            i: int,
            p: int,
        |
            #![trigger groups[g].1[i], is_held(uuids, target, g, p)]
            0 <= g < groups.len() && 0 <= i < p < groups[g].1.len() && groups[g].1[i] == name
                && is_held(uuids, target, g, p),
{
    let all = paired(groups, uuids);
    let delete = plan_for(all, target).delete;
    if delete.contains(name) {
        let d = delete.index_of(name);
        law_only_snapshots_older_than_the_parent_are_deleted(all, target, d);
        let (g, i) = choose|g: int, i: int|
            #![trigger all[g].1[i]]
            0 <= g < all.len() && 0 <= i < all[g].1.len() && all[g].1[i].0 == delete[d] && i
                < parent_position(all[g].1, target);
        let p = parent_position(all[g].1, target);
        lemma_parent_position(all[g].1, target);
        lemma_held(groups, uuids, target, g, i);
        lemma_held(groups, uuids, target, g, p);
        assert(groups[g].1[i] == name && is_held(uuids, target, g, p));
    }
    if exists|g: int, i: int, p: int|
        #![trigger groups[g].1[i], is_held(uuids, target, g, p)]
        0 <= g < groups.len() && 0 <= i < p < groups[g].1.len() && groups[g].1[i] == name
            && is_held(uuids, target, g, p) {
        let (g, i, p) = choose|g: int, i: int, p: int|
            #![trigger groups[g].1[i], is_held(uuids, target, g, p)]
            0 <= g < groups.len() && 0 <= i < p < groups[g].1.len() && groups[g].1[i] == name
                && is_held(uuids, target, g, p);
        lemma_held(groups, uuids, target, g, i);
        lemma_held(groups, uuids, target, g, p);
        lemma_parent_position(all[g].1, target);
        assert(on_target(all[g].1[p], target));
        law_everything_older_is_deleted(all, target, g, i);
    }
}

/// The newest snapshot of a subvolume that the target also holds stays, and so
/// does everything newer: the next incremental send needs it. The names are
/// those of a directory, so no two are the same.
pub proof fn law_the_chain_is_never_broken(
    groups: Seq<(Seq<char>, Seq<Seq<char>>)>,
    uuids: Seq<Seq<Option<Seq<char>>>>,
    target: Set<Seq<char>>,
    g: int,
    i: int,
    j: int,
)
    requires
        forall|g: int, i: int, h: int, j: int|
            #![trigger groups[g].1[i], groups[h].1[j]]
            0 <= g < groups.len() && 0 <= i < groups[g].1.len() && 0 <= h < groups.len() && 0 <= j
                < groups[h].1.len() && groups[g].1[i] == groups[h].1[j] ==> g == h && i == j,
        0 <= g < groups.len(),
        0 <= i <= j < groups[g].1.len(),
        is_held(uuids, target, g, i),
        forall|k: int| i < k < groups[g].1.len() ==> !is_held(uuids, target, g, k),
    ensures
        !plan_for(paired(groups, uuids), target).delete.contains(groups[g].1[j]),
{
    let name = groups[g].1[j];
    law_deleted_is_what_the_target_has_a_newer_one_of(groups, uuids, target, name);
    if plan_for(paired(groups, uuids), target).delete.contains(name) {
        let (h, k, p) = choose|h: int, k: int, p: int|
            #![trigger groups[h].1[k], is_held(uuids, target, h, p)]
            0 <= h < groups.len() && 0 <= k < p < groups[h].1.len() && groups[h].1[k] == name
                && is_held(uuids, target, h, p);
        assert(groups[h].1[k] == groups[g].1[j]);
        assert(!is_held(uuids, target, g, p));
    }
}

/// The plan for some subvolumes and then others is the plan for the ones
/// followed by the plan for the others.
pub proof fn law_plan_goes_subvolume_by_subvolume(
    a: Seq<CandidatesView>,
    b: Seq<CandidatesView>,
    target: Set<Seq<char>>,
)
    ensures
        plan_for(a + b, target).delete == plan_for(a, target).delete + plan_for(b, target).delete,
        plan_for(a + b, target).skipped == plan_for(a, target).skipped + plan_for(
            b,
            target,
        ).skipped,
        plan_for(Seq::empty(), target).delete.len() == 0,
        plan_for(Seq::empty(), target).skipped.len() == 0,
    decreases b.len(),
{
    if b.len() == 0 {
        assert(a + b =~= a);
        assert(plan_for(a, target).delete + plan_for(b, target).delete =~= plan_for(
            a,
            target,
        ).delete);
        assert(plan_for(a, target).skipped + plan_for(b, target).skipped =~= plan_for(
            a,
            target,
        ).skipped);
    } else {
        assert((a + b).drop_last() =~= a + b.drop_last());
        assert((a + b).last() == b.last());
        law_plan_goes_subvolume_by_subvolume(a, b.drop_last(), target);
        assert(plan_for(a + b, target).delete =~= plan_for(a, target).delete + plan_for(
            b,
            target,
        ).delete);
        assert(plan_for(a + b, target).skipped =~= plan_for(a, target).skipped + plan_for(
            b,
            target,
        ).skipped);
    }
}

/// Of one subvolume, the snapshots before the newest that the target holds are
/// deleted, oldest first; where it holds none, nothing is, and the subvolume is
/// reported if it has several.
pub proof fn law_plan_of_one_subvolume(
    prefix: Seq<char>,
    snapshots: Seq<CandidateView>,
    target: Set<Seq<char>>,
    p: int,
)
    requires
        -1 <= p < snapshots.len(),
        p >= 0 ==> snapshots[p].1 is Some && target.contains(snapshots[p].1->0),
        forall|i: int|
            p < i < snapshots.len() && (#[trigger] snapshots[i]).1 is Some ==> !target.contains(
                snapshots[i].1->0,
            ),
    ensures
        plan_for(seq![(prefix, snapshots)], target).delete.len() == if p > 0 {
            p
        } else {
            0
        },
        forall|i: int|
            0 <= i < p ==> #[trigger] plan_for(seq![(prefix, snapshots)], target).delete[i]
                == snapshots[i].0,
        plan_for(seq![(prefix, snapshots)], target).skipped == if p < 0 && snapshots.len() > 1 {
            seq![prefix]
        } else {
            Seq::empty()
        },
{
    let one = seq![(prefix, snapshots)];
    reveal_with_fuel(plan_for, 2);
    assert(one.drop_last() =~= Seq::empty());
    assert(one.last() == (prefix, snapshots));
    lemma_parent_position(snapshots, target);
    let q = parent_position(snapshots, target);
    if q > p {
        assert(!target.contains(snapshots[q].1->0));
    }
    if q < p {
        assert(!on_target(snapshots[p], target));
    }
    let plan = plan_for(one, target);
    assert(plan.delete =~= deletions(snapshots, target));
    assert(plan.skipped =~= if p < 0 && snapshots.len() > 1 {
        seq![prefix]
    } else {
        Seq::empty()
    });
}

/// The UUID on a line is the field behind the first "received_uuid", and "-"
/// is none. `before` are fields that are something else.
pub proof fn law_uuid_is_the_field_behind_its_name(
    before: Seq<Seq<char>>,
    uuid: Seq<char>,
    after: Seq<Seq<char>>,
)
    requires
        !before.contains("received_uuid"@),
    ensures
        line_uuid(before) is None,
        line_uuid(before.push("received_uuid"@)) is None,
        line_uuid(before + seq!["received_uuid"@, uuid] + after) == if uuid == "-"@ {
            None
        } else {
            Some(uuid)
        },
{
    let p = other_than("received_uuid"@);
    let n = before.len() as int;
    let alone = before.push("received_uuid"@);
    let whole = before + seq!["received_uuid"@, uuid] + after;
    assert forall|i: int| 0 <= i < n implies p(#[trigger] before[i]) && p(alone[i]) && p(
        whole[i],
    ) by {
        assert(before.contains(before[i]));
        assert(alone[i] == before[i] && whole[i] == before[i]);
    }
    assert forall|i: int| 0 <= i < n implies p(#[trigger] alone[i]) by {
        assert(p(before[i]));
    }
    assert forall|i: int| 0 <= i < n implies p(#[trigger] whole[i]) by {
        assert(p(before[i]));
    }
    lemma_run_len_is(before, p, n);
    assert(!p(alone[n]));
    lemma_run_len_is(alone, p, n);
    assert(whole[n] == "received_uuid"@ && whole[n + 1] == uuid);
    lemma_run_len_is(whole, p, n);
}

/// The UUID shown is what the first line that begins with "UUID:" says; lines
/// that begin with anything else, "Parent UUID:" too, say nothing.
pub proof fn law_uuid_shown_is_on_the_first_uuid_line(
    before: Seq<Seq<char>>,
    line: Seq<char>,
    value: Seq<char>,
    after: Seq<Seq<char>>,
)
    requires
        forall|i: int|
            0 <= i < before.len() ==> !"UUID:"@.is_prefix_of(trim(#[trigger] before[i])),
        trim(line) == "UUID:"@ + value,
    ensures
        uuid_shown(before) is None,
        uuid_shown(before + seq![line] + after) == Some(trim(value)),
    decreases before.len(),
{
    let whole = before + seq![line] + after;
    if before.len() == 0 {
        assert(whole[0] == line);
        law_stripping_undoes_prefixing(value, "UUID:"@);
    } else {
        let rest = before.drop_first();
        assert(!"UUID:"@.is_prefix_of(trim(before[0])));
        assert(whole[0] == before[0]);
        assert(whole.drop_first() =~= rest + seq![line] + after);
        assert forall|i: int| 0 <= i < rest.len() implies !"UUID:"@.is_prefix_of(
            trim(#[trigger] rest[i]),
        ) by {
            assert(rest[i] == before[i + 1]);
        }
        law_uuid_shown_is_on_the_first_uuid_line(rest, line, value, after);
    }
}

/// A target that could not be asked is reported with the last thing ssh said:
/// the last line that is not blank once it is cleaned. If there is none, ssh is
/// said to have failed.
pub proof fn law_unreachable_targets_are_reported_with_what_ssh_said(
    stderr: Seq<char>,
    before: Seq<Seq<char>>,
    line: Seq<char>,
    blank: Seq<Seq<char>>,
)
    requires
        forall|i: int| 0 <= i < blank.len() ==> trim(clean(#[trigger] blank[i])).len() == 0,
    ensures
        lines(stderr) == blank ==> unreachable_reason(stderr)
            == "backup target unreachable: ssh failed"@,
        lines(stderr) == before + seq![line] + blank && trim(clean(line)).len() > 0
            ==> unreachable_reason(stderr) == "backup target unreachable: "@ + trim(clean(line)),
{
    lemma_blank_lines_say_nothing(blank);
    if trim(clean(line)).len() > 0 {
        law_reason_is_the_last_line_with_anything_on_it(before, line, blank);
    }
    reveal_strlit("backup target unreachable: ");
    reveal_strlit("ssh failed");
    reveal_strlit("backup target unreachable: ssh failed");
    assert("backup target unreachable: "@ + "ssh failed"@
        =~= "backup target unreachable: ssh failed"@);
}

proof fn lemma_blank_lines_say_nothing(blank: Seq<Seq<char>>)
    requires
        forall|i: int| 0 <= i < blank.len() ==> trim(clean(#[trigger] blank[i])).len() == 0,
    ensures
        last_shown(blank) is None,
    decreases blank.len(),
{
    if blank.len() > 0 {
        let init = blank.drop_last();
        assert(trim(clean(blank[blank.len() - 1])).len() == 0);
        assert forall|i: int| 0 <= i < init.len() implies trim(
            clean(#[trigger] init[i]),
        ).len() == 0 by {
            assert(init[i] == blank[i]);
        }
        lemma_blank_lines_say_nothing(init);
    }
}

/// Each success counts one, and a failure none.
pub proof fn law_successes_are_counted(a: Seq<bool>, b: Seq<bool>)
    ensures
        successes(a + b) == successes(a) + successes(b),
        successes(seq![true]) == 1,
        successes(seq![false]) == 0,
        successes(a) <= a.len(),
    decreases b.len(), a.len(),
{
    reveal_with_fuel(successes, 2);
    assert(seq![true].drop_last() =~= Seq::empty());
    assert(seq![false].drop_last() =~= Seq::empty());
    if b.len() == 0 {
        assert(a + b =~= a);
        if a.len() > 0 {
            law_successes_are_counted(a.drop_last(), b);
        }
    } else {
        assert((a + b).drop_last() =~= a + b.drop_last());
        assert((a + b).last() == b.last());
        law_successes_are_counted(a, b.drop_last());
    }
}

/// A report has a line for each snapshot that would go and for each subvolume
/// that is skipped, in the order of the plan, or says that nothing would go.
pub proof fn law_report_names_everything(plan: PurgePlanView, i: int)
    ensures
        plan.delete.len() == 0 ==> report_lines(plan).len() == 1 + plan.skipped.len()
            && report_lines(plan)[0] == "Nothing to purge."@,
        plan.delete.len() > 0 ==> report_lines(plan).len() == plan.delete.len()
            + plan.skipped.len(),
        0 <= i < plan.delete.len() ==> report_lines(plan)[i] == "would delete  "@
            + plan.delete[i],
        0 <= i < plan.skipped.len() ==> report_lines(plan)[report_lines(plan).len()
            - plan.skipped.len() + i] == "skipped       "@ + plan.skipped[i]
            + " (no snapshot in common with the backup target)"@,
{
}

/// Each snapshot has its own path in the directory.
pub proof fn law_paths_are_those_of_the_names(dir: Seq<char>, names: Seq<Seq<char>>, i: int)
    requires
        0 <= i < names.len(),
    ensures
        paths_in(dir, names).len() == names.len(),
        paths_in(dir, names)[i] == path_join(dir, names[i], '/'),
{
}

/// The views of snapshots, UUIDs and plans hold each text at its own place.
pub proof fn law_views_keep_the_places(
    groups: Seq<PurgeCandidates>,
    uuids: Seq<Vec<Option<String>>>,
    plan: PurgePlan,
    g: int,
    i: int,
)
    ensures
        candidates_view(groups).len() == groups.len(),
        0 <= g < groups.len() ==> candidates_view(groups)[g].0 == groups[g].0@
            && candidates_view(groups)[g].1.len() == groups[g].1@.len(),
        0 <= g < groups.len() && 0 <= i < groups[g].1@.len() ==> candidates_view(groups)[g].1[i]
            == (groups[g].1@[i].0@, text_of(groups[g].1@[i].1)),
        uuids_view(uuids).len() == uuids.len(),
        0 <= g < uuids.len() ==> uuids_view(uuids)[g].len() == uuids[g]@.len(),
        0 <= g < uuids.len() && 0 <= i < uuids[g]@.len() ==> uuids_view(uuids)[g][i] == text_of(
            uuids[g]@[i],
        ),
        plan@.delete == texts(plan.delete@),
        plan@.skipped == texts(plan.skipped@),
{
}

} // verus!
