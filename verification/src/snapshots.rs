//! Snapshot names, and how they are grouped for display.

use crate::text::{
    comes_before, last_position, last_position_of, law_split_is_at_the_last, lemma_last_position,
    lemma_lex_irreflexive, lemma_lex_total, lemma_lex_transitive, lex_less, rsplit_once, same_text,
    texts, to_chars,
};
use crate::timestamp::{
    btrbk_timestamp, display_text, is_reading, parse_btrbk_timestamp, show_timestamp, time_before,
    time_less, Timestamp,
};
use vstd::prelude::*;
use vstd::relations::{sorted_by, total_ordering};

verus! {

// ---------------------------------------------------------------------------
// Names

/// Subvolume name and timestamp of a snapshot name: what precedes and what
/// follows its last dot. A name is a snapshot's only when it has both, and the
/// latter is a btrbk timestamp.
pub open spec fn snapshot_parts(name: Seq<char>) -> Option<(Seq<char>, Seq<char>)> {
    match rsplit_once(name, '.') {
        Some((prefix, timestamp)) => if prefix.len() > 0 && btrbk_timestamp(timestamp) is Some {
            Some((prefix, timestamp))
        } else {
            None
        },
        None => None,
    }
}

/// Whether what follows the last dot of a name is read as `is_reading` says:
/// what btrbk writes as the time it stands for, and what cannot be a time not
/// at all.
pub open spec fn is_read(name: Seq<char>) -> bool {
    rsplit_once(name, '.') matches Some((_, timestamp)) ==> is_reading(
        timestamp,
        btrbk_timestamp(timestamp),
    )
}

/// Splits a name at its last dot.
pub fn split_at_last_dot<'a>(name: &'a str) -> (r: Option<(&'a str, &'a str)>)
    ensures
        match r {
            Some((prefix, rest)) => rsplit_once(name@, '.') == Some((prefix@, rest@)),
            None => rsplit_once(name@, '.') is None,
        },
{
    let chars = to_chars(name);
    match last_position_of(chars.as_slice(), '.') {
        Some(n) => {
            assert(name@.subrange(0, n as int) =~= name@.take(n as int));
            assert(name@.subrange(n + 1, name@.len() as int) =~= name@.skip(n + 1));
            let end: usize = chars.len();
            Some((name.substring_char(0, n), name.substring_char(n + 1, end)))
        },
        None => None,
    }
}

/// Decides whether the two parts of a name make it a snapshot's, given how
/// the second was read as a timestamp.
pub fn accept_parts<'a>(
    prefix: &'a str,
    timestamp: &'a str,
    read: Option<Timestamp>,
) -> (r: Option<(&'a str, &'a str)>)
    ensures
        match r {
            Some((p, t)) => p@ == prefix@ && t@ == timestamp@ && prefix@.len() > 0 && read is Some,
            None => prefix@.len() == 0 || read is None,
        },
{
    if !prefix.is_empty() && read.is_some() {
        Some((prefix, timestamp))
    } else {
        None
    }
}

/// Splits "@home.20260803T0000" or "home.20260803T0000" into subvolume name
/// and timestamp. The timestamp never contains a dot, the subvolume name
/// might. A name counts as a snapshot only when what follows the last dot is
/// a btrbk timestamp: btrbk names snapshots after the subvolume, which may or
/// may not start with "@".
pub fn split_snapshot_name<'a>(name: &'a str) -> (r: Option<(&'a str, &'a str)>)
    ensures
        match r {
            Some((prefix, timestamp)) => snapshot_parts(name@) == Some((prefix@, timestamp@)),
            None => snapshot_parts(name@) is None,
        },
        is_read(name@),
{
    match split_at_last_dot(name) {
        Some((prefix, timestamp)) => {
            accept_parts(prefix, timestamp, parse_btrbk_timestamp(timestamp))
        },
        None => None,
    }
}

/// A snapshot's name with its time, when it is known.
pub open spec fn labelled(snapshot: Seq<char>, time: Option<Timestamp>) -> Seq<char> {
    match time {
        Some(t) => snapshot + " ("@ + display_text(t) + ")"@,
        None => snapshot,
    }
}

/// The time to show beside a name.
pub open spec fn shown_time(show_timestamps: bool, snapshot: Seq<char>) -> Option<Timestamp> {
    if show_timestamps {
        match snapshot_parts(snapshot) {
            Some((_, timestamp)) => btrbk_timestamp(timestamp),
            None => None,
        }
    } else {
        None
    }
}

/// Puts a snapshot's time behind its name.
pub fn label_snapshot(snapshot: &str, time: Option<Timestamp>) -> (label: String)
    requires
        time matches Some(t) ==> t.well_formed(),
    ensures
        label@ == labelled(snapshot@, time),
{
    let mut label = snapshot.to_owned();
    if let Some(t) = time {
        label.append(" (");
        label.append(show_timestamp(&t).as_str());
        label.append(")");
    }
    label
}

/// A snapshot as the list shows it: with a readable time, if those are wanted.
pub fn format_snapshot_name(show_timestamps: bool, snapshot: &str) -> (label: String)
    ensures
        label@ == labelled(snapshot@, shown_time(show_timestamps, snapshot@)),
        show_timestamps ==> is_read(snapshot@),
{
    let mut time: Option<Timestamp> = None;
    if show_timestamps {
        if let Some((_, timestamp)) = split_snapshot_name(snapshot) {
            time = parse_btrbk_timestamp(timestamp);
        }
    }
    label_snapshot(snapshot, time)
}

/// Split parts put together again with a dot are the name, and the timestamp
/// has no dot.
pub proof fn law_parts_make_up_the_name(name: Seq<char>)
    ensures
        snapshot_parts(name) matches Some((prefix, timestamp)) ==> {
            &&& name == prefix + seq!['.'] + timestamp
            &&& prefix.len() > 0
            &&& !timestamp.contains('.')
        },
{
    lemma_last_position(name, '.');
    if let Some((prefix, timestamp)) = snapshot_parts(name) {
        let n = last_position(name, '.');
        assert(name =~= prefix + seq!['.'] + timestamp);
        assert forall|i: int| 0 <= i < timestamp.len() implies timestamp[i] != '.' by {
            assert(timestamp[i] == name[n + 1 + i]);
        }
    }
}

// ---------------------------------------------------------------------------
// Groups

/// Snapshots grouped by subvolume ("@" first, then alphabetically); inside
/// each group the newest comes first.
pub type SnapshotGroups = Vec<(String, Vec<String>)>;

/// Groups as texts.
pub open spec fn groups_view(groups: Seq<(String, Vec<String>)>) -> Seq<
    (Seq<char>, Seq<Seq<char>>),
> {
    groups.map_values(|g: (String, Vec<String>)| (g.0@, texts(g.1@)))
}

/// The order of subvolumes: "@" before every other, the rest alphabetically.
pub open spec fn prefix_less(a: Seq<char>, b: Seq<char>) -> bool {
    if a == "@"@ {
        b != "@"@
    } else if b == "@"@ {
        false
    } else {
        lex_less(a, b)
    }
}

/// A snapshot's name with its time.
#[derive(Debug)]
pub struct Dated {
    pub name: String,
    pub time: Timestamp,
}

/// A snapshot's name with its time, as text.
pub struct DatedView {
    pub name: Seq<char>,
    pub time: Timestamp,
}

impl View for Dated {
    type V = DatedView;

    open spec fn view(&self) -> DatedView {
        DatedView { name: self.name@, time: self.time }
    }
}

/// The order of snapshots: by time, and by name where the times are equal.
pub open spec fn older(a: DatedView, b: DatedView) -> bool {
    time_less(a.time, b.time) || a.time == b.time && lex_less(a.name, b.name)
}

/// Whether no snapshot comes after an older one.
pub open spec fn newest_first(list: Seq<DatedView>) -> bool {
    forall|i: int, j: int|
        0 <= i < j < list.len() ==> !older(#[trigger] list[i], #[trigger] list[j])
}

/// The snapshots of the entries with the prefix `p`.
pub open spec fn members(entries: Seq<(Seq<char>, DatedView)>, p: Seq<char>) -> Seq<DatedView>
    decreases entries.len(),
{
    if entries.len() == 0 {
        Seq::empty()
    } else {
        let m = members(entries.drop_last(), p);
        if entries.last().0 == p {
            m.push(entries.last().1)
        } else {
            m
        }
    }
}

/// Whether there is a group for the prefix `p`.
pub open spec fn has_group(groups: Seq<(Seq<char>, Seq<DatedView>)>, p: Seq<char>) -> bool {
    exists|i: int| 0 <= i < groups.len() && #[trigger] groups[i].0 == p
}

/// Whether `groups` are the entries (prefix and snapshot) grouped by prefix: one
/// group per prefix, in order, each holding exactly the snapshots with its
/// prefix, the newest first.
pub open spec fn is_grouping(
    entries: Seq<(Seq<char>, DatedView)>,
    groups: Seq<(Seq<char>, Seq<DatedView>)>,
) -> bool {
    &&& forall|i: int, j: int|
        0 <= i < j < groups.len() ==> prefix_less(#[trigger] groups[i].0, #[trigger] groups[j].0)
    &&& forall|i: int|
        0 <= i < groups.len() ==> {
            &&& newest_first(#[trigger] groups[i].1)
            &&& groups[i].1.len() > 0
            &&& groups[i].1.to_multiset() == members(entries, groups[i].0).to_multiset()
        }
    &&& forall|k: int| 0 <= k < entries.len() ==> has_group(groups, #[trigger] entries[k].0)
}

/// The time in a snapshot's name.
pub open spec fn snapshot_time(name: Seq<char>) -> Timestamp {
    let (_, timestamp) = snapshot_parts(name)->0;
    btrbk_timestamp(timestamp)->0
}

/// A snapshot's name with the time in it.
pub open spec fn date(name: Seq<char>) -> DatedView {
    DatedView { name, time: snapshot_time(name) }
}

/// The snapshots among `names`, each with its subvolume and its time.
pub open spec fn snapshot_entries(names: Seq<Seq<char>>) -> Seq<(Seq<char>, DatedView)>
    decreases names.len(),
{
    if names.len() == 0 {
        Seq::empty()
    } else {
        let rest = snapshot_entries(names.drop_last());
        match snapshot_parts(names.last()) {
            Some((prefix, _)) => rest.push((prefix, date(names.last()))),
            None => rest,
        }
    }
}

/// Groups of names with the times in them.
pub open spec fn dated(groups: Seq<(Seq<char>, Seq<Seq<char>>)>) -> Seq<
    (Seq<char>, Seq<DatedView>),
> {
    groups.map_values(
        |g: (Seq<char>, Seq<Seq<char>>)| (g.0, g.1.map_values(|name: Seq<char>| date(name))),
    )
}

/// Groups of dated snapshots, as texts.
pub open spec fn dated_view(groups: Seq<(String, Vec<Dated>)>) -> Seq<
    (Seq<char>, Seq<DatedView>),
> {
    groups.map_values(|g: (String, Vec<Dated>)| (g.0@, list_view(g.1@)))
}

/// Dated snapshots, as texts.
pub open spec fn list_view(list: Seq<Dated>) -> Seq<DatedView> {
    list.map_values(|d: Dated| d@)
}

/// Whether a snapshot comes before another in order of age.
fn is_older(a: &Dated, b: &Dated) -> (yes: bool)
    ensures
        yes == older(a@, b@),
{
    if time_before(&a.time, &b.time) {
        return true;
    }
    a.time == b.time && comes_before(
        to_chars(a.name.as_str()).as_slice(),
        to_chars(b.name.as_str()).as_slice(),
    )
}

/// The order of snapshots is a strict total order.
proof fn lemma_older(a: DatedView, b: DatedView, c: DatedView)
    ensures
        !older(a, a),
        a == b || older(a, b) || older(b, a),
        older(a, b) && older(b, c) ==> older(a, c),
        !(older(a, b) && older(b, a)),
{
    lemma_lex_irreflexive(a.name);
    lemma_lex_total(a.name, b.name);
    if lex_less(a.name, b.name) && lex_less(b.name, c.name) {
        lemma_lex_transitive(a.name, b.name, c.name);
    }
    if lex_less(a.name, b.name) && lex_less(b.name, a.name) {
        lemma_lex_transitive(a.name, b.name, a.name);
    }
}

/// Whether a subvolume comes before another.
pub fn prefix_before(a: &str, b: &str) -> (yes: bool)
    ensures
        yes == prefix_less(a@, b@),
{
    if same_text(a, "@") {
        !same_text(b, "@")
    } else if same_text(b, "@") {
        false
    } else {
        comes_before(to_chars(a).as_slice(), to_chars(b).as_slice())
    }
}

/// The order of subvolumes is a strict total order.
proof fn lemma_prefix_order(a: Seq<char>, b: Seq<char>, c: Seq<char>)
    ensures
        !prefix_less(a, a),
        a == b || prefix_less(a, b) || prefix_less(b, a),
        prefix_less(a, b) && prefix_less(b, c) ==> prefix_less(a, c),
        !(prefix_less(a, b) && prefix_less(b, a)),
{
    lemma_lex_irreflexive(a);
    lemma_lex_total(a, b);
    if lex_less(a, b) && lex_less(b, c) {
        lemma_lex_transitive(a, b, c);
    }
    if lex_less(a, b) && lex_less(b, a) {
        lemma_lex_transitive(a, b, a);
    }
}

/// Inserting a snapshot before the first older one keeps the newest first.
proof fn lemma_insert_newest_first(list: Seq<DatedView>, at: int, d: DatedView)
    requires
        newest_first(list),
        0 <= at <= list.len(),
        forall|i: int| 0 <= i < at ==> !older(#[trigger] list[i], d),
        at < list.len() ==> older(list[at], d),
    ensures
        newest_first(list.insert(at, d)),
{
    let r = list.insert(at, d);
    assert forall|i: int, j: int| 0 <= i < j < r.len() implies !older(
        #[trigger] r[i],
        #[trigger] r[j],
    ) by {
        if i == at {
            // everything from `at` on is older
            let k = j - 1;
            lemma_older(list[at], d, list[k]);
            lemma_older(d, list[k], d);
        } else {
            let a = if i < at {
                list[i]
            } else {
                list[i - 1]
            };
            assert(r[i] == a);
            if j < at {
                assert(r[j] == list[j]);
            } else if j > at {
                assert(r[j] == list[j - 1]);
            }
        }
    }
}

/// Inserting adds one item to the multiset.
proof fn lemma_insert_multiset<A>(s: Seq<A>, at: int, x: A)
    requires
        0 <= at <= s.len(),
    ensures
        s.insert(at, x).to_multiset() == s.to_multiset().insert(x),
{
    broadcast use vstd::seq_lib::group_to_multiset_ensures;
    let head = s.take(at);
    let tail = s.skip(at);
    assert(s =~= head + tail);
    assert(s.insert(at, x) =~= head.push(x) + tail);
    vstd::seq_lib::lemma_multiset_commutative(head, tail);
    vstd::seq_lib::lemma_multiset_commutative(head.push(x), tail);
    assert(head.push(x).to_multiset() =~= head.to_multiset().insert(x));
    assert(s.insert(at, x).to_multiset() =~= s.to_multiset().insert(x));
}

/// Inserts a snapshot where it belongs.
fn insert_snapshot(list: &mut Vec<Dated>, d: Dated)
    requires
        newest_first(list_view(old(list)@)),
    ensures
        newest_first(list_view(final(list)@)),
        list_view(final(list)@).to_multiset() == list_view(old(list)@).to_multiset().insert(d@),
        final(list)@.len() == old(list)@.len() + 1,
{
    let ghost before = list_view(list@);
    let mut at: usize = 0;
    while at < list.len() && !is_older(&list[at], &d)
        invariant
            at <= list@.len(),
            before == list_view(list@),
            forall|i: int| 0 <= i < at ==> !older(#[trigger] before[i], d@),
        decreases list@.len() - at,
    {
        at = at + 1;
    }
    list.insert(at, d);
    proof {
        assert(list_view(list@) =~= before.insert(at as int, d@));
        lemma_insert_newest_first(before, at as int, d@);
        lemma_insert_multiset(before, at as int, d@);
    }
}

/// Adding an entry with another prefix changes no group.
proof fn lemma_other_members(
    entries: Seq<(Seq<char>, DatedView)>,
    entry: (Seq<char>, DatedView),
    p: Seq<char>,
)
    ensures
        p != entry.0 ==> members(entries.push(entry), p) == members(entries, p),
        p == entry.0 ==> members(entries.push(entry), p) == members(entries, p).push(entry.1),
{
    assert(entries.push(entry).drop_last() =~= entries);
}

/// A prefix that no entry has names no member.
proof fn lemma_no_members(entries: Seq<(Seq<char>, DatedView)>, p: Seq<char>)
    requires
        forall|k: int| 0 <= k < entries.len() ==> #[trigger] entries[k].0 != p,
    ensures
        members(entries, p).len() == 0,
    decreases entries.len(),
{
    if entries.len() > 0 {
        let rest = entries.drop_last();
        assert forall|k: int| 0 <= k < rest.len() implies #[trigger] rest[k].0 != p by {
            assert(rest[k] == entries[k]);
        }
        assert(entries[entries.len() - 1].0 != p);
        lemma_no_members(rest, p);
    }
}

/// Putting a snapshot into the group of its prefix makes a grouping of one entry
/// more.
proof fn lemma_grow_group(
    entries: Seq<(Seq<char>, DatedView)>,
    groups: Seq<(Seq<char>, Seq<DatedView>)>,
    at: int,
    name: DatedView,
    names: Seq<DatedView>,
)
    requires
        is_grouping(entries, groups),
        0 <= at < groups.len(),
        newest_first(names),
        names.len() > 0,
        names.to_multiset() == groups[at].1.to_multiset().insert(name),
    ensures
        is_grouping(
            entries.push((groups[at].0, name)),
            groups.update(at, (groups[at].0, names)),
        ),
{
    broadcast use vstd::seq_lib::group_to_multiset_ensures;
    let entry = (groups[at].0, name);
    let more = entries.push(entry);
    let after = groups.update(at, (groups[at].0, names));
    assert forall|i: int| 0 <= i < after.len() implies {
        &&& newest_first(#[trigger] after[i].1)
        &&& after[i].1.len() > 0
        &&& after[i].1.to_multiset() == members(more, after[i].0).to_multiset()
    } by {
        lemma_other_members(entries, entry, groups[i].0);
        assert(newest_first(groups[i].1));
        if i == at {
            assert(members(entries, entry.0).push(name).to_multiset() =~= members(
                entries,
                entry.0,
            ).to_multiset().insert(name));
        } else {
            lemma_prefix_order(groups[i].0, groups[at].0, groups[at].0);
            assert(groups[i].0 != groups[at].0) by {
                if i < at {
                    assert(prefix_less(groups[i].0, groups[at].0));
                } else {
                    assert(prefix_less(groups[at].0, groups[i].0));
                }
            }
        }
    }
    assert forall|k: int| 0 <= k < more.len() implies has_group(after, #[trigger] more[k].0) by {
        if k < entries.len() {
            assert(more[k] == entries[k]);
            assert(has_group(groups, entries[k].0));
            let i = choose|i: int|
                0 <= i < groups.len() && #[trigger] groups[i].0 == entries[k].0;
            assert(after[i].0 == more[k].0);
        } else {
            assert(after[at].0 == more[k].0);
        }
    }
    assert forall|i: int, j: int| 0 <= i < j < after.len() implies prefix_less(
        #[trigger] after[i].0,
        #[trigger] after[j].0,
    ) by {
        assert(after[i].0 == groups[i].0);
        assert(after[j].0 == groups[j].0);
    }
}

/// Opening a group for a new prefix, where it belongs, makes a grouping of one
/// entry more.
proof fn lemma_open_group(
    entries: Seq<(Seq<char>, DatedView)>,
    groups: Seq<(Seq<char>, Seq<DatedView>)>,
    at: int,
    prefix: Seq<char>,
    name: DatedView,
)
    requires
        is_grouping(entries, groups),
        0 <= at <= groups.len(),
        forall|i: int| 0 <= i < at ==> prefix_less(#[trigger] groups[i].0, prefix),
        at < groups.len() ==> prefix_less(prefix, groups[at].0),
    ensures
        is_grouping(entries.push((prefix, name)), groups.insert(at, (prefix, seq![name]))),
{
    broadcast use vstd::seq_lib::group_to_multiset_ensures;
    let entry = (prefix, name);
    let more = entries.push(entry);
    let fresh = (prefix, seq![name]);
    let after = groups.insert(at, fresh);
    // where each old group stands now
    assert forall|i: int| 0 <= i < groups.len() implies #[trigger] groups[i] == after[if i < at {
        i
    } else {
        i + 1
    }] by {}
    assert forall|i: int| at <= i < groups.len() implies prefix_less(
        prefix,
        #[trigger] groups[i].0,
    ) by {
        if i > at {
            assert(prefix_less(groups[at].0, groups[i].0));
            lemma_prefix_order(prefix, groups[at].0, groups[i].0);
        }
    }
    assert forall|i: int| 0 <= i < groups.len() implies #[trigger] groups[i].0 != prefix by {
        lemma_prefix_order(prefix, prefix, prefix);
    }
    assert forall|k: int| 0 <= k < entries.len() implies #[trigger] entries[k].0 != prefix by {
        assert(has_group(groups, entries[k].0));
        let i = choose|i: int| 0 <= i < groups.len() && #[trigger] groups[i].0 == entries[k].0;
        assert(groups[i].0 != prefix);
    }
    lemma_no_members(entries, prefix);
    assert forall|i: int| 0 <= i < after.len() implies {
        &&& newest_first(#[trigger] after[i].1)
        &&& after[i].1.len() > 0
        &&& after[i].1.to_multiset() == members(more, after[i].0).to_multiset()
    } by {
        if i == at {
            lemma_other_members(entries, entry, prefix);
            assert(members(more, prefix) =~= seq![name]);
        } else {
            let k = if i < at {
                i
            } else {
                i - 1
            };
            assert(after[i] == groups[k]);
            assert(newest_first(groups[k].1));
            assert(groups[k].0 != prefix);
            lemma_other_members(entries, entry, groups[k].0);
        }
    }
    assert forall|k: int| 0 <= k < more.len() implies has_group(after, #[trigger] more[k].0) by {
        if k < entries.len() {
            assert(more[k] == entries[k]);
            assert(has_group(groups, entries[k].0));
            let i = choose|i: int|
                0 <= i < groups.len() && #[trigger] groups[i].0 == entries[k].0;
            let moved = if i < at {
                i
            } else {
                i + 1
            };
            assert(after[moved].0 == more[k].0);
        } else {
            assert(after[at].0 == more[k].0);
        }
    }
    assert forall|i: int, j: int| 0 <= i < j < after.len() implies prefix_less(
        #[trigger] after[i].0,
        #[trigger] after[j].0,
    ) by {
        let a = if i < at {
            i
        } else {
            i - 1
        };
        let b = if j < at {
            j
        } else {
            j - 1
        };
        if i == at {
            assert(after[j] == groups[b]);
        } else if j == at {
            assert(after[i] == groups[a]);
        } else {
            assert(after[i] == groups[a]);
            assert(after[j] == groups[b]);
        }
    }
}

/// Puts a snapshot into the group of its prefix.
fn insert_entry(
    groups: &mut Vec<(String, Vec<Dated>)>,
    prefix: &str,
    d: Dated,
    Ghost(entries): Ghost<Seq<(Seq<char>, DatedView)>>,
)
    requires
        is_grouping(entries, dated_view(old(groups)@)),
    ensures
        is_grouping(entries.push((prefix@, d@)), dated_view(final(groups)@)),
{
    let ghost before = dated_view(groups@);
    let mut at: usize = 0;
    while at < groups.len() && prefix_before(groups[at].0.as_str(), prefix)
        invariant
            at <= groups@.len(),
            before == dated_view(groups@),
            forall|i: int| 0 <= i < at ==> prefix_less(#[trigger] before[i].0, prefix@),
        decreases groups@.len() - at,
    {
        at = at + 1;
    }
    proof {
        if at < groups@.len() {
            lemma_prefix_order(before[at as int].0, prefix@, prefix@);
        }
    }
    if at < groups.len() && same_text(groups[at].0.as_str(), prefix) {
        assert(newest_first(before[at as int].1));
        insert_snapshot(&mut groups[at].1, d);
        proof {
            let list = list_view(groups@[at as int].1@);
            assert(dated_view(groups@) =~= before.update(at as int, (before[at as int].0, list)));
            lemma_grow_group(entries, before, at as int, d@, list);
        }
    } else {
        let mut list: Vec<Dated> = Vec::new();
        list.push(d);
        groups.insert(at, (prefix.to_owned(), list));
        proof {
            assert(list_view(list@) =~= seq![d@]);
            assert(dated_view(groups@) =~= before.insert(at as int, (prefix@, seq![d@])));
            lemma_open_group(entries, before, at as int, prefix@, d@);
        }
    }
}

/// Entries as texts.
pub open spec fn entries_view(entries: Seq<(String, Dated)>) -> Seq<(Seq<char>, DatedView)> {
    entries.map_values(|e: (String, Dated)| (e.0@, e.1@))
}

/// Groups entries (prefix and dated snapshot) by prefix.
pub fn group_by_prefix(entries: Vec<(String, Dated)>) -> (groups: Vec<(String, Vec<Dated>)>)
    ensures
        is_grouping(entries_view(entries@), dated_view(groups@)),
{
    let mut groups: Vec<(String, Vec<Dated>)> = Vec::new();
    let ghost all = entries_view(entries@);
    let mut i: usize = 0;
    while i < entries.len()
        invariant
            i <= entries@.len(),
            all == entries_view(entries@),
            is_grouping(all.take(i as int), dated_view(groups@)),
        decreases entries@.len() - i,
    {
        let d = Dated { name: entries[i].1.name.clone(), time: entries[i].1.time };
        assert(d@ == all[i as int].1);
        insert_entry(&mut groups, entries[i].0.as_str(), d, Ghost(all.take(i as int)));
        assert(all.take(i + 1) =~= all.take(i as int).push(all[i as int]));
        i = i + 1;
    }
    assert(all.take(i as int) =~= all);
    groups
}

/// The names of dated snapshots.
pub open spec fn names_of(list: Seq<DatedView>) -> Seq<Seq<char>> {
    list.map_values(|d: DatedView| d.name)
}

fn names_in_order(list: &Vec<Dated>) -> (names: Vec<String>)
    ensures
        texts(names@) == names_of(list_view(list@)),
{
    let ghost all = names_of(list_view(list@));
    let mut names: Vec<String> = Vec::new();
    let mut i: usize = 0;
    assert(texts(names@) =~= all.take(0));
    while i < list.len()
        invariant
            i <= list@.len(),
            all == names_of(list_view(list@)),
            texts(names@) == all.take(i as int),
        decreases list@.len() - i,
    {
        let ghost names0 = names@;
        names.push(list[i].name.clone());
        assert(texts(names@) =~= texts(names0).push(all[i as int]));
        assert(all.take(i + 1) =~= all.take(i as int).push(all[i as int]));
        i = i + 1;
    }
    assert(all.take(i as int) =~= all);
    names
}

/// Groups of dated snapshots without the times.
pub open spec fn undated(groups: Seq<(Seq<char>, Seq<DatedView>)>) -> Seq<
    (Seq<char>, Seq<Seq<char>>),
> {
    groups.map_values(|g: (Seq<char>, Seq<DatedView>)| (g.0, names_of(g.1)))
}

/// Drops the times from groups of dated snapshots.
pub fn without_times(groups: &Vec<(String, Vec<Dated>)>) -> (r: SnapshotGroups)
    ensures
        groups_view(r@) == undated(dated_view(groups@)),
{
    let ghost all = undated(dated_view(groups@));
    let mut r: SnapshotGroups = Vec::new();
    let mut i: usize = 0;
    assert(groups_view(r@) =~= all.take(0));
    while i < groups.len()
        invariant
            i <= groups@.len(),
            all == undated(dated_view(groups@)),
            groups_view(r@) == all.take(i as int),
        decreases groups@.len() - i,
    {
        let ghost r0 = r@;
        let names = names_in_order(&groups[i].1);
        r.push((groups[i].0.clone(), names));
        assert(groups_view(r@) =~= groups_view(r0).push(all[i as int]));
        assert(all.take(i + 1) =~= all.take(i as int).push(all[i as int]));
        i = i + 1;
    }
    assert(all.take(i as int) =~= all);
    r
}

/// Groups whose snapshots have the times in their names lose nothing when the
/// times are dropped.
proof fn lemma_dated_again(
    names: Seq<Seq<char>>,
    groups: Seq<(Seq<char>, Seq<DatedView>)>,
)
    requires
        is_grouping(snapshot_entries(names), groups),
    ensures
        dated(undated(groups)) == groups,
{
    let again = dated(undated(groups));
    assert forall|i: int| 0 <= i < groups.len() implies again[i] == groups[i] by {
        assert forall|j: int| 0 <= j < groups[i].1.len() implies #[trigger] again[i].1[j]
            == groups[i].1[j] by {
            law_only_snapshots_are_listed(snapshot_entries(names), groups, i, j);
            lemma_entries_are_snapshots(names, (groups[i].0, groups[i].1[j]));
        }
        assert(again[i].1 =~= groups[i].1);
    }
    assert(again =~= groups);
}

/// Groups snapshot names by subvolume: "@" first, then alphabetically, newest
/// snapshot first inside each group. Names that are not snapshots are dropped.
pub fn group_snapshots(names: Vec<String>) -> (groups: SnapshotGroups)
    ensures
        is_grouping(snapshot_entries(texts(names@)), dated(groups_view(groups@))),
        forall|k: int| 0 <= k < names@.len() ==> is_read(#[trigger] names@[k]@),
{
    let mut entries: Vec<(String, Dated)> = Vec::new();
    let ghost all = texts(names@);
    let mut i: usize = 0;
    assert(entries_view(entries@) =~= snapshot_entries(all.take(0)));
    while i < names.len()
        invariant
            i <= names@.len(),
            all == texts(names@),
            entries_view(entries@) == snapshot_entries(all.take(i as int)),
            forall|k: int| 0 <= k < i ==> is_read(#[trigger] names@[k]@),
        decreases names@.len() - i,
    {
        let ghost entries0 = entries@;
        assert(all.take(i + 1).drop_last() =~= all.take(i as int));
        assert(all.take(i + 1).last() == names@[i as int]@);
        if let Some((prefix, timestamp)) = split_snapshot_name(names[i].as_str()) {
            if let Some(time) = parse_btrbk_timestamp(timestamp) {
                let d = Dated { name: names[i].clone(), time };
                assert(d@ == date(names@[i as int]@));
                entries.push((prefix.to_owned(), d));
                assert(entries_view(entries@) =~= entries_view(entries0).push((prefix@, d@)));
            }
        }
        i = i + 1;
    }
    assert(all.take(i as int) =~= all);
    let groups = group_by_prefix(entries);
    proof {
        lemma_dated_again(all, dated_view(groups@));
    }
    without_times(&groups)
}

/// An entry of the snapshots directory.
#[derive(Debug)]
pub struct DirEntry {
    pub name: String,
    pub is_dir: bool,
}

/// The names of the directories among `entries`.
pub open spec fn directory_names(entries: Seq<DirEntry>) -> Seq<Seq<char>>
    decreases entries.len(),
{
    if entries.len() == 0 {
        Seq::empty()
    } else {
        let rest = directory_names(entries.drop_last());
        if entries.last().is_dir {
            rest.push(entries.last().name@)
        } else {
            rest
        }
    }
}

/// The snapshots in a directory, grouped: a snapshot is itself a directory.
pub fn get_snapshots(entries: Vec<DirEntry>) -> (groups: SnapshotGroups)
    ensures
        is_grouping(snapshot_entries(directory_names(entries@)), dated(groups_view(groups@))),
        forall|k: int|
            0 <= k < directory_names(entries@).len() ==> is_read(
                #[trigger] directory_names(entries@)[k],
            ),
{
    let mut names: Vec<String> = Vec::new();
    let mut i: usize = 0;
    assert(texts(names@) =~= directory_names(entries@.take(0)));
    while i < entries.len()
        invariant
            i <= entries@.len(),
            texts(names@) == directory_names(entries@.take(i as int)),
        decreases entries@.len() - i,
    {
        let ghost names0 = names@;
        assert(entries@.take(i + 1).drop_last() =~= entries@.take(i as int));
        assert(entries@.take(i + 1).last() == entries@[i as int]);
        if entries[i].is_dir {
            names.push(entries[i].name.clone());
            assert(texts(names@) =~= texts(names0).push(entries@[i as int].name@));
        }
        i = i + 1;
    }
    assert(entries@.take(i as int) =~= entries@);
    let groups = group_snapshots(names);
    assert forall|k: int| 0 <= k < directory_names(entries@).len() implies is_read(
        #[trigger] directory_names(entries@)[k],
    ) by {
        assert(is_read(names@[k]@));
    }
    groups
}

/// The groups with the snapshots of each in reverse: oldest first.
pub open spec fn reversed_groups(groups: Seq<(Seq<char>, Seq<Seq<char>>)>) -> Seq<
    (Seq<char>, Seq<Seq<char>>),
> {
    groups.map_values(|g: (Seq<char>, Seq<Seq<char>>)| (g.0, g.1.reverse()))
}

/// Whether no snapshot of a group comes after one with a later time.
pub open spec fn is_oldest_first(groups: Seq<(Seq<char>, Seq<Seq<char>>)>) -> bool {
    forall|g: int, i: int, j: int|
        0 <= g < groups.len() && 0 <= i < j < groups[g].1.len() ==> !time_less(
            snapshot_time(#[trigger] groups[g].1[j]),
            snapshot_time(#[trigger] groups[g].1[i]),
        )
}

/// Turns each group around, so that the oldest snapshot comes first.
pub fn oldest_first(groups: &SnapshotGroups) -> (r: SnapshotGroups)
    ensures
        groups_view(r@) == reversed_groups(groups_view(groups@)),
{
    let mut r: SnapshotGroups = Vec::new();
    let mut i: usize = 0;
    while i < groups.len()
        invariant
            i <= groups@.len(),
            groups_view(r@) == reversed_groups(groups_view(groups@)).take(i as int),
        decreases groups@.len() - i,
    {
        let ghost r0 = r@;
        let names = &groups[i].1;
        let mut turned: Vec<String> = Vec::new();
        let mut n: usize = names.len();
        while n > 0
            invariant
                n <= names@.len(),
                texts(turned@) == texts(names@).reverse().take(names@.len() - n),
            decreases n,
        {
            let ghost turned0 = turned@;
            n = n - 1;
            turned.push(names[n].clone());
            assert(texts(turned@) =~= texts(turned0).push(names@[n as int]@));
            assert(texts(names@).reverse().take(names@.len() - n) =~= texts(
                names@,
            ).reverse().take(names@.len() - n - 1).push(names@[n as int]@));
        }
        assert(texts(turned@) =~= texts(names@).reverse());
        r.push((groups[i].0.clone(), turned));
        assert(groups_view(r@) =~= groups_view(r0).push(
            (groups@[i as int].0@, texts(names@).reverse()),
        ));
        assert(reversed_groups(groups_view(groups@)).take(i + 1) =~= reversed_groups(
            groups_view(groups@),
        ).take(i as int).push((groups@[i as int].0@, texts(names@).reverse())));
        i = i + 1;
    }
    assert(groups_view(r@) =~= reversed_groups(groups_view(groups@)));
    r
}

// ---------------------------------------------------------------------------
// Laws

/// An entry is a member of its prefix; a member is the name of an entry.
proof fn lemma_members(entries: Seq<(Seq<char>, DatedView)>, p: Seq<char>)
    ensures
        forall|k: int|
            0 <= k < entries.len() && #[trigger] entries[k].0 == p ==> members(
                entries,
                p,
            ).contains(entries[k].1),
        forall|name: DatedView| #[trigger]
            members(entries, p).contains(name) ==> entries.contains((p, name)),
    decreases entries.len(),
{
    if entries.len() > 0 {
        let rest = entries.drop_last();
        let m = members(rest, p);
        lemma_members(rest, p);
        assert forall|k: int| 0 <= k < entries.len() && #[trigger] entries[k].0
            == p implies members(entries, p).contains(entries[k].1) by {
            if k < rest.len() {
                assert(rest[k].0 == p);
                let j = m.index_of(entries[k].1);
                assert(members(entries, p)[j] == entries[k].1);
            } else {
                assert(members(entries, p)[m.len() as int] == entries[k].1);
            }
        }
        assert forall|name: DatedView| #[trigger] members(entries, p).contains(
            name,
        ) implies entries.contains((p, name)) by {
            let j = members(entries, p).index_of(name);
            if j < m.len() {
                assert(m[j] == name);
                assert(m.contains(name));
                let k = rest.index_of((p, name));
                assert(entries[k] == (p, name));
            } else {
                assert(entries[entries.len() - 1] == (p, name));
            }
        }
    }
}

/// Every entry is listed in the group of its subvolume.
pub proof fn law_every_snapshot_is_listed(
    entries: Seq<(Seq<char>, DatedView)>,
    groups: Seq<(Seq<char>, Seq<DatedView>)>,
    k: int,
)
    requires
        is_grouping(entries, groups),
        0 <= k < entries.len(),
    ensures
        exists|i: int|
            0 <= i < groups.len() && #[trigger] groups[i].0 == entries[k].0
                && groups[i].1.contains(entries[k].1),
{
    broadcast use vstd::seq_lib::group_to_multiset_ensures;
    assert(has_group(groups, entries[k].0));
    let i = choose|i: int| 0 <= i < groups.len() && #[trigger] groups[i].0 == entries[k].0;
    lemma_members(entries, entries[k].0);
    assert(newest_first(groups[i].1));
    let m = members(entries, entries[k].0);
    assert(m.contains(entries[k].1));
    assert(m.to_multiset().count(entries[k].1) > 0);
    assert(groups[i].1.to_multiset().count(entries[k].1) > 0);
}

/// Nothing is listed that is not an entry of that subvolume.
pub proof fn law_only_snapshots_are_listed(
    entries: Seq<(Seq<char>, DatedView)>,
    groups: Seq<(Seq<char>, Seq<DatedView>)>,
    i: int,
    j: int,
)
    requires
        is_grouping(entries, groups),
        0 <= i < groups.len(),
        0 <= j < groups[i].1.len(),
    ensures
        entries.contains((groups[i].0, groups[i].1[j])),
{
    broadcast use vstd::seq_lib::group_to_multiset_ensures;
    lemma_members(entries, groups[i].0);
    assert(newest_first(groups[i].1));
    assert(groups[i].1.contains(groups[i].1[j]));
    assert(groups[i].1.to_multiset().count(groups[i].1[j]) > 0);
    assert(members(entries, groups[i].0).contains(groups[i].1[j]));
}

/// The root subvolume "@" comes first whenever it has snapshots.
pub proof fn law_root_comes_first(
    entries: Seq<(Seq<char>, DatedView)>,
    groups: Seq<(Seq<char>, Seq<DatedView>)>,
)
    requires
        is_grouping(entries, groups),
        has_group(groups, "@"@),
    ensures
        groups[0].0 == "@"@,
{
    let i = choose|i: int| 0 <= i < groups.len() && #[trigger] groups[i].0 == "@"@;
    if i > 0 {
        assert(prefix_less(groups[0].0, groups[i].0));
    }
}

/// What is listed under a subvolume are names that split into that subvolume
/// and a timestamp: a subvolume really called "@root" is never mistaken for
/// "@".
pub proof fn law_listed_names_belong_to_their_subvolume(
    names: Seq<Seq<char>>,
    groups: Seq<(Seq<char>, Seq<Seq<char>>)>,
    i: int,
    j: int,
)
    requires
        is_grouping(snapshot_entries(names), dated(groups)),
        0 <= i < groups.len(),
        0 <= j < groups[i].1.len(),
    ensures
        names.contains(groups[i].1[j]),
        snapshot_parts(groups[i].1[j]) matches Some((prefix, _)) && prefix == groups[i].0,
{
    assert(dated(groups)[i].1[j] == date(groups[i].1[j]));
    law_only_snapshots_are_listed(snapshot_entries(names), dated(groups), i, j);
    lemma_entries_are_snapshots(names, (groups[i].0, date(groups[i].1[j])));
}

/// An entry comes from a name with that prefix and that time.
proof fn lemma_entries_are_snapshots(names: Seq<Seq<char>>, entry: (Seq<char>, DatedView))
    requires
        snapshot_entries(names).contains(entry),
    ensures
        names.contains(entry.1.name),
        entry.1 == date(entry.1.name),
        snapshot_parts(entry.1.name) matches Some((prefix, _)) && prefix == entry.0,
    decreases names.len(),
{
    let rest = snapshot_entries(names.drop_last());
    let k = snapshot_entries(names).index_of(entry);
    if k < rest.len() && rest[k] == entry {
        assert(rest.contains(entry));
        lemma_entries_are_snapshots(names.drop_last(), entry);
        let n = names.drop_last().index_of(entry.1.name);
        assert(names[n] == entry.1.name);
    } else {
        assert(names[names.len() - 1] == entry.1.name);
    }
}

/// Inside a group no snapshot comes before a newer one, whatever the forms of
/// the timestamps; where two have the same time, the name decides.
pub proof fn law_newest_comes_first(
    names: Seq<Seq<char>>,
    groups: Seq<(Seq<char>, Seq<Seq<char>>)>,
    g: int,
    i: int,
    j: int,
)
    requires
        is_grouping(snapshot_entries(names), dated(groups)),
        0 <= g < groups.len(),
        0 <= i < j < groups[g].1.len(),
    ensures
        !time_less(snapshot_time(groups[g].1[i]), snapshot_time(groups[g].1[j])),
        snapshot_time(groups[g].1[i]) == snapshot_time(groups[g].1[j]) ==> !lex_less(
            groups[g].1[i],
            groups[g].1[j],
        ),
{
    let list = dated(groups)[g].1;
    assert(newest_first(list));
    assert(list[i] == date(groups[g].1[i]));
    assert(list[j] == date(groups[g].1[j]));
    assert(!older(list[i], list[j]));
}

/// The order in which `newest_first` lists snapshots, as a relation.
pub open spec fn not_older() -> spec_fn(DatedView, DatedView) -> bool {
    |a: DatedView, b: DatedView| !older(a, b)
}

/// Lists of the same snapshots, newest first, are the same.
proof fn lemma_newest_first_unique(a: Seq<DatedView>, b: Seq<DatedView>)
    requires
        newest_first(a),
        newest_first(b),
        a.to_multiset() == b.to_multiset(),
    ensures
        a == b,
{
    let leq = not_older();
    assert(total_ordering(leq)) by {
        assert forall|x: DatedView| #[trigger] leq(x, x) by {
            lemma_older(x, x, x);
        }
        assert forall|x: DatedView, y: DatedView| #[trigger] leq(x, y) && #[trigger] leq(
            y,
            x,
        ) implies x == y by {
            lemma_older(x, y, x);
        }
        assert forall|x: DatedView, y: DatedView, z: DatedView| #[trigger] leq(x, y)
            && #[trigger] leq(y, z) implies leq(x, z) by {
            lemma_older(x, y, z);
            lemma_older(y, x, z);
        }
        assert forall|x: DatedView, y: DatedView| #[trigger] leq(x, y) || #[trigger] leq(y, x) by {
            lemma_older(x, y, x);
        }
    }
    assert(sorted_by(a, leq));
    assert(sorted_by(b, leq));
    vstd::seq_lib::lemma_sorted_unique(a, b, leq);
}

/// A grouping has as many groups up to any prefix as another of the same
/// entries: they agree group by group.
proof fn lemma_groupings_agree(
    entries: Seq<(Seq<char>, DatedView)>,
    a: Seq<(Seq<char>, Seq<DatedView>)>,
    b: Seq<(Seq<char>, Seq<DatedView>)>,
    n: int,
)
    requires
        is_grouping(entries, a),
        is_grouping(entries, b),
        0 <= n <= a.len(),
    ensures
        n <= b.len(),
        forall|i: int| 0 <= i < n ==> #[trigger] a[i].0 == b[i].0,
    decreases n,
{
    if n > 0 {
        lemma_groupings_agree(entries, a, b, n - 1);
        let p = a[n - 1].0;
        // `p` has an entry, so `b` has a group for it
        assert(a[n - 1].1.len() > 0 && newest_first(a[n - 1].1));
        law_only_snapshots_are_listed(entries, a, n - 1, 0);
        let k = entries.index_of((p, a[n - 1].1[0]));
        assert(entries[k].0 == p);
        assert(has_group(b, p));
        let i = choose|i: int| 0 <= i < b.len() && #[trigger] b[i].0 == p;
        lemma_prefix_order(p, p, p);
        if i < n - 1 {
            assert(a[i].0 == b[i].0);
            assert(prefix_less(a[i].0, a[n - 1].0));
        }
        if i > n - 1 {
            // the group of `b` at n - 1 would have to be among those of `a`
            let q = b[n - 1].0;
            assert(prefix_less(q, p));
            assert(b[n - 1].1.len() > 0 && newest_first(b[n - 1].1));
            law_only_snapshots_are_listed(entries, b, n - 1, 0);
            let m = entries.index_of((q, b[n - 1].1[0]));
            assert(entries[m].0 == q);
            assert(has_group(a, q));
            let j = choose|j: int| 0 <= j < a.len() && #[trigger] a[j].0 == q;
            lemma_prefix_order(p, q, p);
            lemma_prefix_order(q, q, q);
            if j < n - 1 {
                assert(b[j].0 == q);
                assert(prefix_less(b[j].0, b[n - 1].0));
            } else if j > n - 1 {
                assert(prefix_less(a[n - 1].0, a[j].0));
            }
        }
    }
}

/// Turned around, the groups list the oldest snapshot first.
pub proof fn law_reversed_is_oldest_first(
    names: Seq<Seq<char>>,
    groups: Seq<(Seq<char>, Seq<Seq<char>>)>,
)
    requires
        is_grouping(snapshot_entries(names), dated(groups)),
    ensures
        is_oldest_first(reversed_groups(groups)),
{
    let turned = reversed_groups(groups);
    assert forall|g: int, i: int, j: int| 0 <= g < turned.len() && 0 <= i < j
        < turned[g].1.len() implies !time_less(
        snapshot_time(#[trigger] turned[g].1[j]),
        snapshot_time(#[trigger] turned[g].1[i]),
    ) by {
        let n = groups[g].1.len();
        assert(turned[g].1[i] == groups[g].1[n - 1 - i]);
        assert(turned[g].1[j] == groups[g].1[n - 1 - j]);
        law_newest_comes_first(names, groups, g, n - 1 - j, n - 1 - i);
    }
}

/// There is only one way to group the same snapshots.
pub proof fn law_grouping_is_unique(
    entries: Seq<(Seq<char>, DatedView)>,
    a: Seq<(Seq<char>, Seq<DatedView>)>,
    b: Seq<(Seq<char>, Seq<DatedView>)>,
)
    requires
        is_grouping(entries, a),
        is_grouping(entries, b),
    ensures
        a == b,
{
    lemma_groupings_agree(entries, a, b, a.len() as int);
    lemma_groupings_agree(entries, b, a, b.len() as int);
    assert forall|i: int| 0 <= i < a.len() implies a[i] == b[i] by {
        assert(a[i].0 == b[i].0);
        assert(newest_first(a[i].1));
        assert(newest_first(b[i].1));
        lemma_newest_first_unique(a[i].1, b[i].1);
    }
    assert(a =~= b);
}

/// There is only one way to list the same names.
pub proof fn law_listing_is_unique(
    names: Seq<Seq<char>>,
    a: Seq<(Seq<char>, Seq<Seq<char>>)>,
    b: Seq<(Seq<char>, Seq<Seq<char>>)>,
)
    requires
        is_grouping(snapshot_entries(names), dated(a)),
        is_grouping(snapshot_entries(names), dated(b)),
    ensures
        a == b,
{
    law_grouping_is_unique(snapshot_entries(names), dated(a), dated(b));
    assert(dated(a).len() == a.len() && dated(b).len() == b.len());
    assert forall|i: int| 0 <= i < a.len() implies a[i] == b[i] by {
        assert(dated(a)[i] == dated(b)[i]);
        assert(dated(a)[i].1.len() == a[i].1.len() && dated(b)[i].1.len() == b[i].1.len());
        assert forall|j: int| 0 <= j < a[i].1.len() implies a[i].1[j] == b[i].1[j] by {
            assert(dated(a)[i].1[j] == date(a[i].1[j]));
            assert(dated(b)[i].1[j] == date(b[i].1[j]));
        }
        assert(a[i].1 =~= b[i].1);
    }
    assert(a =~= b);
}

/// What `pick` gives of the items of `s` that it picks.
spec fn picked<A, B>(s: Seq<A>, pick: spec_fn(A) -> Option<B>) -> Seq<B>
    decreases s.len(),
{
    if s.len() == 0 {
        Seq::empty()
    } else {
        let rest = picked(s.drop_last(), pick);
        match pick(s.last()) {
            Some(b) => rest.push(b),
            None => rest,
        }
    }
}

/// Picking goes through one sequence after the other.
proof fn lemma_picked_sum<A, B>(s: Seq<A>, t: Seq<A>, pick: spec_fn(A) -> Option<B>)
    ensures
        picked(s + t, pick) == picked(s, pick) + picked(t, pick),
    decreases t.len(),
{
    let whole = s + t;
    if t.len() == 0 {
        assert(whole =~= s);
        assert(picked(s, pick) + picked(t, pick) =~= picked(s, pick));
    } else {
        assert(whole.drop_last() =~= s + t.drop_last());
        assert(whole.last() == t.last());
        lemma_picked_sum(s, t.drop_last(), pick);
        assert(picked(whole, pick) =~= picked(s, pick) + picked(t, pick));
    }
}

/// In another order, the same items are picked, in another order.
proof fn lemma_picked_in_any_order<A, B>(s: Seq<A>, t: Seq<A>, pick: spec_fn(A) -> Option<B>)
    requires
        s.to_multiset() == t.to_multiset(),
    ensures
        picked(s, pick).to_multiset() == picked(t, pick).to_multiset(),
    decreases s.len(),
{
    broadcast use vstd::seq_lib::group_to_multiset_ensures;

    vstd::seq_lib::to_multiset_len(s);
    vstd::seq_lib::to_multiset_len(t);
    if s.len() > 0 {
        let x = s.last();
        let init = s.drop_last();
        assert(s.contains(x));
        assert(t.to_multiset().count(x) > 0);
        let i = t.index_of(x);
        let head = t.take(i);
        let tail = t.skip(i + 1);
        assert(s.remove(s.len() - 1) =~= init);
        assert(t.remove(i) =~= head + tail);
        lemma_picked_in_any_order(init, t.remove(i), pick);
        lemma_picked_sum(head, tail, pick);
        lemma_picked_sum(head, seq![x], pick);
        lemma_picked_sum(head + seq![x], tail, pick);
        assert(t =~= head + seq![x] + tail);
        let one = picked(seq![x], pick);
        reveal_with_fuel(picked, 2);
        assert(seq![x].drop_last() =~= Seq::empty());
        let (h, l) = (picked(head, pick), picked(tail, pick));
        vstd::seq_lib::lemma_multiset_commutative(h, l);
        vstd::seq_lib::lemma_multiset_commutative(h, one);
        vstd::seq_lib::lemma_multiset_commutative(h + one, l);
        vstd::seq_lib::lemma_multiset_commutative(picked(init, pick), one);
        assert(picked(s, pick) =~= picked(init, pick) + one);
        assert(picked(s, pick).to_multiset() =~= picked(t, pick).to_multiset());
    } else {
        assert(s =~= t);
    }
}

/// The pick of the snapshots with a prefix.
spec fn with_prefix(p: Seq<char>) -> spec_fn((Seq<char>, DatedView)) -> Option<DatedView> {
    |e: (Seq<char>, DatedView)|
        if e.0 == p {
            Some(e.1)
        } else {
            None
        }
}

/// The pick of the names that are snapshots, with subvolume and time.
spec fn as_entry() -> spec_fn(Seq<char>) -> Option<(Seq<char>, DatedView)> {
    |name: Seq<char>|
        match snapshot_parts(name) {
            Some((prefix, _)) => Some((prefix, date(name))),
            None => None,
        }
}

/// The pick of the names of directories.
spec fn as_directory() -> spec_fn((Seq<char>, bool)) -> Option<Seq<char>> {
    |e: (Seq<char>, bool)|
        if e.1 {
            Some(e.0)
        } else {
            None
        }
}

proof fn lemma_members_are_picked(entries: Seq<(Seq<char>, DatedView)>, p: Seq<char>)
    ensures
        members(entries, p) == picked(entries, with_prefix(p)),
    decreases entries.len(),
{
    if entries.len() > 0 {
        lemma_members_are_picked(entries.drop_last(), p);
    }
}

proof fn lemma_entries_are_picked(names: Seq<Seq<char>>)
    ensures
        snapshot_entries(names) == picked(names, as_entry()),
    decreases names.len(),
{
    if names.len() > 0 {
        lemma_entries_are_picked(names.drop_last());
    }
}

proof fn lemma_directories_are_picked(entries: Seq<DirEntry>)
    ensures
        directory_names(entries) == picked(listed(entries), as_directory()),
    decreases entries.len(),
{
    if entries.len() > 0 {
        lemma_directories_are_picked(entries.drop_last());
        assert(listed(entries).drop_last() =~= listed(entries.drop_last()));
        assert(listed(entries).last() == (entries.last().name@, entries.last().is_dir));
    }
}

/// The listing does not depend on the order of the names.
pub proof fn law_order_of_names_does_not_matter(
    names: Seq<Seq<char>>,
    others: Seq<Seq<char>>,
    a: Seq<(Seq<char>, Seq<Seq<char>>)>,
    b: Seq<(Seq<char>, Seq<Seq<char>>)>,
)
    requires
        names.to_multiset() == others.to_multiset(),
        is_grouping(snapshot_entries(names), dated(a)),
        is_grouping(snapshot_entries(others), dated(b)),
    ensures
        a == b,
{
    broadcast use vstd::seq_lib::group_to_multiset_ensures;

    let entries = snapshot_entries(names);
    let shuffled = snapshot_entries(others);
    lemma_entries_are_picked(names);
    lemma_entries_are_picked(others);
    lemma_picked_in_any_order(names, others, as_entry());
    let groups = dated(b);
    assert forall|i: int| 0 <= i < groups.len() implies {
        &&& newest_first(#[trigger] groups[i].1)
        &&& groups[i].1.len() > 0
        &&& groups[i].1.to_multiset() == members(entries, groups[i].0).to_multiset()
    } by {
        let p = groups[i].0;
        lemma_members_are_picked(entries, p);
        lemma_members_are_picked(shuffled, p);
        lemma_picked_in_any_order(entries, shuffled, with_prefix(p));
        assert(newest_first(groups[i].1));
    }
    assert forall|k: int| 0 <= k < entries.len() implies has_group(
        groups,
        #[trigger] entries[k].0,
    ) by {
        assert(entries.contains(entries[k]));
        assert(entries.to_multiset().count(entries[k]) > 0);
        assert(shuffled.to_multiset().count(entries[k]) > 0);
        let m = shuffled.index_of(entries[k]);
        assert(has_group(groups, shuffled[m].0));
    }
    law_listing_is_unique(names, a, b);
}

/// The entries of a directory, as texts.
pub open spec fn listed(entries: Seq<DirEntry>) -> Seq<(Seq<char>, bool)> {
    entries.map_values(|e: DirEntry| (e.name@, e.is_dir))
}

/// The snapshots in a directory are the same in whatever order it lists its
/// entries.
pub proof fn law_order_of_the_directory_does_not_matter(
    entries: Seq<DirEntry>,
    others: Seq<DirEntry>,
    a: Seq<(Seq<char>, Seq<Seq<char>>)>,
    b: Seq<(Seq<char>, Seq<Seq<char>>)>,
)
    requires
        listed(entries).to_multiset() == listed(others).to_multiset(),
        is_grouping(snapshot_entries(directory_names(entries)), dated(a)),
        is_grouping(snapshot_entries(directory_names(others)), dated(b)),
    ensures
        a == b,
{
    lemma_directories_are_picked(entries);
    lemma_directories_are_picked(others);
    lemma_picked_in_any_order(listed(entries), listed(others), as_directory());
    law_order_of_names_does_not_matter(directory_names(entries), directory_names(others), a, b);
}

// ---------------------------------------------------------------------------
// What is listed, said of the names themselves

/// A name is that of a snapshot exactly if it is a subvolume, a dot and a
/// timestamp without a dot that can be read.
pub proof fn law_snapshot_is_subvolume_dot_timestamp(
    name: Seq<char>,
    prefix: Seq<char>,
    timestamp: Seq<char>,
)
    ensures
        snapshot_parts(name) == Some((prefix, timestamp)) <==> name == prefix.push('.') + timestamp
            && !timestamp.contains('.') && prefix.len() > 0 && btrbk_timestamp(timestamp) is Some,
{
    law_split_is_at_the_last(name, '.');
    if name == prefix.push('.') + timestamp && !timestamp.contains('.') {
        assert(name[prefix.len() as int] == '.');
        assert(name.contains('.'));
        let (a, b) = rsplit_once(name, '.')->0;
        if a.len() < prefix.len() {
            assert(b[prefix.len() - a.len() - 1] == name[prefix.len() as int]);
            assert(b.contains('.'));
        }
        if a.len() > prefix.len() {
            assert(name[a.len() as int] == '.');
            assert(timestamp[a.len() - prefix.len() - 1] == '.');
            assert(timestamp.contains('.'));
        }
        let n = prefix.len() as int;
        assert(a.len() == n);
        assert(a =~= name.take(n));
        assert(prefix =~= name.take(n));
        assert(b =~= name.skip(n + 1));
        assert(timestamp =~= name.skip(n + 1));
    }
}

/// A label is the name, with the time in parentheses if times are shown and the
/// name has one.
pub proof fn law_labels_show_name_and_time(
    name: Seq<char>,
    prefix: Seq<char>,
    timestamp: Seq<char>,
)
    ensures
        labelled(name, shown_time(false, name)) == name,
        snapshot_parts(name) is None ==> labelled(name, shown_time(true, name)) == name,
        snapshot_parts(name) == Some((prefix, timestamp)) ==> labelled(name, shown_time(true, name))
            == name + " ("@ + display_text(btrbk_timestamp(timestamp)->0) + ")"@,
        snapshot_parts(name) == Some((prefix, timestamp)) ==> date(name) == (DatedView {
            name,
            time: btrbk_timestamp(timestamp)->0,
        }),
        snapshot_time(name) == date(name).time,
{
}

/// "@" comes before every other subvolume, and the others come in the order of
/// a dictionary.
pub proof fn law_subvolumes_come_in_order(a: Seq<char>, b: Seq<char>)
    ensures
        prefix_less(a, b) <==> a != b && (a == "@"@ || b != "@"@ && lex_less(a, b)),
{
    lemma_lex_irreflexive(a);
}

/// A snapshot is older by its time, and by its name only where the times are
/// the same.
pub proof fn law_age_is_told_by_time(a: DatedView, b: DatedView)
    ensures
        time_less(a.time, b.time) ==> older(a, b),
        a.time == b.time ==> (older(a, b) <==> lex_less(a.name, b.name)),
        older(a, b) ==> time_less(a.time, b.time) || a.time == b.time,
{
}

/// Names are gone through one by one: each that is a snapshot is an entry of
/// its subvolume, and no other is. Of a directory only the directories count.
pub proof fn law_every_name_is_looked_at(
    a: Seq<Seq<char>>,
    b: Seq<Seq<char>>,
    name: Seq<char>,
    c: Seq<DirEntry>,
    d: Seq<DirEntry>,
    entry: DirEntry,
)
    ensures
        snapshot_entries(a + b) == snapshot_entries(a) + snapshot_entries(b),
        snapshot_entries(Seq::empty()).len() == 0,
        snapshot_parts(name) is None ==> snapshot_entries(seq![name]).len() == 0,
        snapshot_parts(name) matches Some((prefix, _)) ==> snapshot_entries(seq![name]) == seq![
            (prefix, date(name)),
        ],
        directory_names(c + d) == directory_names(c) + directory_names(d),
        directory_names(Seq::empty()).len() == 0,
        entry.is_dir ==> directory_names(seq![entry]) == seq![entry.name@],
        !entry.is_dir ==> directory_names(seq![entry]).len() == 0,
{
    lemma_entries_are_picked(a);
    lemma_entries_are_picked(b);
    lemma_entries_are_picked(a + b);
    lemma_picked_sum(a, b, as_entry());
    lemma_directories_are_picked(c);
    lemma_directories_are_picked(d);
    lemma_directories_are_picked(c + d);
    assert(listed(c + d) =~= listed(c) + listed(d));
    lemma_picked_sum(listed(c), listed(d), as_directory());
    reveal_with_fuel(snapshot_entries, 2);
    reveal_with_fuel(directory_names, 2);
    assert(seq![name].drop_last() =~= Seq::empty());
    assert(seq![entry].drop_last() =~= Seq::empty());
    if let Some((prefix, _)) = snapshot_parts(name) {
        assert(snapshot_entries(seq![name]) =~= seq![(prefix, date(name))]);
    }
    if entry.is_dir {
        assert(directory_names(seq![entry]) =~= seq![entry.name@]);
    }
}

/// Every directory with the name of a snapshot is listed under its subvolume.
pub proof fn law_every_snapshot_in_the_directory_is_listed(
    entries: Seq<DirEntry>,
    groups: Seq<(Seq<char>, Seq<Seq<char>>)>,
    k: int,
    prefix: Seq<char>,
    timestamp: Seq<char>,
)
    requires
        is_grouping(snapshot_entries(directory_names(entries)), dated(groups)),
        0 <= k < entries.len(),
        entries[k].is_dir,
        entries[k].name@ == prefix.push('.') + timestamp,
        !timestamp.contains('.'),
        prefix.len() > 0,
        btrbk_timestamp(timestamp) is Some,
    ensures
        exists|g: int, i: int|
            #![trigger groups[g].1[i]]
            0 <= g < groups.len() && 0 <= i < groups[g].1.len() && groups[g].0 == prefix
                && groups[g].1[i] == entries[k].name@,
{
    let name = entries[k].name@;
    law_snapshot_is_subvolume_dot_timestamp(name, prefix, timestamp);
    let (a, b) = (entries.take(k), entries.skip(k + 1));
    let one = seq![entries[k]];
    law_every_name_is_looked_at(Seq::empty(), Seq::empty(), name, a, one, entries[k]);
    law_every_name_is_looked_at(Seq::empty(), Seq::empty(), name, a + one, b, entries[k]);
    assert(entries =~= a + one + b);
    let (x, y) = (directory_names(a), directory_names(b));
    law_every_name_is_looked_at(x, seq![name], name, a, one, entries[k]);
    law_every_name_is_looked_at(x + seq![name], y, name, a, one, entries[k]);
    let all = snapshot_entries(directory_names(entries));
    let at = snapshot_entries(x).len() as int;
    assert(all[at] == (prefix, date(name)));
    law_every_snapshot_is_listed(all, dated(groups), at);
    let g = choose|g: int|
        0 <= g < dated(groups).len() && #[trigger] dated(groups)[g].0 == all[at].0
            && dated(groups)[g].1.contains(all[at].1);
    let i = dated(groups)[g].1.index_of(date(name));
    assert(dated(groups)[g].1[i] == date(groups[g].1[i]));
    assert(groups[g].1[i] == name);
}

/// Nothing is listed that is not a directory with the name of a snapshot of
/// that subvolume.
pub proof fn law_only_directories_are_listed(
    entries: Seq<DirEntry>,
    groups: Seq<(Seq<char>, Seq<Seq<char>>)>,
    g: int,
    i: int,
)
    requires
        is_grouping(snapshot_entries(directory_names(entries)), dated(groups)),
        0 <= g < groups.len(),
        0 <= i < groups[g].1.len(),
    ensures
        exists|k: int|
            0 <= k < entries.len() && (#[trigger] entries[k]).is_dir && entries[k].name@
                == groups[g].1[i],
        exists|timestamp: Seq<char>|
            groups[g].1[i] == #[trigger] (groups[g].0.push('.') + timestamp)
                && !timestamp.contains('.') && btrbk_timestamp(timestamp) is Some,
        groups[g].0.len() > 0,
{
    law_listed_names_belong_to_their_subvolume(directory_names(entries), groups, g, i);
    let name = groups[g].1[i];
    lemma_directory_of(entries, name);
    let (prefix, timestamp) = snapshot_parts(name)->0;
    law_snapshot_is_subvolume_dot_timestamp(name, prefix, timestamp);
}

proof fn lemma_directory_of(entries: Seq<DirEntry>, name: Seq<char>)
    requires
        directory_names(entries).contains(name),
    ensures
        exists|k: int|
            0 <= k < entries.len() && (#[trigger] entries[k]).is_dir && entries[k].name@ == name,
    decreases entries.len(),
{
    let rest = entries.drop_last();
    let last = entries.len() - 1;
    let n = directory_names(entries).index_of(name);
    if n < directory_names(rest).len() {
        assert(directory_names(rest)[n] == name);
        lemma_directory_of(rest, name);
        let k = choose|k: int|
            0 <= k < rest.len() && (#[trigger] rest[k]).is_dir && rest[k].name@ == name;
        assert(entries[k] == rest[k]);
    } else {
        assert(entries[last].is_dir);
    }
}

/// Each subvolume is listed once, in order, with at least one snapshot.
pub proof fn law_subvolumes_are_listed_once(
    names: Seq<Seq<char>>,
    groups: Seq<(Seq<char>, Seq<Seq<char>>)>,
    g: int,
    h: int,
)
    requires
        is_grouping(snapshot_entries(names), dated(groups)),
        0 <= g < h < groups.len(),
    ensures
        groups[g].0 != groups[h].0,
        groups[g].0 == "@"@ || groups[h].0 != "@"@ && lex_less(groups[g].0, groups[h].0),
        groups[g].1.len() > 0,
        groups[h].1.len() > 0,
{
    let all = dated(groups);
    assert(prefix_less(all[g].0, all[h].0));
    assert(newest_first(all[g].1) && newest_first(all[h].1));
    assert(all[g].1.len() == groups[g].1.len() && all[h].1.len() == groups[h].1.len());
    law_subvolumes_come_in_order(groups[g].0, groups[h].0);
}

/// Turned around, the groups are the same with their snapshots from the last to
/// the first.
pub proof fn law_turning_around_keeps_the_snapshots(
    groups: Seq<(Seq<char>, Seq<Seq<char>>)>,
    g: int,
    i: int,
    j: int,
)
    requires
        0 <= g < groups.len(),
    ensures
        reversed_groups(groups).len() == groups.len(),
        reversed_groups(groups)[g].0 == groups[g].0,
        reversed_groups(groups)[g].1.len() == groups[g].1.len(),
        0 <= i < groups[g].1.len() ==> reversed_groups(groups)[g].1[i]
            == groups[g].1[groups[g].1.len() - 1 - i],
        is_oldest_first(groups) && 0 <= i < j < groups[g].1.len() ==> !time_less(
            snapshot_time(groups[g].1[j]),
            snapshot_time(groups[g].1[i]),
        ),
{
}

/// The views of groups and snapshots hold each text at its own place.
pub proof fn law_views_of_groups_keep_the_places(
    groups: Seq<(String, Vec<String>)>,
    lists: Seq<(String, Vec<Dated>)>,
    texts_of: Seq<(Seq<char>, Seq<Seq<char>>)>,
    g: int,
    i: int,
)
    ensures
        groups_view(groups).len() == groups.len(),
        0 <= g < groups.len() ==> groups_view(groups)[g].0 == groups[g].0@
            && groups_view(groups)[g].1.len() == groups[g].1@.len(),
        0 <= g < groups.len() && 0 <= i < groups[g].1@.len() ==> groups_view(groups)[g].1[i]
            == groups[g].1@[i]@,
        dated_view(lists).len() == lists.len(),
        0 <= g < lists.len() ==> dated_view(lists)[g].0 == lists[g].0@
            && dated_view(lists)[g].1.len() == lists[g].1@.len(),
        0 <= g < lists.len() && 0 <= i < lists[g].1@.len() ==> dated_view(lists)[g].1[i] == (
        DatedView { name: lists[g].1@[i].name@, time: lists[g].1@[i].time }),
        0 <= g < lists.len() && 0 <= i < lists[g].1@.len() ==> undated(dated_view(lists))[g].1[i]
            == lists[g].1@[i].name@ && undated(dated_view(lists))[g].0 == lists[g].0@
            && undated(dated_view(lists))[g].1.len() == lists[g].1@.len(),
        dated(texts_of).len() == texts_of.len(),
        0 <= g < texts_of.len() ==> dated(texts_of)[g].0 == texts_of[g].0
            && dated(texts_of)[g].1.len() == texts_of[g].1.len(),
        0 <= g < texts_of.len() && 0 <= i < texts_of[g].1.len() ==> dated(texts_of)[g].1[i]
            == date(texts_of[g].1[i]),
{
}

/// The views of entries hold each at its own place.
pub proof fn law_views_of_entries_keep_the_places(entries: Seq<(String, Dated)>, i: int)
    requires
        0 <= i < entries.len(),
    ensures
        entries_view(entries).len() == entries.len(),
        entries_view(entries)[i].0 == entries[i].0@,
        entries_view(entries)[i].1.name == entries[i].1.name@,
        entries_view(entries)[i].1.time == entries[i].1.time,
{
}

/// What has been read of a name is the time behind its last dot.
pub proof fn law_read_is_the_time_in_the_name(
    name: Seq<char>,
    prefix: Seq<char>,
    timestamp: Seq<char>,
)
    requires
        is_read(name),
        name == prefix.push('.') + timestamp,
        !timestamp.contains('.'),
    ensures
        is_reading(timestamp, btrbk_timestamp(timestamp)),
{
    law_split_is_at_the_last(name, '.');
    assert(name[prefix.len() as int] == '.');
    assert(name.contains('.'));
    let (a, b) = rsplit_once(name, '.')->0;
    if a.len() < prefix.len() {
        assert(b[prefix.len() - a.len() - 1] == name[prefix.len() as int]);
        assert(b.contains('.'));
    }
    if a.len() > prefix.len() {
        assert(name[a.len() as int] == '.');
        assert(timestamp[a.len() - prefix.len() - 1] == '.');
        assert(timestamp.contains('.'));
    }
    let n = prefix.len() as int;
    assert(b =~= name.skip(n + 1));
    assert(timestamp =~= name.skip(n + 1));
}

} // verus!
