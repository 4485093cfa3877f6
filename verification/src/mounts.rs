//! Which subvolume is mounted where.

use crate::text::{
    fields, law_split_is_at_the_first_text, lines, occurs_at, same_text, spells, split_at_text,
    split_fields, split_lines, split_once_at, text_of, to_chars, to_text, trim_leading, views,
    without_leading,
};
use vstd::prelude::*;

verus! {

/// The root within its filesystem of the btrfs mount at `mountpoint` that a
/// line of mountinfo describes. The fields before " - " are those of the
/// mount, the first one after it is the filesystem type.
pub open spec fn btrfs_root(line: Seq<char>, mountpoint: Seq<char>) -> Option<Seq<char>> {
    match split_once_at(line, " - "@) {
        None => None,
        Some((mount, fs)) => {
            let mount = fields(mount);
            let fs = fields(fs);
            if fs.len() > 0 && fs[0] == "btrfs"@ && mount.len() > 4 && mount[4] == mountpoint {
                Some(mount[3])
            } else {
                None
            }
        },
    }
}

/// The root of the btrfs mount in effect at `mountpoint`: the last one hides
/// those before it.
pub open spec fn root_in_effect(ls: Seq<Seq<char>>, mountpoint: Seq<char>) -> Option<Seq<char>>
    decreases ls.len(),
{
    if ls.len() == 0 {
        None
    } else {
        match btrfs_root(ls.last(), mountpoint) {
            Some(root) => Some(root),
            None => root_in_effect(ls.drop_last(), mountpoint),
        }
    }
}

/// The subvolume mounted at `mountpoint`, relative to the top level.
pub open spec fn subvolume_at(mountinfo: Seq<char>, mountpoint: Seq<char>) -> Option<Seq<char>> {
    match root_in_effect(lines(mountinfo), mountpoint) {
        Some(root) => Some(trim_leading(root, '/')),
        None => None,
    }
}

/// Reads one line of mountinfo.
fn read_root<'a>(line: &'a [char], mountpoint: &str) -> (r: Option<&'a [char]>)
    ensures
        match r {
            Some(root) => btrfs_root(line@, mountpoint@) == Some(root@),
            None => btrfs_root(line@, mountpoint@) is None,
        },
{
    let separator = to_chars(" - ");
    match split_at_text(line, separator.as_slice()) {
        None => None,
        Some((mount, fs)) => {
            let mount_fields = split_fields(mount);
            let fs_fields = split_fields(fs);
            let ghost mount_view = fields(mount@);
            let ghost fs_view = fields(fs@);
            if fs_fields.len() > 0 && spells(fs_fields[0], "btrfs") && mount_fields.len() > 4
                && spells(mount_fields[4], mountpoint) {
                assert(fs_view[0] == fs_fields@[0]@);
                assert(mount_view[4] == mount_fields@[4]@);
                assert(mount_view[3] == mount_fields@[3]@);
                Some(mount_fields[3])
            } else {
                proof {
                    if fs_fields@.len() > 0 {
                        assert(fs_view[0] == fs_fields@[0]@);
                    }
                    if mount_fields@.len() > 4 {
                        assert(mount_view[4] == mount_fields@[4]@);
                    }
                }
                None
            }
        },
    }
}

/// Subvolume mounted at `mountpoint`, relative to the top level of its
/// filesystem, from the content of /proc/self/mountinfo.
pub fn mounted_subvolume(mountinfo: &str, mountpoint: &str) -> (r: Option<String>)
    ensures
        text_of(r) == subvolume_at(mountinfo@, mountpoint@),
{
    let chars = to_chars(mountinfo);
    let rows = split_lines(chars.as_slice());
    let ghost ls = lines(mountinfo@);
    let mut n: usize = rows.len();
    assert(ls.take(n as int) =~= ls);
    while n > 0
        invariant
            n <= rows@.len(),
            ls == lines(mountinfo@),
            views(rows@) == ls,
            root_in_effect(ls, mountpoint@) == root_in_effect(ls.take(n as int), mountpoint@),
        decreases n,
    {
        assert(ls.take(n as int).last() == rows@[n - 1]@);
        assert(ls.take(n as int).drop_last() =~= ls.take(n - 1));
        if let Some(root) = read_root(rows[n - 1], mountpoint) {
            return Some(to_text(without_leading(root, '/')));
        }
        n = n - 1;
    }
    None
}

/// What a restored subvolume holds, which decides how it is checked.
#[derive(Debug, Clone, Copy, PartialEq, Eq, Structural)]
pub enum SubvolumeKind {
    Root,
    Home,
    Other,
}

/// Root and home are known by the names "@" and "@home", or by what is mounted
/// on / and /home: in layouts without "@" they have other names.
pub open spec fn kind_of(subvol_name: Seq<char>, mountinfo: Seq<char>) -> SubvolumeKind {
    if subvol_name == "@"@ || subvolume_at(mountinfo, "/"@) == Some(subvol_name) {
        SubvolumeKind::Root
    } else if subvol_name == "@home"@ || subvolume_at(mountinfo, "/home"@) == Some(subvol_name) {
        SubvolumeKind::Home
    } else {
        SubvolumeKind::Other
    }
}

/// Whether the subvolume is the one mounted at `mountpoint`.
fn is_mounted_at(subvol_name: &str, mountinfo: &str, mountpoint: &str) -> (yes: bool)
    ensures
        yes == (subvolume_at(mountinfo@, mountpoint@) == Some(subvol_name@)),
{
    match mounted_subvolume(mountinfo, mountpoint) {
        Some(mounted) => same_text(mounted.as_str(), subvol_name),
        None => false,
    }
}

/// Tells what a subvolume holds.
pub fn subvolume_kind(subvol_name: &str, mountinfo: &str) -> (kind: SubvolumeKind)
    ensures
        kind == kind_of(subvol_name@, mountinfo@),
{
    if same_text(subvol_name, "@") || is_mounted_at(subvol_name, mountinfo, "/") {
        SubvolumeKind::Root
    } else if same_text(subvol_name, "@home") || is_mounted_at(subvol_name, mountinfo, "/home") {
        SubvolumeKind::Home
    } else {
        SubvolumeKind::Other
    }
}

/// A later mount on the same path hides the earlier ones.
pub proof fn law_last_mount_wins(
    ls: Seq<Seq<char>>,
    line: Seq<char>,
    mountpoint: Seq<char>,
    root: Seq<char>,
)
    requires
        btrfs_root(line, mountpoint) == Some(root),
    ensures
        root_in_effect(ls.push(line), mountpoint) == Some(root),
{
}

/// A line about another path, or another filesystem, changes nothing.
pub proof fn law_other_mounts_do_not_matter(
    ls: Seq<Seq<char>>,
    line: Seq<char>,
    mountpoint: Seq<char>,
)
    requires
        btrfs_root(line, mountpoint) is None,
    ensures
        root_in_effect(ls.push(line), mountpoint) == root_in_effect(ls, mountpoint),
{
    assert(ls.push(line).drop_last() =~= ls);
}

/// Whether a line of mountinfo describes a btrfs mount at `mountpoint`, with
/// `root` as its root within the filesystem: `mount` is what stands before the
/// first " - ", `fs` what stands behind it.
pub open spec fn describes_mount(
    line: Seq<char>,
    mount: Seq<char>,
    fs: Seq<char>,
    root: Seq<char>,
    mountpoint: Seq<char>,
) -> bool {
    &&& line == mount + " - "@ + fs
    &&& forall|j: int| 0 <= j < mount.len() ==> !occurs_at(line, " - "@, j)
    &&& fields(fs).len() > 0 && fields(fs)[0] == "btrfs"@
    &&& fields(mount).len() > 4 && fields(mount)[3] == root && fields(mount)[4] == mountpoint
}

/// A line gives the root of a mount exactly if it describes a btrfs mount at
/// that path with that root.
pub proof fn law_lines_describe_mounts(line: Seq<char>, root: Seq<char>, mountpoint: Seq<char>)
    ensures
        btrfs_root(line, mountpoint) == Some(root) <==> exists|mount: Seq<char>, fs: Seq<char>|
            describes_mount(line, mount, fs, root, mountpoint),
{
    law_split_is_at_the_first_text(line, " - "@);
    if let Some((mount, fs)) = split_once_at(line, " - "@) {
        if btrfs_root(line, mountpoint) == Some(root) {
            assert(describes_mount(line, mount, fs, root, mountpoint));
        }
    }
    if exists|mount: Seq<char>, fs: Seq<char>|
        describes_mount(line, mount, fs, root, mountpoint) {
        let (mount, fs) = choose|mount: Seq<char>, fs: Seq<char>|
            describes_mount(line, mount, fs, root, mountpoint);
        let n = mount.len() as int;
        let sep = " - "@;
        assert(line.subrange(n, n + sep.len()) =~= sep);
        assert(occurs_at(line, sep, n));
        let (a, b) = split_once_at(line, sep)->0;
        assert(line.subrange(a.len() as int, a.len() as int + sep.len()) =~= sep);
        assert(occurs_at(line, sep, a.len() as int));
        assert(a.len() == n);
        assert(a =~= line.take(n) && mount =~= line.take(n));
        assert(b =~= line.skip(n + sep.len()) && fs =~= line.skip(n + sep.len()));
    }
}

/// The subvolume mounted at a path is the root of the last line that describes
/// a btrfs mount there, without its leading slashes.
pub proof fn law_the_last_mount_is_in_effect(
    mountinfo: Seq<char>,
    mountpoint: Seq<char>,
    k: int,
    mount: Seq<char>,
    fs: Seq<char>,
    root: Seq<char>,
)
    requires
        0 <= k < lines(mountinfo).len(),
        describes_mount(lines(mountinfo)[k], mount, fs, root, mountpoint),
        forall|j: int, m: Seq<char>, f: Seq<char>, r: Seq<char>|
            k < j < lines(mountinfo).len() ==> !#[trigger] describes_mount(
                lines(mountinfo)[j],
                m,
                f,
                r,
                mountpoint,
            ),
    ensures
        subvolume_at(mountinfo, mountpoint) == Some(trim_leading(root, '/')),
{
    let ls = lines(mountinfo);
    law_lines_describe_mounts(ls[k], root, mountpoint);
    assert forall|j: int| k < j < ls.len() implies btrfs_root(
        #[trigger] ls[j],
        mountpoint,
    ) is None by {
        if let Some(r) = btrfs_root(ls[j], mountpoint) {
            law_lines_describe_mounts(ls[j], r, mountpoint);
            let (m, f) = choose|m: Seq<char>, f: Seq<char>|
                describes_mount(ls[j], m, f, r, mountpoint);
            assert(describes_mount(lines(mountinfo)[j], m, f, r, mountpoint));
        }
    }
    lemma_last_root(ls, mountpoint, k);
}

proof fn lemma_last_root(ls: Seq<Seq<char>>, mountpoint: Seq<char>, k: int)
    requires
        0 <= k < ls.len(),
        btrfs_root(ls[k], mountpoint) is Some,
        forall|j: int| k < j < ls.len() ==> btrfs_root(#[trigger] ls[j], mountpoint) is None,
    ensures
        root_in_effect(ls, mountpoint) == btrfs_root(ls[k], mountpoint),
    decreases ls.len(),
{
    if k < ls.len() - 1 {
        assert(btrfs_root(ls[ls.len() - 1], mountpoint) is None);
        let init = ls.drop_last();
        assert forall|j: int| k < j < init.len() implies btrfs_root(
            #[trigger] init[j],
            mountpoint,
        ) is None by {
            assert(init[j] == ls[j]);
        }
        lemma_last_root(init, mountpoint, k);
    }
}

/// Where no line describes a btrfs mount at a path, no subvolume is mounted
/// there.
pub proof fn law_nothing_is_mounted_without_a_line(mountinfo: Seq<char>, mountpoint: Seq<char>)
    requires
        forall|j: int, m: Seq<char>, f: Seq<char>, r: Seq<char>|
            0 <= j < lines(mountinfo).len() ==> !#[trigger] describes_mount(
                lines(mountinfo)[j],
                m,
                f,
                r,
                mountpoint,
            ),
    ensures
        subvolume_at(mountinfo, mountpoint) is None,
{
    let ls = lines(mountinfo);
    assert forall|j: int| 0 <= j < ls.len() implies btrfs_root(
        #[trigger] ls[j],
        mountpoint,
    ) is None by {
        if let Some(r) = btrfs_root(ls[j], mountpoint) {
            law_lines_describe_mounts(ls[j], r, mountpoint);
            let (m, f) = choose|m: Seq<char>, f: Seq<char>|
                describes_mount(ls[j], m, f, r, mountpoint);
            assert(describes_mount(lines(mountinfo)[j], m, f, r, mountpoint));
        }
    }
    lemma_no_root(ls, mountpoint);
}

proof fn lemma_no_root(ls: Seq<Seq<char>>, mountpoint: Seq<char>)
    requires
        forall|j: int| 0 <= j < ls.len() ==> btrfs_root(#[trigger] ls[j], mountpoint) is None,
    ensures
        root_in_effect(ls, mountpoint) is None,
    decreases ls.len(),
{
    if ls.len() > 0 {
        assert(btrfs_root(ls[ls.len() - 1], mountpoint) is None);
        let init = ls.drop_last();
        assert forall|j: int| 0 <= j < init.len() implies btrfs_root(
            #[trigger] init[j],
            mountpoint,
        ) is None by {
            assert(init[j] == ls[j]);
        }
        lemma_no_root(init, mountpoint);
    }
}

/// A subvolume is root if it is called "@" or mounted on /, else home if it is
/// called "@home" or mounted on /home, else neither.
pub proof fn law_root_and_home_are_known(name: Seq<char>, mountinfo: Seq<char>)
    ensures
        name == "@"@ ==> kind_of(name, mountinfo) == SubvolumeKind::Root,
        subvolume_at(mountinfo, "/"@) == Some(name) ==> kind_of(name, mountinfo)
            == SubvolumeKind::Root,
        kind_of(name, mountinfo) == SubvolumeKind::Root ==> name == "@"@ || subvolume_at(
            mountinfo,
            "/"@,
        ) == Some(name),
        kind_of(name, mountinfo) != SubvolumeKind::Root && (name == "@home"@ || subvolume_at(
            mountinfo,
            "/home"@,
        ) == Some(name)) <==> kind_of(name, mountinfo) == SubvolumeKind::Home,
{
}

} // verus!
