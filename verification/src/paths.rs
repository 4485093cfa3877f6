//! Unix paths: joining them, comparing them by component, and the directories
//! above them.

use crate::text::{lemma_run_len, other_than, run_len, to_chars};
use vstd::prelude::*;
use vstd::slice::{slice_subrange, slice_to_vec};

verus! {

/// The byte '/'.
pub const SLASH: u8 = 47;

/// The byte '.'.
pub const DOT: u8 = 46;

// ---------------------------------------------------------------------------
// Joining

/// `rel` below the directory `base`. An absolute `rel` stands for itself.
pub open spec fn path_join<T>(base: Seq<T>, rel: Seq<T>, slash: T) -> Seq<T> {
    if rel.len() > 0 && rel[0] == slash {
        rel
    } else if base.len() == 0 || base.last() == slash {
        base + rel
    } else {
        base.push(slash) + rel
    }
}

/// Joins two paths given as text.
pub fn join_text(base: &str, rel: &str) -> (path: String)
    ensures
        path@ == path_join(base@, rel@, '/'),
{
    let base_chars = to_chars(base);
    let rel_chars = to_chars(rel);
    if rel_chars.len() > 0 && rel_chars[0] == '/' {
        return rel.to_owned();
    }
    let mut path = base.to_owned();
    if base_chars.len() > 0 && base_chars[base_chars.len() - 1] != '/' {
        path.push('/');
    }
    path.append(rel);
    path
}

/// Joins two paths given as bytes.
pub fn join_bytes(base: &[u8], rel: &[u8]) -> (path: Vec<u8>)
    ensures
        path@ == path_join(base@, rel@, SLASH),
{
    if rel.len() > 0 && rel[0] == SLASH {
        return slice_to_vec(rel);
    }
    let mut path = slice_to_vec(base);
    if base.len() > 0 && base[base.len() - 1] != SLASH {
        path.push(SLASH);
    }
    let mut tail = slice_to_vec(rel);
    path.append(&mut tail);
    path
}

// ---------------------------------------------------------------------------
// Components

/// The named components of a path: the pieces between slashes that are
/// neither empty nor ".".
pub open spec fn names_in(p: Seq<u8>) -> Seq<Seq<u8>>
    decreases p.len(),
{
    let n = run_len(p, other_than(SLASH)) as int;
    let piece = p.take(n);
    let name = if piece.len() == 0 || piece == seq![DOT] {
        Seq::empty()
    } else {
        seq![piece]
    };
    if n < p.len() {
        proof {
            lemma_run_len(p, other_than(SLASH));
        }
        name + names_in(p.skip(n + 1))
    } else {
        name
    }
}

/// Whether the first piece of a path is ".".
pub open spec fn starts_with_dot(p: Seq<u8>) -> bool {
    p.len() > 0 && p[0] == DOT && (p.len() == 1 || p[1] == SLASH)
}

/// What comes before the named components: "/" for an absolute path, "." for
/// one that starts with it.
pub open spec fn path_lead(p: Seq<u8>) -> Seq<Seq<u8>> {
    if p.len() > 0 && p[0] == SLASH {
        seq![seq![SLASH]]
    } else if starts_with_dot(p) {
        seq![seq![DOT]]
    } else {
        Seq::empty()
    }
}

/// The components of a path. Repeated and trailing slashes, and "." anywhere
/// but at the start, make no component.
pub open spec fn path_components(p: Seq<u8>) -> Seq<Seq<u8>> {
    path_lead(p) + names_in(p)
}

/// Whether two paths name the same place, component by component.
pub open spec fn same_path(a: Seq<u8>, b: Seq<u8>) -> bool {
    path_components(a) == path_components(b)
}

/// Whether `path` is `base` or lies below it.
pub open spec fn lies_below(path: Seq<u8>, base: Seq<u8>) -> bool {
    path_components(base).is_prefix_of(path_components(path))
}

/// Byte sequences of a list.
pub open spec fn byte_views(list: Seq<Vec<u8>>) -> Seq<Seq<u8>> {
    list.map_values(|v: Vec<u8>| v@)
}

/// Whether two byte sequences are the same.
pub fn same_bytes(a: &[u8], b: &[u8]) -> (yes: bool)
    ensures
        yes == (a@ == b@),
{
    if a.len() != b.len() {
        return false;
    }
    let mut i: usize = 0;
    while i < a.len()
        invariant
            i <= a@.len() == b@.len(),
            forall|k: int| 0 <= k < i ==> a@[k] == b@[k],
        decreases a@.len() - i,
    {
        if a[i] != b[i] {
            return false;
        }
        i = i + 1;
    }
    assert(a@ =~= b@);
    true
}

/// Takes a path apart.
pub fn components(p: &[u8]) -> (r: Vec<Vec<u8>>)
    ensures
        byte_views(r@) == path_components(p@),
{
    let mut r: Vec<Vec<u8>> = Vec::new();
    if p.len() > 0 && p[0] == SLASH {
        let mut root: Vec<u8> = Vec::new();
        root.push(SLASH);
        assert(root@ =~= seq![SLASH]);
        r.push(root);
    } else if p.len() > 0 && p[0] == DOT && (p.len() == 1 || p[1] == SLASH) {
        let mut here: Vec<u8> = Vec::new();
        here.push(DOT);
        assert(here@ =~= seq![DOT]);
        r.push(here);
    }
    assert(byte_views(r@) =~= path_lead(p@));
    assert(p@.skip(0) =~= p@);
    let mut i: usize = 0;
    loop
        invariant
            i <= p@.len(),
            path_components(p@) == byte_views(r@) + names_in(p@.skip(i as int)),
        decreases p@.len() - i,
    {
        let rest = slice_subrange(p, i, p.len());
        assert(rest@ =~= p@.skip(i as int));
        let mut n: usize = 0;
        while n < rest.len() && rest[n] != SLASH
            invariant
                n <= rest@.len(),
                forall|k: int| 0 <= k < n ==> rest@[k] != SLASH,
            decreases rest@.len() - n,
        {
            n = n + 1;
        }
        proof {
            crate::text::lemma_run_len_is(rest@, other_than(SLASH), n as int);
        }
        let piece = slice_subrange(rest, 0, n);
        let ghost r0 = r@;
        let ghost head = rest@.take(n as int);
        assert(piece@ =~= head);
        let ghost name: Seq<Seq<u8>> = if head.len() == 0 || head == seq![DOT] {
            Seq::empty()
        } else {
            seq![head]
        };
        if piece.len() == 0 || (piece.len() == 1 && piece[0] == DOT) {
            proof {
                if head.len() == 1 {
                    assert(head =~= seq![DOT]);
                }
                assert(byte_views(r@) =~= byte_views(r0) + name);
            }
        } else {
            let named = slice_to_vec(piece);
            r.push(named);
            assert(head != seq![DOT]) by {
                if head == seq![DOT] {
                    assert(head.len() == 1 && head[0] == DOT);
                }
            }
            assert(byte_views(r@) =~= byte_views(r0) + name);
        }
        if n == rest.len() {
            return r;
        }
        assert(rest@.skip(n + 1) =~= p@.skip(i + n + 1));
        assert(byte_views(r0) + (name + names_in(rest@.skip(n + 1))) =~= byte_views(r@)
            + names_in(rest@.skip(n + 1)));
        i = i + n + 1;
    }
}

/// Whether the first `n` components are the same.
fn same_components(a: &Vec<Vec<u8>>, b: &Vec<Vec<u8>>, n: usize) -> (yes: bool)
    requires
        n <= a@.len(),
        n <= b@.len(),
    ensures
        yes == (byte_views(a@).take(n as int) == byte_views(b@).take(n as int)),
{
    let ghost x = byte_views(a@);
    let ghost y = byte_views(b@);
    let mut i: usize = 0;
    while i < n
        invariant
            i <= n <= a@.len(),
            n <= b@.len(),
            x == byte_views(a@),
            y == byte_views(b@),
            x.take(i as int) == y.take(i as int),
        decreases n - i,
    {
        if !same_bytes(a[i].as_slice(), b[i].as_slice()) {
            assert(x.take(n as int)[i as int] != y.take(n as int)[i as int]);
            return false;
        }
        assert(x.take(i + 1) =~= x.take(i as int).push(x[i as int]));
        assert(y.take(i + 1) =~= y.take(i as int).push(y[i as int]));
        i = i + 1;
    }
    true
}

/// Whether two paths name the same place.
pub fn is_same_path(a: &[u8], b: &[u8]) -> (yes: bool)
    ensures
        yes == same_path(a@, b@),
{
    let x = components(a);
    let y = components(b);
    if x.len() != y.len() {
        assert(byte_views(x@).len() != byte_views(y@).len());
        return false;
    }
    assert(byte_views(x@).take(x@.len() as int) =~= byte_views(x@));
    assert(byte_views(y@).take(x@.len() as int) =~= byte_views(y@));
    same_components(&x, &y, x.len())
}

/// Whether `path` is `base` or lies below it.
pub fn is_below(path: &[u8], base: &[u8]) -> (yes: bool)
    ensures
        yes == lies_below(path@, base@),
{
    let x = components(path);
    let y = components(base);
    if x.len() < y.len() {
        return false;
    }
    assert(byte_views(y@).take(y@.len() as int) =~= byte_views(y@));
    assert(byte_views(x@).subrange(0, y@.len() as int) =~= byte_views(x@).take(y@.len() as int));
    same_components(&x, &y, y.len())
}

// ---------------------------------------------------------------------------
// Parents

/// A path with the given components.
pub open spec fn path_of(parts: Seq<Seq<u8>>) -> Seq<u8>
    decreases parts.len(),
{
    if parts.len() == 0 {
        Seq::empty()
    } else {
        path_join(path_of(parts.drop_last()), parts.last(), SLASH)
    }
}

/// The directory that holds `p`: its components but the last. The root, and
/// the empty path, have none.
pub open spec fn parent(p: Seq<u8>) -> Option<Seq<u8>> {
    let parts = path_components(p);
    if parts.len() == 0 || parts.last() == seq![SLASH] {
        None
    } else {
        Some(path_of(parts.drop_last()))
    }
}

/// Builds the path of the first `n` components.
fn build_path(parts: &Vec<Vec<u8>>, n: usize) -> (path: Vec<u8>)
    requires
        n <= parts@.len(),
    ensures
        path@ == path_of(byte_views(parts@).take(n as int)),
{
    let ghost all = byte_views(parts@);
    let mut path: Vec<u8> = Vec::new();
    let mut i: usize = 0;
    assert(path@ =~= path_of(all.take(0)));
    while i < n
        invariant
            i <= n <= parts@.len(),
            all == byte_views(parts@),
            path@ == path_of(all.take(i as int)),
        decreases n - i,
    {
        assert(all.take(i + 1).drop_last() =~= all.take(i as int));
        assert(all.take(i + 1).last() == parts@[i as int]@);
        path = join_bytes(path.as_slice(), parts[i].as_slice());
        i = i + 1;
    }
    path
}

/// The directories above components, nearest first.
pub open spec fn dirs_above(parts: Seq<Seq<u8>>) -> Seq<Seq<u8>>
    decreases parts.len(),
{
    if parts.len() == 0 || parts.last() == seq![SLASH] {
        Seq::empty()
    } else {
        seq![path_of(parts.drop_last())] + dirs_above(parts.drop_last())
    }
}

/// The directories that hold a path, nearest first.
pub fn ancestors(p: &[u8]) -> (dirs: Vec<Vec<u8>>)
    ensures
        byte_views(dirs@) == dirs_above(path_components(p@)),
{
    let parts = components(p);
    let ghost all = byte_views(parts@);
    let mut dirs: Vec<Vec<u8>> = Vec::new();
    let mut n: usize = parts.len();
    let mut root: Vec<u8> = Vec::new();
    root.push(SLASH);
    assert(root@ =~= seq![SLASH]);
    assert(all.take(n as int) =~= all);
    assert(byte_views(dirs@) + dirs_above(all) =~= dirs_above(all));
    while n > 0 && !same_bytes(parts[n - 1].as_slice(), root.as_slice())
        invariant
            n <= parts@.len(),
            all == byte_views(parts@),
            root@ == seq![SLASH],
            dirs_above(all) == byte_views(dirs@) + dirs_above(all.take(n as int)),
        decreases n,
    {
        let ghost dirs0 = dirs@;
        assert(all.take(n as int).last() == parts@[n - 1]@);
        assert(all.take(n as int).drop_last() =~= all.take(n - 1));
        let dir = build_path(&parts, n - 1);
        dirs.push(dir);
        assert(byte_views(dirs@) =~= byte_views(dirs0).push(dir@));
        assert(byte_views(dirs0) + (seq![dir@] + dirs_above(all.take(n - 1))) =~= byte_views(
            dirs@,
        ) + dirs_above(all.take(n - 1)));
        n = n - 1;
    }
    proof {
        if n > 0 {
            assert(all.take(n as int).last() == parts@[n - 1]@);
        }
        assert(byte_views(dirs@) + Seq::empty() =~= byte_views(dirs@));
    }
    dirs
}

/// Which of `dirs`, nearest first, have to be created: those before the first
/// that exists.
pub open spec fn missing(dirs: Seq<Seq<u8>>, exists: Seq<bool>) -> Seq<Seq<u8>> {
    let n = run_len(exists, |e: bool| !e);
    dirs.take(
        if n < dirs.len() {
            n as int
        } else {
            dirs.len() as int
        },
    )
}

/// The directories about to be created, so that they can be handed over to
/// the owner of the configuration too. `exists` may stop at the first that is
/// there.
pub fn missing_dirs(dirs: &Vec<Vec<u8>>, exists: &Vec<bool>) -> (r: Vec<Vec<u8>>)
    ensures
        byte_views(r@) == missing(byte_views(dirs@), exists@),
{
    let ghost all = byte_views(dirs@);
    let mut r: Vec<Vec<u8>> = Vec::new();
    let mut i: usize = 0;
    while i < dirs.len() && i < exists.len() && !exists[i]
        invariant
            i <= dirs@.len(),
            i <= exists@.len(),
            all == byte_views(dirs@),
            forall|k: int| 0 <= k < i ==> !#[trigger] exists@[k],
            byte_views(r@) == all.take(i as int),
        decreases dirs@.len() - i,
    {
        let ghost r0 = r@;
        r.push(slice_to_vec(dirs[i].as_slice()));
        assert(byte_views(r@) =~= byte_views(r0).push(dirs@[i as int]@));
        assert(all.take(i + 1) =~= all.take(i as int).push(all[i as int]));
        i = i + 1;
    }
    proof {
        let absent = |e: bool| !e;
        lemma_run_len(exists@, absent);
        if i < dirs@.len() {
            crate::text::lemma_run_len_is(exists@, absent, i as int);
        } else {
            let n = run_len(exists@, absent) as int;
            if n < i {
                assert(!exists@[n]);
                assert(absent(exists@[n]));
            }
            assert(all.take(i as int) =~= all);
        }
    }
    r
}

// ---------------------------------------------------------------------------
// Laws of components

/// Whether `c` can be a named component.
pub open spec fn is_name(c: Seq<u8>) -> bool {
    c.len() > 0 && c != seq![DOT] && !c.contains(SLASH)
}

/// The names before and after a slash are the names of both sides.
proof fn lemma_names_around_slash(a: Seq<u8>, b: Seq<u8>)
    ensures
        names_in(a.push(SLASH) + b) == names_in(a) + names_in(b),
    decreases a.len(),
{
    let p = other_than(SLASH);
    let whole = a.push(SLASH) + b;
    let n = run_len(a, p) as int;
    lemma_run_len(a, p);
    assert forall|i: int| 0 <= i < n implies p(#[trigger] whole[i]) by {
        assert(whole[i] == a[i]);
    }
    if n < a.len() {
        assert(whole[n] == a[n]);
        crate::text::lemma_run_len_is(whole, p, n);
        assert(whole.take(n) =~= a.take(n));
        assert(whole.skip(n + 1) =~= a.skip(n + 1).push(SLASH) + b);
        lemma_names_around_slash(a.skip(n + 1), b);
        let name: Seq<Seq<u8>> = if a.take(n).len() == 0 || a.take(n) == seq![DOT] {
            Seq::empty()
        } else {
            seq![a.take(n)]
        };
        assert(name + (names_in(a.skip(n + 1)) + names_in(b)) =~= (name + names_in(
            a.skip(n + 1),
        )) + names_in(b));
    } else {
        assert(whole[n] == SLASH);
        crate::text::lemma_run_len_is(whole, p, n);
        assert(whole.take(n) =~= a);
        assert(a.take(n) =~= a);
        assert(whole.skip(n + 1) =~= b);
    }
}

/// A name is its own only component.
proof fn lemma_name_alone(name: Seq<u8>)
    requires
        is_name(name),
    ensures
        names_in(name) == seq![name],
        path_lead(name) == Seq::<Seq<u8>>::empty(),
{
    assert forall|i: int| 0 <= i < name.len() implies other_than(SLASH)(#[trigger] name[i]) by {
        assert(name.contains(name[i]));
    }
    crate::text::lemma_run_len_is(name, other_than(SLASH), name.len() as int);
    assert(name.take(name.len() as int) =~= name);
    assert(name.contains(name[0]));
    if starts_with_dot(name) {
        if name.len() == 1 {
            assert(name =~= seq![DOT]);
        } else {
            assert(name.contains(name[1]));
        }
    }
}

/// The empty path has no component.
proof fn lemma_empty_path()
    ensures
        names_in(Seq::empty()) == Seq::<Seq<u8>>::empty(),
        path_components(Seq::empty()) == Seq::<Seq<u8>>::empty(),
{
    let e = Seq::<u8>::empty();
    assert(e.take(0) =~= e);
    assert(path_components(e) =~= Seq::empty());
}

/// Joining a name to a path adds it as the last component.
pub proof fn law_join_adds_a_component(base: Seq<u8>, name: Seq<u8>)
    requires
        is_name(name),
    ensures
        path_components(path_join(base, name, SLASH)) == path_components(base).push(name),
{
    lemma_name_alone(name);
    assert(name.contains(name[0]));
    if base.len() == 0 {
        lemma_empty_path();
        assert(base =~= Seq::empty());
        assert(path_join(base, name, SLASH) =~= name);
        assert(path_components(name) =~= seq![name]);
        assert(path_components(base).push(name) =~= seq![name]);
    } else {
        let whole = path_join(base, name, SLASH);
        let stem = if base.last() == SLASH {
            base.drop_last()
        } else {
            base
        };
        assert(whole =~= stem.push(SLASH) + name);
        lemma_names_around_slash(stem, name);
        if base.last() == SLASH {
            lemma_empty_path();
            lemma_names_around_slash(stem, Seq::empty());
            assert(stem.push(SLASH) + Seq::empty() =~= base);
            assert(names_in(stem) + Seq::empty() =~= names_in(stem));
        }
        assert(names_in(whole) == names_in(base) + seq![name]);
        assert(whole[0] == base[0]);
        if base.len() >= 2 {
            assert(whole[1] == base[1]);
        }
        assert(path_lead(whole) == path_lead(base));
        assert(path_components(whole) =~= path_components(base).push(name));
    }
}

/// Named components are names.
proof fn lemma_names_are_names(p: Seq<u8>)
    ensures
        forall|i: int| 0 <= i < names_in(p).len() ==> is_name(#[trigger] names_in(p)[i]),
    decreases p.len(),
{
    let n = run_len(p, other_than(SLASH)) as int;
    lemma_run_len(p, other_than(SLASH));
    let piece = p.take(n);
    assert(!piece.contains(SLASH)) by {
        if piece.contains(SLASH) {
            let k = piece.index_of(SLASH);
            assert(p[k] == SLASH);
            assert(other_than(SLASH)(p[k]));
        }
    }
    let name: Seq<Seq<u8>> = if piece.len() == 0 || piece == seq![DOT] {
        Seq::empty()
    } else {
        seq![piece]
    };
    if n < p.len() {
        let rest = names_in(p.skip(n + 1));
        lemma_names_are_names(p.skip(n + 1));
        assert(names_in(p) == name + rest);
        assert forall|i: int| 0 <= i < names_in(p).len() implies is_name(
            #[trigger] names_in(p)[i],
        ) by {
            if i >= name.len() {
                assert(names_in(p)[i] == rest[i - name.len()]);
            }
        }
    }
}

/// Whether `parts` can be the components of a path.
pub open spec fn are_components(parts: Seq<Seq<u8>>) -> bool {
    forall|i: int|
        0 <= i < parts.len() ==> is_name(#[trigger] parts[i]) || (i == 0 && (parts[i] == seq![SLASH]
            || parts[i] == seq![DOT]))
}

/// Components put together make a path with those components.
pub proof fn law_components_make_up_the_path(parts: Seq<Seq<u8>>)
    requires
        are_components(parts),
    ensures
        path_components(path_of(parts)) == parts,
    decreases parts.len(),
{
    if parts.len() == 0 {
        lemma_empty_path();
        assert(parts =~= Seq::empty());
    } else {
        let init = parts.drop_last();
        let last = parts.last();
        assert(parts[parts.len() - 1] == last);
        assert forall|i: int| 0 <= i < init.len() implies is_name(#[trigger] init[i]) || (i == 0
            && (init[i] == seq![SLASH] || init[i] == seq![DOT])) by {
            assert(init[i] == parts[i]);
        }
        law_components_make_up_the_path(init);
        if is_name(last) {
            law_join_adds_a_component(path_of(init), last);
            assert(init.push(last) =~= parts);
        } else {
            assert(init =~= Seq::empty());
            assert(path_of(parts) =~= last);
            lemma_empty_path();
            let p = other_than(SLASH);
            if last == seq![SLASH] {
                crate::text::lemma_run_len_is(last, p, 0);
                assert(last.take(0) =~= Seq::empty());
                assert(last.skip(1) =~= Seq::empty());
                assert(names_in(last) =~= Seq::empty());
            } else {
                crate::text::lemma_run_len_is(last, p, 1);
                assert(last.take(1) =~= last);
                assert(names_in(last) =~= Seq::empty());
            }
            assert(path_components(last) =~= parts);
        }
    }
}

/// The parent of a path has all of its components but the last.
pub proof fn law_parent_drops_the_last_component(p: Seq<u8>)
    ensures
        parent(p) matches Some(dir) ==> path_components(dir) == path_components(p).drop_last(),
{
    let parts = path_components(p);
    let lead = path_lead(p);
    if parent(p) is Some {
        let init = parts.drop_last();
        lemma_names_are_names(p);
        assert forall|i: int| 0 <= i < init.len() implies is_name(#[trigger] init[i]) || (i == 0
            && (init[i] == seq![SLASH] || init[i] == seq![DOT])) by {
            if i >= lead.len() {
                assert(init[i] == names_in(p)[i - lead.len()]);
            }
        }
        law_components_make_up_the_path(init);
    }
}

/// A relative path below a directory is the directory, a slash unless there is
/// one already or no directory, and the path; an absolute path is itself.
pub proof fn law_join_puts_one_slash_between<T>(base: Seq<T>, rel: Seq<T>, slash: T)
    ensures
        rel.len() > 0 && rel[0] == slash ==> path_join(base, rel, slash) == rel,
        (rel.len() == 0 || rel[0] != slash) ==> {
            let path = path_join(base, rel, slash);
            &&& base.is_prefix_of(path)
            &&& path.skip(path.len() - rel.len()) == rel
            &&& base.len() + rel.len() <= path.len() <= base.len() + rel.len() + 1
            &&& base.len() > 0 ==> path[path.len() - rel.len() - 1] == slash
            &&& base.len() == 0 || base.last() == slash <==> path == base + rel
        },
{
    if rel.len() == 0 || rel[0] != slash {
        let path = path_join(base, rel, slash);
        assert(path.take(base.len() as int) =~= base);
        assert(path.skip(path.len() - rel.len()) =~= rel);
        if base.len() == 0 || base.last() == slash {
            assert(path =~= base + rel);
        } else {
            assert(path.len() != (base + rel).len());
        }
    }
}

/// Components are the pieces between slashes, without empty ones and dots: a
/// name in front of a slash is one, a slash or a dot in front of one is not.
pub proof fn law_names_stand_between_slashes(name: Seq<u8>, rest: Seq<u8>)
    requires
        !name.contains(SLASH),
    ensures
        names_in(Seq::empty()).len() == 0,
        is_name(name) ==> names_in(name) == seq![name],
        is_name(name) ==> names_in(name.push(SLASH) + rest) == seq![name] + names_in(rest),
        !is_name(name) ==> names_in(name.push(SLASH) + rest) == names_in(rest),
{
    let p = other_than(SLASH);
    let n = name.len() as int;
    let whole = name.push(SLASH) + rest;
    lemma_empty_path();
    assert forall|i: int| 0 <= i < n implies p(#[trigger] whole[i]) by {
        assert(whole[i] == name[i]);
        assert(name.contains(name[i]));
    }
    assert(whole[n] == SLASH);
    crate::text::lemma_run_len_is(whole, p, n);
    assert(whole.take(n) =~= name);
    assert(whole.skip(n + 1) =~= rest);
    if is_name(name) {
        lemma_name_alone(name);
    } else {
        assert(names_in(whole) =~= names_in(rest));
    }
}

/// Whether a path starts at the root, or at the current directory spelled out,
/// is a component of its own, in front of the names.
pub proof fn law_components_are_the_start_and_the_names(p: Seq<u8>)
    ensures
        p.len() > 0 && p[0] == 47 ==> path_components(p) == seq![seq![47u8]] + names_in(p),
        p == seq![46u8] || (p.len() > 1 && p[0] == 46 && p[1] == 47) ==> path_components(p)
            == seq![seq![46u8]] + names_in(p),
        (p.len() == 0 || p[0] != 47) && (p.len() == 0 || p[0] != 46 || (p.len() > 1 && p[1] != 47))
            ==> path_components(p) == names_in(p),
        SLASH == 47,
        DOT == 46,
{
    assert(Seq::empty() + names_in(p) =~= names_in(p));
    if p.len() == 1 && p[0] == 46 {
        assert(p =~= seq![46u8]);
    }
}

/// Paths are the same if they have the same components, and one lies below
/// another if its components begin with those of the other.
pub proof fn law_paths_are_compared_by_component(a: Seq<u8>, b: Seq<u8>)
    ensures
        same_path(a, b) <==> path_components(a) == path_components(b),
        lies_below(a, b) <==> exists|rest: Seq<Seq<u8>>|
            path_components(a) == #[trigger] (path_components(b) + rest),
{
    let (x, y) = (path_components(a), path_components(b));
    if lies_below(a, b) {
        assert(x =~= y + x.skip(y.len() as int));
    }
    if exists|rest: Seq<Seq<u8>>| x == #[trigger] (y + rest) {
        let rest = choose|rest: Seq<Seq<u8>>| x == #[trigger] (y + rest);
        assert(x.take(y.len() as int) =~= y);
    }
}

/// The directories above a path are its parent and the directories above that.
pub proof fn law_directories_above_go_up(p: Seq<u8>)
    ensures
        match parent(p) {
            Some(dir) => dirs_above(path_components(p)) == seq![dir] + dirs_above(
                path_components(dir),
            ),
            None => dirs_above(path_components(p)).len() == 0,
        },
        parent(p) is None <==> path_components(p).len() == 0 || path_components(p).last()
            == seq![47u8],
{
    law_parent_drops_the_last_component(p);
}

/// What is missing are the first directories, up to the first that exists.
pub proof fn law_missing_directories_come_first(dirs: Seq<Seq<u8>>, exists: Seq<bool>)
    requires
        dirs.len() == exists.len(),
    ensures
        missing(dirs, exists).is_prefix_of(dirs),
        forall|i: int| 0 <= i < missing(dirs, exists).len() ==> !exists[i],
        missing(dirs, exists).len() < dirs.len() ==> exists[missing(dirs, exists).len() as int],
{
    let p = |e: bool| !e;
    lemma_run_len(exists, p);
    let n = run_len(exists, p) as int;
    assert(missing(dirs, exists) =~= dirs.take(n));
    assert forall|i: int| 0 <= i < n implies !exists[i] by {
        assert(p(exists[i]));
    }
    if n < exists.len() {
        assert(!p(exists[n]));
    }
}

/// The bytes of paths are theirs, each at its own place.
pub proof fn law_views_are_those_of_the_paths(list: Seq<Vec<u8>>, i: int)
    requires
        0 <= i < list.len(),
    ensures
        byte_views(list).len() == list.len(),
        byte_views(list)[i] == list[i]@,
{
}

} // verus!
