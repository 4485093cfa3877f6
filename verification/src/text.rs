//! Text as sequences of characters: the operations the rest of the library
//! states its contracts over, each with an executable counterpart.

use vstd::prelude::*;
use vstd::slice::slice_subrange;

verus! {

// ---------------------------------------------------------------------------
// Character classes

/// The Unicode `White_Space` property.
pub open spec fn is_white_space(c: char) -> bool {
    ||| '\u{9}' <= c <= '\u{d}'
    ||| c == ' '
    ||| c == '\u{85}'
    ||| c == '\u{a0}'
    ||| c == '\u{1680}'
    ||| '\u{2000}' <= c <= '\u{200a}'
    ||| c == '\u{2028}'
    ||| c == '\u{2029}'
    ||| c == '\u{202f}'
    ||| c == '\u{205f}'
    ||| c == '\u{3000}'
}

/// The Unicode `Cc` category: the C0 and C1 control codes and DEL.
pub open spec fn is_control(c: char) -> bool {
    c <= '\u{1f}' || '\u{7f}' <= c <= '\u{9f}'
}

/// Whether `c` is white space.
pub fn white_space(c: char) -> (yes: bool)
    ensures
        yes == is_white_space(c),
{
    ('\u{9}' <= c && c <= '\u{d}') || c == ' ' || c == '\u{85}' || c == '\u{a0}' || c
        == '\u{1680}' || ('\u{2000}' <= c && c <= '\u{200a}') || c == '\u{2028}' || c
        == '\u{2029}' || c == '\u{202f}' || c == '\u{205f}' || c == '\u{3000}'
}

/// Whether `c` is a control character.
pub fn control(c: char) -> (yes: bool)
    ensures
        yes == is_control(c),
{
    c <= '\u{1f}' || ('\u{7f}' <= c && c <= '\u{9f}')
}

/// `String::push` appends one character at the end of the string.
pub assume_specification[ String::push ](s: &mut String, c: char)
    ensures
        final(s)@ == old(s)@.push(c),
;

/// The characters of `s`.
pub fn to_chars(s: &str) -> (chars: Vec<char>)
    ensures
        chars@ == s@,
{
    let mut chars: Vec<char> = Vec::new();
    for c in it: s.chars()
        invariant
            chars@ == s@.take(it.index()),
            it.seq() == s@,
    {
        chars.push(c);
        proof {
            assert(s@.take(it.index() + 1) =~= s@.take(it.index()).push(c));
        }
    }
    assert(s@.take(s@.len() as int) =~= s@);
    chars
}

/// The string made of `chars`.
pub fn to_text(chars: &[char]) -> (s: String)
    ensures
        s@ == chars@,
{
    let mut s = String::new();
    let mut i: usize = 0;
    while i < chars.len()
        invariant
            i <= chars@.len(),
            s@ == chars@.take(i as int),
        decreases chars@.len() - i,
    {
        s.push(chars[i]);
        assert(chars@.take(i + 1) =~= chars@.take(i as int).push(chars@[i as int]));
        i = i + 1;
    }
    assert(chars@.take(chars@.len() as int) =~= chars@);
    s
}

// ---------------------------------------------------------------------------
// Runs of items

/// Length of the longest prefix of `s` whose items all satisfy `p`.
pub open spec fn run_len<T>(s: Seq<T>, p: spec_fn(T) -> bool) -> nat
    decreases s.len(),
{
    if s.len() == 0 || !p(s[0]) {
        0
    } else {
        1 + run_len(s.drop_first(), p)
    }
}

/// The run ends where `run_len` says: everything before satisfies `p`, the
/// item after, if any, does not.
pub proof fn lemma_run_len<T>(s: Seq<T>, p: spec_fn(T) -> bool)
    ensures
        run_len(s, p) <= s.len(),
        forall|i: int| 0 <= i < run_len(s, p) ==> p(#[trigger] s[i]),
        run_len(s, p) < s.len() ==> !p(s[run_len(s, p) as int]),
    decreases s.len(),
{
    if s.len() > 0 && p(s[0]) {
        let rest = s.drop_first();
        lemma_run_len(rest, p);
        assert forall|i: int| 0 <= i < run_len(s, p) implies p(#[trigger] s[i]) by {
            if i > 0 {
                assert(s[i] == rest[i - 1]);
            }
        }
        if run_len(s, p) < s.len() {
            assert(s[run_len(s, p) as int] == rest[run_len(rest, p) as int]);
        }
    }
}

/// A position that ends a run is where `run_len` ends.
pub proof fn lemma_run_len_is<T>(s: Seq<T>, p: spec_fn(T) -> bool, n: int)
    requires
        0 <= n <= s.len(),
        forall|i: int| 0 <= i < n ==> p(#[trigger] s[i]),
        n < s.len() ==> !p(s[n]),
    ensures
        run_len(s, p) == n,
{
    lemma_run_len(s, p);
    let m = run_len(s, p) as int;
    if m < n {
        assert(p(s[m]));
    } else if n < m {
        assert(p(s[n]));
    }
}

/// The predicate "is white space".
pub open spec fn white() -> spec_fn(char) -> bool {
    |c: char| is_white_space(c)
}

/// The predicate "is not white space".
pub open spec fn non_white() -> spec_fn(char) -> bool {
    |c: char| !is_white_space(c)
}

/// The predicate "is not `stop`".
pub open spec fn other_than<T>(stop: T) -> spec_fn(T) -> bool {
    |c: T| c != stop
}

/// The predicate "is `wanted`".
pub open spec fn equal_to<T>(wanted: T) -> spec_fn(T) -> bool {
    |c: T| c == wanted
}

/// Position of the first `c`, or the length when there is none.
pub fn position_of(s: &[char], c: char) -> (n: usize)
    ensures
        n == run_len(s@, other_than(c)),
        n <= s@.len(),
        n < s@.len() ==> s@[n as int] == c,
        forall|i: int| 0 <= i < n ==> s@[i] != c,
{
    let mut n: usize = 0;
    while n < s.len() && s[n] != c
        invariant
            n <= s@.len(),
            forall|i: int| 0 <= i < n ==> s@[i] != c,
        decreases s@.len() - n,
    {
        n = n + 1;
    }
    proof {
        lemma_run_len_is(s@, other_than(c), n as int);
    }
    n
}

/// Number of leading characters that are (`wanted`) or are not white space.
fn white_run(s: &[char], wanted: bool) -> (n: usize)
    ensures
        n <= s@.len(),
        wanted ==> n == run_len(s@, white()),
        !wanted ==> n == run_len(s@, non_white()),
{
    let mut n: usize = 0;
    while n < s.len() && white_space(s[n]) == wanted
        invariant
            n <= s@.len(),
            forall|i: int| 0 <= i < n ==> is_white_space(#[trigger] s@[i]) == wanted,
        decreases s@.len() - n,
    {
        n = n + 1;
    }
    proof {
        if wanted {
            lemma_run_len_is(s@, white(), n as int);
        } else {
            lemma_run_len_is(s@, non_white(), n as int);
        }
    }
    n
}

// ---------------------------------------------------------------------------
// Trimming

/// `s` without its leading white space.
pub open spec fn trim_start(s: Seq<char>) -> Seq<char> {
    s.skip(run_len(s, white()) as int)
}

/// `s` without its trailing white space.
pub open spec fn trim_end(s: Seq<char>) -> Seq<char>
    decreases s.len(),
{
    if s.len() > 0 && is_white_space(s.last()) {
        trim_end(s.drop_last())
    } else {
        s
    }
}

/// `s` without leading and trailing white space.
pub open spec fn trim(s: Seq<char>) -> Seq<char> {
    trim_end(trim_start(s))
}

/// `s` without the leading characters equal to `c`.
pub open spec fn trim_leading<T>(s: Seq<T>, c: T) -> Seq<T> {
    s.skip(run_len(s, equal_to(c)) as int)
}

/// Removes white space at both ends.
pub fn trimmed<'a>(s: &'a [char]) -> (r: &'a [char])
    ensures
        r@ == trim(s@),
{
    let from: usize = white_run(s, true);
    let t = slice_subrange(s, from, s.len());
    assert(t@ =~= trim_start(s@));
    let mut to: usize = t.len();
    assert(t@.take(to as int) =~= t@);
    while to > 0 && white_space(t[to - 1])
        invariant
            to <= t@.len(),
            trim_end(t@) == trim_end(t@.take(to as int)),
        decreases to,
    {
        assert(t@.take(to as int).drop_last() =~= t@.take(to - 1));
        assert(t@.take(to as int).last() == t@[to - 1]);
        to = to - 1;
    }
    proof {
        if to > 0 {
            assert(t@.take(to as int).last() == t@[to - 1]);
        }
        assert(t@.subrange(0, to as int) =~= t@.take(to as int));
    }
    slice_subrange(t, 0, to)
}

/// Removes every leading `c`.
pub fn without_leading<'a>(s: &'a [char], c: char) -> (r: &'a [char])
    ensures
        r@ == trim_leading(s@, c),
{
    let mut n: usize = 0;
    while n < s.len() && s[n] == c
        invariant
            n <= s@.len(),
            forall|i: int| 0 <= i < n ==> s@[i] == c,
        decreases s@.len() - n,
    {
        n = n + 1;
    }
    proof {
        lemma_run_len_is(s@, equal_to(c), n as int);
        assert(s@.subrange(n as int, s@.len() as int) =~= s@.skip(n as int));
    }
    slice_subrange(s, n, s.len())
}

// ---------------------------------------------------------------------------
// Splitting

/// The parts around the first `c`.
pub open spec fn split_once<T>(s: Seq<T>, c: T) -> Option<(Seq<T>, Seq<T>)> {
    let n = run_len(s, other_than(c)) as int;
    if n < s.len() {
        Some((s.take(n), s.skip(n + 1)))
    } else {
        None
    }
}

/// The text before the first `c`, or all of it when there is none.
pub open spec fn before<T>(s: Seq<T>, c: T) -> Seq<T> {
    s.take(run_len(s, other_than(c)) as int)
}

/// Position of the last `c`, or -1.
pub open spec fn last_position<T>(s: Seq<T>, c: T) -> int
    decreases s.len(),
{
    if s.len() == 0 {
        -1
    } else if s.last() == c {
        s.len() - 1
    } else {
        last_position(s.drop_last(), c)
    }
}

/// The parts around the last `c`.
pub open spec fn rsplit_once<T>(s: Seq<T>, c: T) -> Option<(Seq<T>, Seq<T>)> {
    let n = last_position(s, c);
    if n >= 0 {
        Some((s.take(n), s.skip(n + 1)))
    } else {
        None
    }
}

/// `last_position` names the last occurrence.
pub proof fn lemma_last_position<T>(s: Seq<T>, c: T)
    ensures
        -1 <= last_position(s, c) < s.len(),
        last_position(s, c) >= 0 ==> s[last_position(s, c)] == c,
        forall|i: int| last_position(s, c) < i < s.len() ==> s[i] != c,
    decreases s.len(),
{
    if s.len() > 0 && s.last() != c {
        lemma_last_position(s.drop_last(), c);
        assert forall|i: int| last_position(s, c) < i < s.len() implies s[i] != c by {
            if i < s.len() - 1 {
                assert(s[i] == s.drop_last()[i]);
            }
        }
    }
}

/// What follows the prefix `p`, if `s` has it.
pub open spec fn strip_prefix<T>(s: Seq<T>, p: Seq<T>) -> Option<Seq<T>> {
    if p.is_prefix_of(s) {
        Some(s.skip(p.len() as int))
    } else {
        None
    }
}

/// Position of the first occurrence of `p`.
pub open spec fn find<T>(s: Seq<T>, p: Seq<T>) -> Option<int>
    decreases s.len(),
{
    if p.is_prefix_of(s) {
        Some(0)
    } else if s.len() == 0 {
        None
    } else {
        match find(s.drop_first(), p) {
            Some(i) => Some(i + 1),
            None => None,
        }
    }
}

/// The parts around the first occurrence of `p`.
pub open spec fn split_once_at<T>(s: Seq<T>, p: Seq<T>) -> Option<(Seq<T>, Seq<T>)> {
    match find(s, p) {
        Some(i) => Some((s.take(i), s.skip(i + p.len()))),
        None => None,
    }
}

/// Splits around the first `c`.
pub fn split_at_first<'a>(s: &'a [char], c: char) -> (r: Option<(&'a [char], &'a [char])>)
    ensures
        match r {
            Some((a, b)) => split_once(s@, c) == Some((a@, b@)),
            None => split_once(s@, c) is None,
        },
{
    let n: usize = position_of(s, c);
    if n < s.len() {
        assert(s@.subrange(0, n as int) =~= s@.take(n as int));
        assert(s@.subrange(n + 1, s@.len() as int) =~= s@.skip(n + 1));
        Some((slice_subrange(s, 0, n), slice_subrange(s, n + 1, s.len())))
    } else {
        None
    }
}

/// The part before the first `c`.
pub fn before_first<'a>(s: &'a [char], c: char) -> (r: &'a [char])
    ensures
        r@ == before(s@, c),
{
    let n: usize = position_of(s, c);
    assert(s@.subrange(0, n as int) =~= s@.take(n as int));
    slice_subrange(s, 0, n)
}

/// Position of the last `c`.
pub fn last_position_of(s: &[char], c: char) -> (r: Option<usize>)
    ensures
        match r {
            Some(n) => n == last_position(s@, c) && n < s@.len(),
            None => last_position(s@, c) == -1,
        },
{
    let mut n: usize = s.len();
    assert(s@.take(n as int) =~= s@);
    while n > 0
        invariant
            n <= s@.len(),
            last_position(s@, c) == last_position(s@.take(n as int), c),
        decreases n,
    {
        let ghost head = s@.take(n as int);
        assert(head.last() == s@[n - 1]);
        if s[n - 1] == c {
            return Some(n - 1);
        }
        assert(head.drop_last() =~= s@.take(n - 1));
        n = n - 1;
    }
    None
}

/// Whether `s` starts with `p`.
pub fn starts_with(s: &[char], p: &[char]) -> (yes: bool)
    ensures
        yes == p@.is_prefix_of(s@),
{
    if s.len() < p.len() {
        return false;
    }
    let mut i: usize = 0;
    while i < p.len()
        invariant
            i <= p@.len() <= s@.len(),
            forall|k: int| 0 <= k < i ==> s@[k] == p@[k],
        decreases p@.len() - i,
    {
        if s[i] != p[i] {
            assert(s@.subrange(0, p@.len() as int)[i as int] != p@[i as int]);
            return false;
        }
        i = i + 1;
    }
    assert(p@ =~= s@.subrange(0, p@.len() as int));
    true
}

/// What follows the prefix `p`.
pub fn after_prefix<'a>(s: &'a [char], p: &[char]) -> (r: Option<&'a [char]>)
    ensures
        match r {
            Some(rest) => strip_prefix(s@, p@) == Some(rest@),
            None => strip_prefix(s@, p@) is None,
        },
{
    if starts_with(s, p) {
        assert(s@.subrange(p@.len() as int, s@.len() as int) =~= s@.skip(p@.len() as int));
        Some(slice_subrange(s, p.len(), s.len()))
    } else {
        None
    }
}

/// Position of the first occurrence of `p`.
pub fn position_of_text(s: &[char], p: &[char]) -> (r: Option<usize>)
    ensures
        match r {
            Some(i) => find(s@, p@) == Some(i as int) && i + p@.len() <= s@.len(),
            None => find(s@, p@) is None,
        },
{
    let mut i: usize = 0;
    assert(s@.skip(0) =~= s@);
    loop
        invariant
            i <= s@.len(),
            find(s@, p@) == match find(s@.skip(i as int), p@) {
                Some(k) => Some(k + i),
                None => None::<int>,
            },
        decreases s@.len() - i,
    {
        let rest = slice_subrange(s, i, s.len());
        assert(rest@ =~= s@.skip(i as int));
        if starts_with(rest, p) {
            return Some(i);
        }
        if i == s.len() {
            return None;
        }
        assert(s@.skip(i as int).drop_first() =~= s@.skip(i + 1));
        i = i + 1;
    }
}

/// Splits around the first occurrence of `p`.
pub fn split_at_text<'a>(s: &'a [char], p: &[char]) -> (r: Option<(&'a [char], &'a [char])>)
    ensures
        match r {
            Some((a, b)) => split_once_at(s@, p@) == Some((a@, b@)),
            None => split_once_at(s@, p@) is None,
        },
{
    match position_of_text(s, p) {
        Some(i) => {
            assert(s@.subrange(0, i as int) =~= s@.take(i as int));
            assert(s@.subrange(i + p@.len(), s@.len() as int) =~= s@.skip(i + p@.len()));
            let end: usize = s.len();
            let from: usize = i + p.len();
            Some((slice_subrange(s, 0, i), slice_subrange(s, from, end)))
        },
        None => None,
    }
}

/// The sequences behind a list of slices.
pub open spec fn views(parts: Seq<&[char]>) -> Seq<Seq<char>> {
    parts.map_values(|part: &[char]| part@)
}

/// The text of an optional string.
pub open spec fn text_of(o: Option<String>) -> Option<Seq<char>> {
    match o {
        Some(s) => Some(s@),
        None => None,
    }
}

/// The texts of a list of strings.
pub open spec fn texts(list: Seq<String>) -> Seq<Seq<char>> {
    list.map_values(|s: String| s@)
}

/// The maximal runs of characters that are not white space.
pub open spec fn fields(s: Seq<char>) -> Seq<Seq<char>>
    decreases s.len(),
{
    if s.len() == 0 {
        Seq::empty()
    } else if is_white_space(s[0]) {
        fields(s.drop_first())
    } else {
        let n = run_len(s, non_white()) as int;
        proof {
            lemma_run_len(s, non_white());
        }
        seq![s.take(n)] + fields(s.skip(n))
    }
}

/// Leading white space changes no field.
proof fn lemma_fields_skip_white(s: Seq<char>)
    ensures
        fields(trim_start(s)) == fields(s),
    decreases s.len(),
{
    if s.len() > 0 && is_white_space(s[0]) {
        let rest = s.drop_first();
        lemma_fields_skip_white(rest);
        lemma_run_len(rest, white());
        assert(trim_start(s) =~= trim_start(rest));
    } else {
        assert(trim_start(s) =~= s);
    }
}

/// Splits at white space.
pub fn split_fields<'a>(s: &'a [char]) -> (r: Vec<&'a [char]>)
    ensures
        views(r@) == fields(s@),
{
    let mut r: Vec<&'a [char]> = Vec::new();
    let mut i: usize = 0;
    assert(s@.skip(0) =~= s@);
    assert(views(r@) + fields(s@) =~= fields(s@));
    loop
        invariant
            i <= s@.len(),
            fields(s@) == views(r@) + fields(s@.skip(i as int)),
        decreases s@.len() - i,
    {
        let rest = slice_subrange(s, i, s.len());
        assert(rest@ =~= s@.skip(i as int));
        let gap: usize = white_run(rest, true);
        let word = slice_subrange(rest, gap, rest.len());
        proof {
            lemma_run_len(rest@, white());
            lemma_fields_skip_white(rest@);
            assert(word@ =~= trim_start(rest@));
            if word@.len() > 0 {
                assert(word@[0] == rest@[gap as int]);
            }
        }
        if word.len() == 0 {
            assert(views(r@) + fields(word@) =~= views(r@));
            return r;
        }
        let n: usize = white_run(word, false);
        proof {
            lemma_run_len(word@, non_white());
        }
        let found = slice_subrange(word, 0, n);
        let ghost r0 = r@;
        r.push(found);
        proof {
            assert(found@ =~= word@.take(n as int));
            assert(views(r@) =~= views(r0).push(found@));
            assert(word@.skip(n as int) =~= s@.skip(i + gap + n));
            assert(views(r0) + (seq![found@] + fields(word@.skip(n as int))) =~= views(r@)
                + fields(word@.skip(n as int)));
        }
        i = i + gap + n;
    }
}

/// `s` without a carriage return at its end.
pub open spec fn without_cr(s: Seq<char>) -> Seq<char> {
    if s.len() > 0 && s.last() == '\r' {
        s.drop_last()
    } else {
        s
    }
}

/// The lines of `s`: each ends with "\n" or "\r\n", which is not part of it;
/// the ending of the last line is optional.
pub open spec fn lines(s: Seq<char>) -> Seq<Seq<char>>
    decreases s.len(),
{
    if s.len() == 0 {
        Seq::empty()
    } else {
        let n = run_len(s, other_than('\n')) as int;
        if n < s.len() {
            proof {
                lemma_run_len(s, other_than('\n'));
            }
            seq![without_cr(s.take(n))] + lines(s.skip(n + 1))
        } else {
            seq![s]
        }
    }
}

/// Splits into lines.
pub fn split_lines<'a>(s: &'a [char]) -> (r: Vec<&'a [char]>)
    ensures
        views(r@) == lines(s@),
{
    let mut r: Vec<&'a [char]> = Vec::new();
    let mut i: usize = 0;
    assert(s@.skip(0) =~= s@);
    assert(views(r@) + lines(s@) =~= lines(s@));
    while i < s.len()
        invariant
            i <= s@.len(),
            lines(s@) == views(r@) + lines(s@.skip(i as int)),
        decreases s@.len() - i,
    {
        let rest = slice_subrange(s, i, s.len());
        assert(rest@ =~= s@.skip(i as int));
        let n: usize = position_of(rest, '\n');
        let ghost r0 = r@;
        if n == rest.len() {
            r.push(rest);
            assert(views(r@) =~= views(r0) + lines(rest@));
            return r;
        }
        let cut: usize = if n > 0 && rest[n - 1] == '\r' {
            n - 1
        } else {
            n
        };
        let line = slice_subrange(rest, 0, cut);
        r.push(line);
        proof {
            let whole = rest@.take(n as int);
            if n > 0 {
                assert(whole.last() == rest@[n - 1]);
            }
            assert(line@ =~= without_cr(whole));
            assert(rest@.skip(n + 1) =~= s@.skip(i + n + 1));
            assert(views(r@) =~= views(r0).push(line@));
            assert(views(r0) + (seq![line@] + lines(rest@.skip(n + 1))) =~= views(r@) + lines(
                rest@.skip(n + 1),
            ));
        }
        i = i + n + 1;
    }
    assert(views(r@) + lines(s@.skip(i as int)) =~= views(r@));
    r
}

/// White space at the end changes no field.
proof fn lemma_fields_end_white(s: Seq<char>, c: char)
    requires
        is_white_space(c),
    ensures
        fields(s.push(c)) == fields(s),
    decreases s.len(),
{
    let more = s.push(c);
    if s.len() == 0 {
        assert(more.drop_first() =~= s);
    } else if is_white_space(s[0]) {
        assert(more.drop_first() =~= s.drop_first().push(c));
        lemma_fields_end_white(s.drop_first(), c);
    } else {
        lemma_run_len(s, non_white());
        let n = run_len(s, non_white()) as int;
        assert forall|i: int| 0 <= i < n implies non_white()(#[trigger] more[i]) by {
            assert(more[i] == s[i]);
            assert(non_white()(s[i]));
        }
        assert(!non_white()(more[n]));
        lemma_run_len_is(more, non_white(), n);
        assert(n > 0);
        assert(more.take(n) =~= s.take(n));
        assert(more.skip(n) =~= s.skip(n).push(c));
        lemma_fields_end_white(s.skip(n), c);
    }
}

/// What follows the end of a line is cut into lines by itself.
pub proof fn lemma_lines_joined(a: Seq<char>, b: Seq<char>)
    ensures
        lines(a.push('\n') + b) == lines(a.push('\n')) + lines(b),
    decreases a.len(),
{
    let ended = a.push('\n');
    let whole = ended + b;
    let inside_line = other_than('\n');
    lemma_run_len(a, inside_line);
    let n = run_len(a, inside_line) as int;
    assert forall|i: int| 0 <= i < n implies inside_line(#[trigger] ended[i]) && inside_line(whole[i]) by {
        assert(ended[i] == a[i] && whole[i] == a[i]);
        assert(inside_line(a[i]));
    }
    assert(ended[n] == '\n' && whole[n] == '\n');
    lemma_run_len_is(ended, inside_line, n);
    lemma_run_len_is(whole, inside_line, n);
    assert(ended.take(n) =~= a.take(n));
    assert(whole.take(n) =~= a.take(n));
    if n < a.len() {
        let rest = a.skip(n + 1);
        assert(ended.skip(n + 1) =~= rest.push('\n'));
        assert(whole.skip(n + 1) =~= rest.push('\n') + b);
        lemma_lines_joined(rest, b);
        assert(lines(whole) =~= lines(ended) + lines(b));
    } else {
        assert(ended.skip(n + 1) =~= Seq::empty());
        assert(lines(ended.skip(n + 1)) =~= Seq::empty());
        assert(whole.skip(n + 1) =~= b);
        assert(lines(whole) =~= lines(ended) + lines(b));
    }
}

/// Whether `ended` are the lines `ls` with an end of line behind them: field by
/// field the same lines, or those and a blank one.
pub open spec fn are_ended(ls: Seq<Seq<char>>, ended: Seq<Seq<char>>) -> bool {
    &&& ls.len() <= ended.len() <= ls.len() + 1
    &&& forall|i: int| 0 <= i < ls.len() ==> fields(#[trigger] ended[i]) == fields(ls[i])
    &&& ended.len() > ls.len() ==> fields(ended.last()).len() == 0
}

/// An end of line behind a text changes no field of its lines.
pub proof fn lemma_lines_ended(a: Seq<char>)
    ensures
        are_ended(lines(a), lines(a.push('\n'))),
    decreases a.len(),
{
    let ended = a.push('\n');
    let inside_line = other_than('\n');
    lemma_run_len(a, inside_line);
    let n = run_len(a, inside_line) as int;
    assert forall|i: int| 0 <= i < n implies inside_line(#[trigger] ended[i]) by {
        assert(ended[i] == a[i]);
        assert(inside_line(a[i]));
    }
    lemma_run_len_is(ended, inside_line, n);
    assert(ended.take(n) =~= a.take(n));
    if n < a.len() {
        let rest = a.skip(n + 1);
        assert(ended.skip(n + 1) =~= rest.push('\n'));
        lemma_lines_ended(rest);
        let (ls, more) = (lines(a), lines(ended));
        assert(more.len() > ls.len() ==> more.last() == lines(rest.push('\n')).last());
        assert forall|i: int| 0 <= i < ls.len() implies fields(#[trigger] more[i]) == fields(
            ls[i],
        ) by {
            if i > 0 {
                assert(more[i] == lines(rest.push('\n'))[i - 1]);
                assert(ls[i] == lines(rest)[i - 1]);
            }
        }
    } else {
        assert(ended.skip(n + 1) =~= Seq::empty());
        assert(lines(ended.skip(n + 1)) =~= Seq::empty());
        assert(a.take(n) =~= a);
        assert(lines(ended) =~= seq![without_cr(a)]);
        if a.len() > 0 && a.last() == '\r' {
            lemma_fields_end_white(a.drop_last(), '\r');
            assert(a.drop_last().push('\r') =~= a);
        }
    }
}

// ---------------------------------------------------------------------------
// Comparing

/// Whether two character sequences are the same.
pub fn same_chars(a: &[char], b: &[char]) -> (yes: bool)
    ensures
        yes == (a@ == b@),
{
    if a.len() != b.len() {
        return false;
    }
    let mut i: usize = 0;
    while i < a.len()
        invariant
            i <= a@.len() == b@.len(),
            forall|k: int| 0 <= k < i ==> a@[k] == b@[k],
        decreases a@.len() - i,
    {
        if a[i] != b[i] {
            return false;
        }
        i = i + 1;
    }
    assert(a@ =~= b@);
    true
}

/// Whether `chars` spell `word`.
pub fn spells(chars: &[char], word: &str) -> (yes: bool)
    ensures
        yes == (chars@ == word@),
{
    let word = to_chars(word);
    same_chars(chars, word.as_slice())
}

/// Whether two strings are the same.
pub fn same_text(a: &str, b: &str) -> (yes: bool)
    ensures
        yes == (a@ == b@),
{
    let chars = to_chars(a);
    spells(chars.as_slice(), b)
}

/// Alphabetical order: the first difference decides, a proper prefix comes
/// first. Characters are ordered by code point.
pub open spec fn lex_less(a: Seq<char>, b: Seq<char>) -> bool
    decreases a.len(),
{
    if b.len() == 0 {
        false
    } else if a.len() == 0 {
        true
    } else if a[0] != b[0] {
        a[0] < b[0]
    } else {
        lex_less(a.drop_first(), b.drop_first())
    }
}

/// Whether `a` comes before `b`.
pub fn comes_before(a: &[char], b: &[char]) -> (yes: bool)
    ensures
        yes == lex_less(a@, b@),
{
    let mut i: usize = 0;
    assert(a@.skip(0) =~= a@);
    assert(b@.skip(0) =~= b@);
    while i < a.len() && i < b.len()
        invariant
            i <= a@.len(),
            i <= b@.len(),
            lex_less(a@, b@) == lex_less(a@.skip(i as int), b@.skip(i as int)),
        decreases a@.len() - i,
    {
        if a[i] != b[i] {
            return a[i] < b[i];
        }
        assert(a@.skip(i as int).drop_first() =~= a@.skip(i + 1));
        assert(b@.skip(i as int).drop_first() =~= b@.skip(i + 1));
        i = i + 1;
    }
    i < b.len()
}

/// Nothing comes before itself.
pub proof fn lemma_lex_irreflexive(a: Seq<char>)
    ensures
        !lex_less(a, a),
    decreases a.len(),
{
    if a.len() > 0 {
        lemma_lex_irreflexive(a.drop_first());
    }
}

/// The order is transitive.
pub proof fn lemma_lex_transitive(a: Seq<char>, b: Seq<char>, c: Seq<char>)
    requires
        lex_less(a, b),
        lex_less(b, c),
    ensures
        lex_less(a, c),
    decreases a.len(),
{
    if a.len() > 0 && a[0] == b[0] && b[0] == c[0] {
        lemma_lex_transitive(a.drop_first(), b.drop_first(), c.drop_first());
    }
}

/// Of two different texts one comes first.
pub proof fn lemma_lex_total(a: Seq<char>, b: Seq<char>)
    ensures
        a == b || lex_less(a, b) || lex_less(b, a),
    decreases a.len(),
{
    if a.len() == 0 {
        if b.len() == 0 {
            assert(a =~= b);
        }
    } else if b.len() > 0 && a[0] == b[0] {
        lemma_lex_total(a.drop_first(), b.drop_first());
        if a.drop_first() == b.drop_first() {
            assert(a =~= seq![a[0]] + a.drop_first());
            assert(b =~= seq![b[0]] + b.drop_first());
        }
    }
}

// ---------------------------------------------------------------------------
// Building

/// At most `max` leading characters.
pub open spec fn truncate(s: Seq<char>, max: nat) -> Seq<char> {
    if s.len() <= max {
        s
    } else {
        s.take(max as int)
    }
}

/// Cuts `s` to at most `max_chars` characters, never inside one.
pub fn truncate_str(s: &str, max_chars: usize) -> (r: String)
    ensures
        r@ == truncate(s@, max_chars as nat),
{
    let chars = to_chars(s);
    if chars.len() <= max_chars {
        to_text(chars.as_slice())
    } else {
        assert(chars@.subrange(0, max_chars as int) =~= s@.take(max_chars as int));
        to_text(slice_subrange(chars.as_slice(), 0, max_chars))
    }
}

/// `n` times the character `c`.
pub open spec fn repeat(c: char, n: nat) -> Seq<char> {
    Seq::new(n, |i: int| c)
}

/// The string made of `n` times `c`.
pub fn repeated(c: char, n: usize) -> (r: String)
    ensures
        r@ == repeat(c, n as nat),
{
    let mut r = String::new();
    let mut i: usize = 0;
    while i < n
        invariant
            i <= n,
            r@ == repeat(c, i as nat),
        decreases n - i,
    {
        r.push(c);
        assert(repeat(c, i as nat).push(c) =~= repeat(c, (i + 1) as nat));
        i = i + 1;
    }
    assert(r@ =~= repeat(c, n as nat));
    r
}

/// `s` in the middle of a field of `width` characters, filled with spaces;
/// an odd space goes to the right. A text that does not fit stays as it is.
pub open spec fn centered(s: Seq<char>, width: nat) -> Seq<char> {
    if width <= s.len() {
        s
    } else {
        let room = (width - s.len()) as nat;
        repeat(' ', room / 2) + s + repeat(' ', (room - room / 2) as nat)
    }
}

/// Centers `s` in `width` characters.
pub fn center(s: &str, width: usize) -> (r: String)
    ensures
        r@ == centered(s@, width as nat),
{
    let len: usize = char_count(s);
    if width <= len {
        return s.to_owned();
    }
    let room: usize = width - len;
    let mut r = repeated(' ', room / 2);
    r.append(s);
    r.append(repeated(' ', room - room / 2).as_str());
    r
}

/// Number of characters in `s`.
pub fn char_count(s: &str) -> (n: usize)
    ensures
        n == s@.len(),
{
    to_chars(s).len()
}

/// The items of `list` with `sep` between them.
pub open spec fn join(list: Seq<Seq<char>>, sep: Seq<char>) -> Seq<char>
    decreases list.len(),
{
    if list.len() == 0 {
        Seq::empty()
    } else if list.len() == 1 {
        list[0]
    } else {
        join(list.drop_last(), sep) + sep + list.last()
    }
}

/// Joins strings with a separator.
pub fn joined(list: &Vec<String>, sep: &str) -> (r: String)
    ensures
        r@ == join(texts(list@), sep@),
{
    let mut r = String::new();
    let mut i: usize = 0;
    let ghost all = texts(list@);
    while i < list.len()
        invariant
            i <= list@.len(),
            all == texts(list@),
            r@ == join(all.take(i as int), sep@),
        decreases list@.len() - i,
    {
        assert(all.take(i + 1).drop_last() =~= all.take(i as int));
        assert(all.take(i + 1).last() == list@[i as int]@);
        if i > 0 {
            r.append(sep);
        }
        r.append(list[i].as_str());
        proof {
            if i == 0 {
                assert(r@ =~= all.take(1)[0]);
            }
        }
        i = i + 1;
    }
    assert(all.take(i as int) =~= all);
    r
}

/// `s` with every `c` replaced by `by`.
pub open spec fn replace(s: Seq<char>, c: char, by: Seq<char>) -> Seq<char>
    decreases s.len(),
{
    if s.len() == 0 {
        Seq::empty()
    } else {
        replace(s.drop_last(), c, by) + if s.last() == c {
            by
        } else {
            seq![s.last()]
        }
    }
}

/// Replaces every `c` by the text `by`.
pub fn replaced(s: &str, c: char, by: &str) -> (r: String)
    ensures
        r@ == replace(s@, c, by@),
{
    let chars = to_chars(s);
    let mut r = String::new();
    let mut i: usize = 0;
    while i < chars.len()
        invariant
            i <= chars@.len(),
            r@ == replace(chars@.take(i as int), c, by@),
        decreases chars@.len() - i,
    {
        let ghost r0 = r@;
        assert(chars@.take(i + 1).drop_last() =~= chars@.take(i as int));
        assert(chars@.take(i + 1).last() == chars@[i as int]);
        if chars[i] == c {
            r.append(by);
        } else {
            r.push(chars[i]);
            assert(r@ =~= r0 + seq![chars@[i as int]]);
        }
        i = i + 1;
    }
    assert(chars@.take(i as int) =~= chars@);
    r
}

// ---------------------------------------------------------------------------
// Numbers

/// The decimal digit of value `d`.
pub open spec fn digit(d: int) -> char {
    (48 + d) as char
}

/// `n` in decimal, without leading zeros.
pub open spec fn decimal(n: nat) -> Seq<char>
    decreases n,
{
    if n < 10 {
        seq![digit(n as int)]
    } else {
        decimal(n / 10).push(digit((n % 10) as int))
    }
}

/// Writes `n` in decimal.
pub fn decimal_text(n: u64) -> (r: String)
    ensures
        r@ == decimal(n as nat),
    decreases n,
{
    let last: char = (48 + (n % 10) as u8) as char;
    if n < 10 {
        let mut r = String::new();
        r.push(last);
        assert(r@ =~= seq![last]);
        r
    } else {
        let mut r = decimal_text(n / 10);
        r.push(last);
        r
    }
}

/// Value of a decimal digit.
pub open spec fn digit_value(c: char) -> int {
    c as u32 - 48
}

/// Whether every character is a decimal digit.
pub open spec fn all_digits(s: Seq<char>) -> bool {
    forall|i: int| 0 <= i < s.len() ==> '0' <= #[trigger] s[i] <= '9'
}

/// The number that a sequence of decimal digits spells.
pub open spec fn decimal_value(s: Seq<char>) -> int
    decreases s.len(),
{
    if s.len() == 0 {
        0
    } else {
        decimal_value(s.drop_last()) * 10 + digit_value(s.last())
    }
}

// ---------------------------------------------------------------------------
// Laws

/// A list has as many texts as strings, each at its own place.
pub proof fn law_texts_are_those_of_the_strings(list: Seq<String>, i: int)
    requires
        0 <= i < list.len(),
    ensures
        texts(list).len() == list.len(),
        texts(list)[i] == list[i]@,
        text_of(Some(list[i])) == Some(list[i]@),
        text_of(None) is None,
{
}

/// Splitting at the first `c` leaves none of it before, and putting the parts
/// together with it gives the whole; what holds no `c` is not split.
pub proof fn law_split_is_at_the_first<T>(s: Seq<T>, c: T)
    ensures
        match split_once(s, c) {
            Some((a, b)) => s == a.push(c) + b && !a.contains(c),
            None => !s.contains(c),
        },
        !before(s, c).contains(c),
        before(s, c) == s || before(s, c).push(c).is_prefix_of(s),
{
    lemma_run_len(s, other_than(c));
    let n = run_len(s, other_than(c)) as int;
    assert forall|i: int| 0 <= i < n implies s[i] != c by {
        assert(other_than(c)(s[i]));
    }
    if n < s.len() {
        assert(s =~= s.take(n).push(c) + s.skip(n + 1));
        assert(before(s, c).push(c) =~= s.take(n + 1));
    } else {
        assert(before(s, c) =~= s);
    }
}

/// Splitting at the last `c` leaves none of it behind, and putting the parts
/// together with it gives the whole; what holds no `c` is not split.
pub proof fn law_split_is_at_the_last<T>(s: Seq<T>, c: T)
    ensures
        match rsplit_once(s, c) {
            Some((a, b)) => s == a.push(c) + b && !b.contains(c),
            None => !s.contains(c),
        },
{
    lemma_last_position(s, c);
    let n = last_position(s, c);
    if n >= 0 {
        assert(s =~= s.take(n).push(c) + s.skip(n + 1));
    }
}

/// Stripping a prefix undoes putting it in front, and nothing else can be
/// stripped.
pub proof fn law_stripping_undoes_prefixing<T>(s: Seq<T>, p: Seq<T>)
    ensures
        strip_prefix(p + s, p) == Some(s),
        match strip_prefix(s, p) {
            Some(rest) => s == p + rest,
            None => forall|rest: Seq<T>| s != #[trigger] (p + rest),
        },
{
    assert((p + s).take(p.len() as int) =~= p);
    assert((p + s).skip(p.len() as int) =~= s);
    match strip_prefix(s, p) {
        Some(rest) => {
            assert(s =~= p + rest);
        },
        None => {
            assert forall|rest: Seq<T>| s != #[trigger] (p + rest) by {
                if s == p + rest {
                    assert(s.take(p.len() as int) =~= p);
                }
            }
        },
    }
}

/// Whether `p` stands in `s` at `at`.
pub open spec fn occurs_at<T>(s: Seq<T>, p: Seq<T>, at: int) -> bool {
    0 <= at && at + p.len() <= s.len() && s.subrange(at, at + p.len()) == p
}

/// A text is found where it first occurs, and is not found only where it does
/// not occur at all.
pub proof fn law_the_first_occurrence_is_found<T>(s: Seq<T>, p: Seq<T>)
    ensures
        match find(s, p) {
            Some(i) => occurs_at(s, p, i) && forall|j: int| 0 <= j < i ==> !occurs_at(s, p, j),
            None => forall|j: int| !occurs_at(s, p, j),
        },
    decreases s.len(),
{
    if p.is_prefix_of(s) {
        assert(s.subrange(0, p.len() as int) =~= s.take(p.len() as int));
    } else {
        if occurs_at(s, p, 0) {
            assert(s.take(p.len() as int) =~= s.subrange(0, p.len() as int));
        }
        if s.len() > 0 {
            let rest = s.drop_first();
            law_the_first_occurrence_is_found(rest, p);
            assert forall|j: int| j > 0 implies occurs_at(s, p, j) == #[trigger] occurs_at(
                rest,
                p,
                j - 1,
            ) by {
                if j + p.len() <= s.len() {
                    assert(s.subrange(j, j + p.len()) =~= rest.subrange(j - 1, j - 1 + p.len()));
                }
            }
            assert forall|j: int| j > 0 implies #[trigger] occurs_at(s, p, j) == occurs_at(
                rest,
                p,
                j - 1,
            ) by {
                assert(occurs_at(rest, p, j - 1) == occurs_at(s, p, j));
            }
        }
    }
}

/// Splitting at a text splits at its first occurrence.
pub proof fn law_split_is_at_the_first_text<T>(s: Seq<T>, p: Seq<T>)
    ensures
        match split_once_at(s, p) {
            Some((a, b)) => s == a + p + b && forall|j: int|
                0 <= j < a.len() ==> !occurs_at(s, p, j),
            None => forall|j: int| !occurs_at(s, p, j),
        },
{
    law_the_first_occurrence_is_found(s, p);
    if let Some(i) = find(s, p) {
        assert(s =~= s.take(i) + s.subrange(i, i + p.len()) + s.skip(i + p.len()));
    }
}

/// Whether there is nothing but white space in `s`.
pub open spec fn is_all_white(s: Seq<char>) -> bool {
    forall|i: int| 0 <= i < s.len() ==> is_white_space(#[trigger] s[i])
}

proof fn lemma_trim_end(s: Seq<char>)
    ensures
        trim_end(s).len() <= s.len(),
        trim_end(s) == s.take(trim_end(s).len() as int),
        is_all_white(s.skip(trim_end(s).len() as int)),
        trim_end(s).len() > 0 ==> !is_white_space(trim_end(s).last()),
    decreases s.len(),
{
    if s.len() > 0 && is_white_space(s.last()) {
        let init = s.drop_last();
        lemma_trim_end(init);
        let n = trim_end(init).len() as int;
        assert(s.take(n) =~= init.take(n));
        assert forall|i: int| 0 <= i < s.skip(n).len() implies is_white_space(
            #[trigger] s.skip(n)[i],
        ) by {
            if i + n < init.len() {
                assert(init.skip(n)[i] == s.skip(n)[i]);
            }
        }
    } else {
        assert(s.take(s.len() as int) =~= s);
    }
}

/// Trimming takes away nothing but white space, and all of it at both ends.
pub proof fn law_trim_takes_the_white_space_around(s: Seq<char>)
    ensures
        exists|lead: Seq<char>, tail: Seq<char>|
            s == #[trigger] (lead + trim(s) + tail) && is_all_white(lead) && is_all_white(tail),
        trim(s).len() > 0 ==> !is_white_space(trim(s)[0]) && !is_white_space(trim(s).last()),
{
    lemma_run_len(s, white());
    let n = run_len(s, white()) as int;
    let started = trim_start(s);
    lemma_trim_end(started);
    let m = trim(s).len() as int;
    let (lead, tail) = (s.take(n), started.skip(m));
    assert(s =~= lead + trim(s) + tail);
    assert forall|i: int| 0 <= i < lead.len() implies is_white_space(#[trigger] lead[i]) by {
        assert(white()(s[i]));
    }
    if m > 0 {
        assert(trim(s)[0] == s[n]);
        assert(!white()(s[n]));
    }
}

/// What is left without the leading `c` does not start with one, and only `c`
/// has been taken away.
pub proof fn law_leading_are_all_taken<T>(s: Seq<T>, c: T)
    ensures
        trim_leading(s, c).len() <= s.len(),
        trim_leading(s, c) == s.skip(s.len() - trim_leading(s, c).len()),
        forall|i: int| 0 <= i < s.len() - trim_leading(s, c).len() ==> s[i] == c,
        trim_leading(s, c).len() > 0 ==> trim_leading(s, c)[0] != c,
{
    lemma_run_len(s, equal_to(c));
    let n = run_len(s, equal_to(c)) as int;
    assert forall|i: int| 0 <= i < n implies s[i] == c by {
        assert(equal_to(c)(s[i]));
    }
    if n < s.len() {
        assert(!equal_to(c)(s[n]));
        assert(trim_leading(s, c)[0] == s[n]);
    }
}

/// Fields are what stands between white space: `word` is a text without any,
/// `gap` a character of it.
pub proof fn law_fields_stand_between_white_space(word: Seq<char>, gap: char, rest: Seq<char>)
    requires
        is_white_space(gap),
        forall|i: int| 0 <= i < word.len() ==> !is_white_space(#[trigger] word[i]),
    ensures
        fields(seq![gap] + rest) == fields(rest),
        fields(Seq::empty()).len() == 0,
        word.len() > 0 ==> fields(word) == seq![word],
        word.len() > 0 ==> fields(word + seq![gap] + rest) == seq![word] + fields(rest),
{
    assert((seq![gap] + rest).drop_first() =~= rest);
    if word.len() > 0 {
        let whole = word + seq![gap] + rest;
        let n = word.len() as int;
        assert forall|i: int| 0 <= i < n implies non_white()(#[trigger] word[i]) && non_white()(
            whole[i],
        ) by {
            assert(whole[i] == word[i]);
        }
        lemma_run_len_is(word, non_white(), n);
        assert(whole[n] == gap);
        lemma_run_len_is(whole, non_white(), n);
        assert(word.take(n) =~= word);
        assert(whole.take(n) =~= word);
        assert(word.skip(n) =~= Seq::empty());
        assert(fields(word.skip(n)).len() == 0);
        assert(fields(word) =~= seq![word]);
        assert(whole.skip(n) =~= seq![gap] + rest);
        assert(fields(whole.skip(n)) == fields(rest));
    }
}

/// Lines end with "\n" or "\r\n", the last one maybe with nothing: `line` is a
/// text without a line end.
pub proof fn law_lines_end_with_newlines(line: Seq<char>, rest: Seq<char>)
    requires
        !line.contains('\n'),
    ensures
        lines(Seq::empty()).len() == 0,
        line.len() > 0 ==> lines(line) == seq![line],
        line.len() == 0 || line.last() != '\r' ==> lines(line + seq!['\n'] + rest) == seq![line]
            + lines(rest),
        lines(line + seq!['\r', '\n'] + rest) == seq![line] + lines(rest),
{
    let stop = other_than('\n');
    assert forall|i: int| 0 <= i < line.len() implies stop(#[trigger] line[i]) by {
        assert(line.contains(line[i]));
    }
    let n = line.len() as int;
    lemma_run_len_is(line, stop, n);
    let whole = line + seq!['\n'] + rest;
    assert forall|i: int| 0 <= i < n implies stop(#[trigger] whole[i]) by {
        assert(stop(line[i]));
    }
    assert(whole[n] == '\n');
    lemma_run_len_is(whole, stop, n);
    assert(whole.take(n) =~= line);
    assert(whole.skip(n + 1) =~= rest);
    let other = line + seq!['\r', '\n'] + rest;
    assert forall|i: int| 0 <= i < n + 1 implies stop(#[trigger] other[i]) by {
        if i < n {
            assert(stop(line[i]));
        }
    }
    assert(other[n + 1] == '\n');
    lemma_run_len_is(other, stop, n + 1);
    assert(other.take(n + 1) =~= line.push('\r'));
    assert(line.push('\r').drop_last() =~= line);
    assert(other.skip(n + 2) =~= rest);
}

/// A text comes before another if it has the smaller character at the first
/// place where they differ, or if it is what the other begins with.
pub proof fn law_order_is_that_of_a_dictionary(a: Seq<char>, b: Seq<char>)
    ensures
        lex_less(a, b) <==> exists|k: int|
            0 <= k <= a.len() && k < b.len() && #[trigger] a.take(k) == b.take(k) && (k == a.len()
                || a[k] < b[k]),
    decreases a.len(),
{
    if b.len() > 0 && a.len() > 0 && a[0] == b[0] {
        let (x, y) = (a.drop_first(), b.drop_first());
        law_order_is_that_of_a_dictionary(x, y);
        if lex_less(x, y) {
            let k = choose|k: int|
                0 <= k <= x.len() && k < y.len() && #[trigger] x.take(k) == y.take(k) && (k
                    == x.len() || x[k] < y[k]);
            assert(a.take(k + 1) =~= seq![a[0]] + x.take(k));
            assert(b.take(k + 1) =~= seq![b[0]] + y.take(k));
        }
        if exists|k: int|
            0 <= k <= a.len() && k < b.len() && #[trigger] a.take(k) == b.take(k) && (k == a.len()
                || a[k] < b[k]) {
            let k = choose|k: int|
                0 <= k <= a.len() && k < b.len() && #[trigger] a.take(k) == b.take(k) && (k
                    == a.len() || a[k] < b[k]);
            assert(x.take(k - 1) =~= a.take(k).skip(1));
            assert(y.take(k - 1) =~= b.take(k).skip(1));
        }
    } else {
        assert(a.take(0) =~= b.take(0));
        assert forall|k: int|
            0 < k <= a.len() && k < b.len() && a[0] != b[0] implies #[trigger] a.take(k)
            != b.take(k) by {
            assert(a.take(k)[0] == a[0] && b.take(k)[0] == b[0]);
        }
    }
}

/// What is cut off fits, begins like the whole, and is the whole where that
/// fits.
pub proof fn law_truncation_fits(s: Seq<char>, max: nat)
    ensures
        truncate(s, max).len() <= max,
        truncate(s, max).is_prefix_of(s),
        truncate(s, max).len() == max || truncate(s, max) == s,
{
    assert(s.take(s.len() as int) =~= s);
    assert(truncate(s, max) =~= s.take(truncate(s, max).len() as int));
}

/// A centered text has the width asked for, with the text in its middle and
/// blanks around it, one more behind where they cannot be equal.
pub proof fn law_centered_text_is_in_the_middle(s: Seq<char>, width: nat)
    requires
        s.len() < width,
    ensures
        centered(s, width).len() == width,
        exists|left: int|
            0 <= left && #[trigger] centered(s, width).subrange(left, left + s.len()) == s && 2
                * left <= width - s.len() <= 2 * left + 1 && forall|i: int|
                0 <= i < width && !(left <= i < left + s.len()) ==> centered(s, width)[i] == ' ',
{
    let left = ((width - s.len()) as nat / 2) as int;
    assert(centered(s, width).subrange(left, left + s.len()) =~= s);
}

/// A repeated character fills a text.
pub proof fn law_repetition_fills(c: char, n: nat, i: int)
    ensures
        repeat(c, n).len() == n,
        0 <= i < n ==> repeat(c, n)[i] == c,
{
}

/// Joined lists are joined with the separator between them, and a single text
/// is itself.
pub proof fn law_joining_puts_separators_between(
    a: Seq<Seq<char>>,
    b: Seq<Seq<char>>,
    sep: Seq<char>,
    one: Seq<char>,
)
    ensures
        join(Seq::empty(), sep).len() == 0,
        join(seq![one], sep) == one,
        a.len() > 0 && b.len() > 0 ==> join(a + b, sep) == join(a, sep) + sep + join(b, sep),
    decreases b.len(),
{
    if a.len() > 0 && b.len() > 0 {
        let whole = a + b;
        assert(whole.last() == b.last());
        if b.len() == 1 {
            assert(whole.drop_last() =~= a);
        } else {
            let init = b.drop_last();
            assert(whole.drop_last() =~= a + init);
            law_joining_puts_separators_between(a, init, sep, one);
            assert(join(whole, sep) =~= join(a, sep) + sep + join(b, sep));
        }
    }
}

/// Replacing goes character by character: each `c` becomes `by`, any other
/// stays.
pub proof fn law_replacing_goes_by_character(
    s: Seq<char>,
    t: Seq<char>,
    x: char,
    c: char,
    by: Seq<char>,
)
    ensures
        replace(Seq::empty(), c, by).len() == 0,
        replace(seq![c], c, by) == by,
        x != c ==> replace(seq![x], c, by) == seq![x],
        replace(s + t, c, by) == replace(s, c, by) + replace(t, c, by),
    decreases t.len(),
{
    reveal_with_fuel(replace, 2);
    assert(seq![c].drop_last() =~= Seq::empty());
    assert(seq![x].drop_last() =~= Seq::empty());
    assert(replace(Seq::empty(), c, by) + by =~= by);
    assert(replace(Seq::empty(), c, by) + seq![x] =~= seq![x]);
    if t.len() == 0 {
        assert(s + t =~= s);
        assert(replace(s, c, by) + replace(t, c, by) =~= replace(s, c, by));
    } else {
        let init = t.drop_last();
        assert((s + t).drop_last() =~= s + init);
        assert((s + t).last() == t.last());
        law_replacing_goes_by_character(s, init, x, c, by);
        assert(replace(s + t, c, by) =~= replace(s, c, by) + replace(t, c, by));
    }
}

/// A number is written with decimal digits that spell it, the first of them no
/// zero unless it is the only one.
pub proof fn law_decimal_digits_spell_the_number(n: nat)
    ensures
        decimal(n).len() > 0,
        forall|i: int| 0 <= i < decimal(n).len() ==> '0' <= #[trigger] decimal(n)[i] <= '9',
        n > 0 ==> decimal(n)[0] != '0',
        n == 0 ==> decimal(n) == seq!['0'],
        decimal_value(decimal(n)) == n,
    decreases n,
{
    let s = decimal(n);
    let d = n % 10;
    reveal_with_fuel(decimal_value, 2);
    assert(digit_value(digit(d as int)) == d);
    if n >= 10 {
        law_decimal_digits_spell_the_number(n / 10);
        assert(s.drop_last() =~= decimal(n / 10));
        assert(s.last() == digit(d as int));
        assert(s[0] == decimal(n / 10)[0]);
        assert forall|i: int| 0 <= i < s.len() implies '0' <= #[trigger] s[i] <= '9' by {
            if i < s.len() - 1 {
                assert(s[i] == decimal(n / 10)[i]);
            }
        }
    } else {
        assert(s.drop_last() =~= Seq::empty());
    }
}

/// Another digit makes ten times the number and the digit.
pub proof fn law_digits_are_worth_their_place(s: Seq<char>, d: int)
    requires
        0 <= d <= 9,
    ensures
        decimal_value(Seq::empty()) == 0,
        decimal_value(s.push((d + 48) as char)) == 10 * decimal_value(s) + d,
{
    assert(s.push((d + 48) as char).drop_last() =~= s);
}

/// The texts of slices are theirs, each at its own place.
pub proof fn law_views_are_those_of_the_slices(parts: Seq<&[char]>, i: int)
    requires
        0 <= i < parts.len(),
    ensures
        views(parts).len() == parts.len(),
        views(parts)[i] == parts[i]@,
{
}

/// Characters are white space, control characters or digits by their code
/// points. Below 128, space, tab and line ends are white space; DEL and what
/// is below the space are control characters.
pub proof fn law_characters_are_told_by_their_codes(c: char)
    ensures
        (c as int) < 128 ==> (is_white_space(c) <==> c as int == 32 || 9 <= c as int <= 13),
        (c as int) >= 128 ==> (is_white_space(c) <==> c as int == 133 || c as int == 160
            || c as int == 5760 || 8192 <= c as int <= 8202 || c as int == 8232 || c as int == 8233
            || c as int == 8239 || c as int == 8287 || c as int == 12288),
        is_control(c) <==> (c as int) < 32 || 127 <= c as int <= 159,
        all_digits(seq![c]) <==> 48 <= c as int <= 57,
{
    assert(seq![c][0] == c);
}

/// Two texts put together are digits exactly if both are; the empty one is.
pub proof fn law_digits_joined_are_digits(a: Seq<char>, b: Seq<char>)
    ensures
        all_digits(Seq::<char>::empty()),
        all_digits(a + b) <==> all_digits(a) && all_digits(b),
{
    let whole = a + b;
    assert forall|i: int| 0 <= i < a.len() implies #[trigger] a[i] == whole[i] by {}
    assert forall|i: int| 0 <= i < b.len() implies #[trigger] b[i] == whole[a.len() + i] by {}
}

} // verus!
