//! What commands print: decoding, cleaning, the live log of a btrbk run, and
//! the line that says why a command failed.

use crate::text::{
    control, is_control, is_white_space, lemma_run_len, lemma_run_len_is, lines, run_len,
    split_lines, texts, to_chars, to_text, trim, trim_end, trim_start, trimmed, views, white,
};
use vstd::prelude::*;
use vstd::utf8::{
    decode_utf8, decode_utf8_encode_utf8, decode_utf8_split, encode_scalar, encode_utf8,
    encode_utf8_decode_utf8, is_ascii_chars, is_ascii_chars_encode_utf8, is_char_boundary,
    is_char_boundary_iff_not_is_continuation_byte, pop_first_scalar, valid_utf8, valid_utf8_split,
};

verus! {

// ---------------------------------------------------------------------------
// Decoding

/// The text that `String::from_utf8_lossy` makes of `bytes`.
pub uninterp spec fn lossy_text(bytes: Seq<u8>) -> Seq<char>;

/// `String::from_utf8_lossy`: the text depends on the bytes alone, and valid
/// UTF-8 is decoded as it stands. How invalid sequences are replaced is not
/// said.
#[verifier::external_body]
pub(crate) fn from_utf8_lossy(bytes: &[u8]) -> (text: String)
    ensures
        text@ == lossy_text(bytes@),
        valid_utf8(bytes@) ==> text@ == decode_utf8(bytes@),
{
    String::from_utf8_lossy(bytes).into_owned()
}

// ---------------------------------------------------------------------------
// Cleaning

/// Whether `c` ends an ANSI escape sequence.
pub open spec fn is_final(c: char) -> bool {
    'a' <= c <= 'z' || 'A' <= c <= 'Z' || c == '~'
}

/// The predicate "does not end an ANSI escape sequence".
pub open spec fn inside_sequence() -> spec_fn(char) -> bool {
    |c: char| !is_final(c)
}

/// What follows the escape sequence whose parameters start `s`.
pub open spec fn after_sequence(s: Seq<char>) -> Seq<char> {
    let n = run_len(s, inside_sequence()) as int;
    if n < s.len() {
        s.skip(n + 1)
    } else {
        Seq::empty()
    }
}

/// `s` without ANSI escape sequences and control characters, each tab turned
/// into a space.
pub open spec fn clean(s: Seq<char>) -> Seq<char>
    decreases s.len(),
{
    if s.len() == 0 {
        Seq::empty()
    } else if s[0] == '\x1b' && s.len() >= 2 && s[1] == '[' {
        proof {
            lemma_run_len(s.skip(2), inside_sequence());
        }
        clean(after_sequence(s.skip(2)))
    } else if s[0] == '\t' {
        seq![' '] + clean(s.drop_first())
    } else if is_control(s[0]) {
        clean(s.drop_first())
    } else {
        seq![s[0]] + clean(s.drop_first())
    }
}

/// Strips ANSI escape sequences and control characters from a line of output.
pub fn clean_output_line(line: &str) -> (cleaned: String)
    ensures
        cleaned@ == clean(line@),
{
    let chars = to_chars(line);
    let mut cleaned = String::new();
    let mut i: usize = 0;
    assert(chars@.skip(0) =~= chars@);
    assert(cleaned@ + clean(chars@) =~= clean(chars@));
    while i < chars.len()
        invariant
            i <= chars@.len(),
            clean(chars@) == cleaned@ + clean(chars@.skip(i as int)),
        decreases chars@.len() - i,
    {
        let ghost rest = chars@.skip(i as int);
        let ghost done = cleaned@;
        let c: char = chars[i];
        assert(rest[0] == c);
        assert(rest.drop_first() =~= chars@.skip(i + 1));
        if c == '\x1b' && i + 1 < chars.len() && chars[i + 1] == '[' {
            let ghost body = rest.skip(2);
            assert(body =~= chars@.skip(i + 2));
            let start: usize = i + 2;
            let mut j: usize = start;
            while j < chars.len() && !(('a' <= chars[j] && chars[j] <= 'z') || ('A' <= chars[j]
                && chars[j] <= 'Z') || chars[j] == '~')
                invariant
                    start <= j <= chars@.len(),
                    start <= chars@.len(),
                    body == chars@.skip(start as int),
                    forall|k: int| 0 <= k < j - start ==> !is_final(#[trigger] body[k]),
                decreases chars@.len() - j,
            {
                assert(body[j - start] == chars@[j as int]);
                j = j + 1;
            }
            proof {
                if j < chars@.len() {
                    assert(body[j - start] == chars@[j as int]);
                }
                lemma_run_len_is(body, inside_sequence(), j - start);
                if j < chars@.len() {
                    assert(after_sequence(body) =~= chars@.skip(j + 1));
                } else {
                    assert(after_sequence(body) =~= chars@.skip(j as int));
                }
            }
            i = if j < chars.len() {
                j + 1
            } else {
                j
            };
        } else {
            if c == '\t' {
                cleaned.push(' ');
                assert(done + (seq![' '] + clean(rest.drop_first())) =~= cleaned@ + clean(
                    rest.drop_first(),
                ));
            } else if !control(c) {
                cleaned.push(c);
                assert(done + (seq![c] + clean(rest.drop_first())) =~= cleaned@ + clean(
                    rest.drop_first(),
                ));
            }
            i = i + 1;
        }
    }
    assert(cleaned@ + clean(chars@.skip(i as int)) =~= cleaned@);
    cleaned
}

/// Whether `s` holds no control character.
pub open spec fn is_plain(s: Seq<char>) -> bool {
    forall|i: int| 0 <= i < s.len() ==> !is_control(#[trigger] s[i])
}

/// Cleaned text holds no control character, and so no escape sequence.
pub proof fn law_clean_text_is_plain(s: Seq<char>)
    ensures
        is_plain(clean(s)),
    decreases s.len(),
{
    if s.len() > 0 {
        if s[0] == '\x1b' && s.len() >= 2 && s[1] == '[' {
            lemma_run_len(s.skip(2), inside_sequence());
            law_clean_text_is_plain(after_sequence(s.skip(2)));
        } else {
            law_clean_text_is_plain(s.drop_first());
        }
    }
}

/// Text without control characters comes through cleaning unchanged.
pub proof fn law_clean_keeps_plain_text(s: Seq<char>)
    requires
        is_plain(s),
    ensures
        clean(s) == s,
    decreases s.len(),
{
    if s.len() > 0 {
        let rest = s.drop_first();
        assert(!is_control(s[0]));
        assert forall|i: int| 0 <= i < rest.len() implies !is_control(#[trigger] rest[i]) by {
            assert(rest[i] == s[i + 1]);
        }
        law_clean_keeps_plain_text(rest);
        assert(seq![s[0]] + rest =~= s);
    }
}

/// Cleaning twice is cleaning once.
pub proof fn law_clean_is_idempotent(s: Seq<char>)
    ensures
        clean(clean(s)) == clean(s),
{
    law_clean_text_is_plain(s);
    law_clean_keeps_plain_text(clean(s));
}

// ---------------------------------------------------------------------------
// The log of a btrbk run

/// Lines of btrbk output kept in memory while snapshots are created.
pub const MAX_OUTPUT_LINES: usize = 1000;

/// btrbk output as shown on screen. Progress meters rewrite their line with
/// '\r': such a line is transient and the next one takes its place.
#[derive(Debug)]
pub struct OutputLog {
    pub lines: Vec<String>,
    pub last_is_transient: bool,
}

/// A log as texts.
pub struct OutputLogView {
    pub lines: Seq<Seq<char>>,
    pub last_is_transient: bool,
}

impl View for OutputLog {
    type V = OutputLogView;

    open spec fn view(&self) -> OutputLogView {
        OutputLogView { lines: texts(self.lines@), last_is_transient: self.last_is_transient }
    }
}

/// Whether a line shows nothing.
pub open spec fn is_blank(s: Seq<char>) -> bool {
    trim(s).len() == 0
}

impl OutputLogView {
    /// The log before any output.
    pub open spec fn empty() -> OutputLogView {
        OutputLogView { lines: Seq::empty(), last_is_transient: false }
    }

    /// The log after one more line: a blank one is not shown, but when it
    /// ended with a newline it makes the line before it permanent; any other
    /// takes the place of a transient one. The oldest line leaves a full log.
    pub open spec fn push(self, text: Seq<char>, transient: bool) -> OutputLogView {
        let cleaned = clean(text);
        if is_blank(cleaned) {
            OutputLogView { last_is_transient: self.last_is_transient && transient, ..self }
        } else {
            let kept = if self.last_is_transient && self.lines.len() > 0 {
                self.lines.drop_last()
            } else {
                self.lines
            };
            let all = kept.push(cleaned);
            OutputLogView {
                lines: if all.len() > MAX_OUTPUT_LINES {
                    all.drop_first()
                } else {
                    all
                },
                last_is_transient: transient,
            }
        }
    }

    /// What every log satisfies: it is bounded, its lines are clean and show
    /// something, and only an existing line is transient.
    pub open spec fn well_formed(self) -> bool {
        &&& self.lines.len() <= MAX_OUTPUT_LINES
        &&& self.last_is_transient ==> self.lines.len() > 0
        &&& forall|i: int|
            0 <= i < self.lines.len() ==> is_plain(#[trigger] self.lines[i]) && !is_blank(
                self.lines[i],
            )
    }
}

impl Default for OutputLog {
    fn default() -> (log: Self)
        ensures
            log@ == OutputLogView::empty(),
    {
        let log = OutputLog { lines: Vec::new(), last_is_transient: false };
        assert(log@.lines =~= Seq::empty());
        log
    }
}

impl OutputLog {
    /// Adds a line; `transient` means it ended with '\r'. Returns whether
    /// anything changed on screen.
    pub fn push(&mut self, text: &str, transient: bool) -> (changed: bool)
        ensures
            final(self)@ == old(self)@.push(text@, transient),
            changed == !is_blank(clean(text@)),
    {
        let cleaned = clean_output_line(text);
        let chars = to_chars(cleaned.as_str());
        if trimmed(chars.as_slice()).len() == 0 {
            if !transient {
                self.last_is_transient = false;
            }
            return false;
        }
        if self.last_is_transient {
            let ghost lines0 = self.lines@;
            let _ = self.lines.pop();
            proof {
                if lines0.len() > 0 {
                    assert(texts(self.lines@) =~= texts(lines0).drop_last());
                }
            }
        }
        let ghost kept = self.lines@;
        self.lines.push(cleaned);
        assert(texts(self.lines@) =~= texts(kept).push(cleaned@));
        self.last_is_transient = transient;
        if self.lines.len() > MAX_OUTPUT_LINES {
            let ghost all = self.lines@;
            let _ = self.lines.remove(0);
            assert(texts(self.lines@) =~= texts(all).drop_first());
        }
        true
    }
}

/// The empty log is well formed.
pub proof fn law_empty_log_is_well_formed()
    ensures
        OutputLogView::empty().well_formed(),
{
}

/// Every line added keeps the log well formed: bounded, clean, never blank.
pub proof fn law_push_keeps_log_well_formed(log: OutputLogView, text: Seq<char>, transient: bool)
    requires
        log.well_formed(),
    ensures
        log.push(text, transient).well_formed(),
{
    let after = log.push(text, transient);
    law_clean_text_is_plain(text);
    assert forall|i: int| 0 <= i < after.lines.len() implies is_plain(#[trigger] after.lines[i])
        && !is_blank(after.lines[i]) by {
        let shift = if log.lines.len() - after.lines.len() == 0 && !is_blank(clean(text))
            && !log.last_is_transient {
            1int
        } else {
            0int
        };
        if i + shift < log.lines.len() {
            let _ = log.lines[i + shift];
        }
    }
}

/// Whatever follows a progress update takes its place, as if the update had
/// never been.
pub proof fn law_progress_updates_replace_each_other(
    log: OutputLogView,
    first: Seq<char>,
    second: Seq<char>,
    transient: bool,
)
    requires
        log.well_formed(),
        !is_blank(clean(first)),
        !is_blank(clean(second)),
    ensures
        log.push(first, true).push(second, transient) == log.push(second, transient),
{
    assert(log.push(first, true).push(second, transient).lines =~= log.push(
        second,
        transient,
    ).lines);
}

/// An empty line is blank.
proof fn lemma_empty_is_blank()
    ensures
        clean(Seq::empty()) == Seq::<char>::empty(),
        is_blank(Seq::empty()),
{
    let e = Seq::<char>::empty();
    assert(trim_start(e) =~= e);
}

/// A newline after a progress update makes its last state permanent, like any
/// line that ended with a newline: what follows comes after it.
pub proof fn law_newline_keeps_progress_line(
    log: OutputLogView,
    first: Seq<char>,
    second: Seq<char>,
    transient: bool,
)
    requires
        log.well_formed(),
        !is_blank(clean(first)),
        !is_blank(clean(second)),
    ensures
        log.push(first, true).push(Seq::empty(), false) == log.push(first, false),
        ({
            let lines = log.push(first, false).push(second, transient).lines;
            &&& lines.len() >= 2
            &&& lines[lines.len() - 2] == clean(first)
            &&& lines.last() == clean(second)
        }),
{
    lemma_empty_is_blank();
}

// ---------------------------------------------------------------------------
// Splitting a stream

/// Whether a byte ends a line of a stream.
pub open spec fn ends_line(b: u8) -> bool {
    b == 10 || b == 13
}

/// What a stream delivers: the finished lines, each with whether it ended with
/// '\r', and the bytes of the line not finished yet.
pub struct Delivered {
    pub finished: Seq<(Seq<u8>, bool)>,
    pub pending: Seq<u8>,
}

/// What the bytes `stream` deliver when `pending` were waiting.
pub open spec fn deliver(pending: Seq<u8>, stream: Seq<u8>) -> Delivered
    decreases stream.len(),
{
    if stream.len() == 0 {
        Delivered { finished: Seq::empty(), pending }
    } else {
        let d = deliver(pending, stream.drop_last());
        let b = stream.last();
        if ends_line(b) {
            Delivered { finished: d.finished.push((d.pending, b == 13)), pending: Seq::empty() }
        } else {
            Delivered { pending: d.pending.push(b), ..d }
        }
    }
}

/// The decoded form of finished lines.
pub open spec fn decoded(finished: Seq<(Seq<u8>, bool)>) -> Seq<(Seq<char>, bool)> {
    finished.map_values(|line: (Seq<u8>, bool)| (lossy_text(line.0), line.1))
}

/// Messages as texts.
pub open spec fn messages(list: Seq<(String, bool)>) -> Seq<(Seq<char>, bool)> {
    list.map_values(|message: (String, bool)| (message.0@, message.1))
}

/// Whether `text` is what decoding makes of `bytes`: valid UTF-8 as it stands.
pub open spec fn is_text_of(bytes: Seq<u8>, text: Seq<char>) -> bool {
    text == lossy_text(bytes) && (valid_utf8(bytes) ==> text == decode_utf8(bytes))
}

/// Whether `list` are the decoded lines, each with its flag.
pub open spec fn are_texts(finished: Seq<(Seq<u8>, bool)>, list: Seq<(Seq<char>, bool)>) -> bool {
    &&& list.len() == finished.len()
    &&& forall|i: int|
        0 <= i < list.len() ==> is_text_of(finished[i].0, (#[trigger] list[i]).0) && list[i].1
            == finished[i].1
}

/// Cuts a stream of bytes into lines as it arrives.
pub struct StreamSplitter {
    pub pending: Vec<u8>,
}

impl StreamSplitter {
    /// A splitter at the start of a stream.
    pub fn new() -> (splitter: Self)
        ensures
            splitter.pending@ == Seq::<u8>::empty(),
    {
        StreamSplitter { pending: Vec::new() }
    }

    /// Takes the next bytes of the stream. Returns each line they finish, with
    /// a flag telling whether it ended with '\r' (a progress update) rather
    /// than '\n'.
    pub fn feed(&mut self, chunk: &[u8]) -> (found: Vec<(String, bool)>)
        ensures
            final(self).pending@ == deliver(old(self).pending@, chunk@).pending,
            messages(found@) == decoded(deliver(old(self).pending@, chunk@).finished),
            are_texts(deliver(old(self).pending@, chunk@).finished, messages(found@)),
    {
        let ghost start = self.pending@;
        let mut found: Vec<(String, bool)> = Vec::new();
        let mut i: usize = 0;
        assert(messages(found@) =~= decoded(deliver(start, chunk@.take(0)).finished));
        while i < chunk.len()
            invariant
                i <= chunk@.len(),
                self.pending@ == deliver(start, chunk@.take(i as int)).pending,
                messages(found@) == decoded(deliver(start, chunk@.take(i as int)).finished),
                are_texts(deliver(start, chunk@.take(i as int)).finished, messages(found@)),
            decreases chunk@.len() - i,
        {
            let ghost d = deliver(start, chunk@.take(i as int));
            let ghost found0 = found@;
            assert(chunk@.take(i + 1).drop_last() =~= chunk@.take(i as int));
            assert(chunk@.take(i + 1).last() == chunk@[i as int]);
            let byte: u8 = chunk[i];
            if byte == 10 || byte == 13 {
                let text = from_utf8_lossy(self.pending.as_slice());
                self.pending.clear();
                found.push((text, byte == 13));
                assert(messages(found@) =~= messages(found0).push((text@, byte == 13)));
                assert(decoded(d.finished.push((d.pending, byte == 13))) =~= decoded(
                    d.finished,
                ).push((text@, byte == 13)));
            } else {
                self.pending.push(byte);
            }
            i = i + 1;
        }
        assert(chunk@.take(i as int) =~= chunk@);
        found
    }

    /// The stream has ended: what is left of it is its last line.
    pub fn finish(self) -> (last: Option<(String, bool)>)
        ensures
            match last {
                Some((text, transient)) => self.pending@.len() > 0 && is_text_of(
                    self.pending@,
                    text@,
                ) && !transient,
                None => self.pending@.len() == 0,
            },
    {
        if self.pending.len() == 0 {
            None
        } else {
            Some((from_utf8_lossy(self.pending.as_slice()), false))
        }
    }
}

/// How a stream is cut into reads does not matter: taking it in two parts
/// delivers what taking it at once does.
pub proof fn law_reads_may_be_cut_anywhere(pending: Seq<u8>, first: Seq<u8>, second: Seq<u8>)
    ensures
        ({
            let a = deliver(pending, first);
            let b = deliver(a.pending, second);
            deliver(pending, first + second) == (Delivered {
                finished: a.finished + b.finished,
                pending: b.pending,
            })
        }),
    decreases second.len(),
{
    let a = deliver(pending, first);
    if second.len() == 0 {
        assert(first + second =~= first);
        assert(a.finished + Seq::empty() =~= a.finished);
    } else {
        law_reads_may_be_cut_anywhere(pending, first, second.drop_last());
        assert((first + second).drop_last() =~= first + second.drop_last());
        let b = deliver(a.pending, second.drop_last());
        let item = (b.pending, second.last() == 13);
        assert(a.finished + b.finished.push(item) =~= (a.finished + b.finished).push(item));
    }
}

/// What a stream delivers that arrives in several reads.
pub open spec fn deliver_reads(pending: Seq<u8>, reads: Seq<Seq<u8>>) -> Delivered
    decreases reads.len(),
{
    if reads.len() == 0 {
        Delivered { finished: Seq::empty(), pending }
    } else {
        let d = deliver_reads(pending, reads.drop_last());
        let e = deliver(d.pending, reads.last());
        Delivered { finished: d.finished + e.finished, pending: e.pending }
    }
}

/// The bytes of several reads.
pub open spec fn all_bytes(reads: Seq<Seq<u8>>) -> Seq<u8>
    decreases reads.len(),
{
    if reads.len() == 0 {
        Seq::empty()
    } else {
        all_bytes(reads.drop_last()) + reads.last()
    }
}

/// The same stream delivers the same, in however many reads it arrives and
/// wherever they are cut, even inside a character.
pub proof fn law_any_reads_deliver_the_same(pending: Seq<u8>, reads: Seq<Seq<u8>>)
    ensures
        deliver_reads(pending, reads) == deliver(pending, all_bytes(reads)),
    decreases reads.len(),
{
    if reads.len() > 0 {
        law_any_reads_deliver_the_same(pending, reads.drop_last());
        law_reads_may_be_cut_anywhere(pending, all_bytes(reads.drop_last()), reads.last());
    }
}

/// Finished lines put back together, each with the byte that ended it.
pub open spec fn reassembled(finished: Seq<(Seq<u8>, bool)>) -> Seq<u8>
    decreases finished.len(),
{
    if finished.len() == 0 {
        Seq::empty()
    } else {
        reassembled(finished.drop_last()) + finished.last().0.push(
            if finished.last().1 {
                13u8
            } else {
                10u8
            },
        )
    }
}

/// No byte of a stream is lost, added or moved.
pub proof fn law_stream_is_delivered_whole(pending: Seq<u8>, stream: Seq<u8>)
    ensures
        reassembled(deliver(pending, stream).finished) + deliver(pending, stream).pending
            == pending + stream,
    decreases stream.len(),
{
    let d = deliver(pending, stream);
    if stream.len() == 0 {
        assert(reassembled(d.finished) + d.pending =~= pending + stream);
    } else {
        law_stream_is_delivered_whole(pending, stream.drop_last());
        let e = deliver(pending, stream.drop_last());
        if ends_line(stream.last()) {
            assert(d.finished.drop_last() =~= e.finished);
        }
        assert(reassembled(d.finished) + d.pending =~= (reassembled(e.finished) + e.pending).push(
            stream.last(),
        ));
        assert((pending + stream.drop_last()).push(stream.last()) =~= pending + stream);
    }
}

/// Whether no byte ends a line.
pub open spec fn has_no_end(line: Seq<u8>) -> bool {
    forall|i: int| 0 <= i < line.len() ==> !ends_line(#[trigger] line[i])
}

proof fn lemma_lines_hold_no_end(pending: Seq<u8>, stream: Seq<u8>)
    requires
        has_no_end(pending),
    ensures
        has_no_end(deliver(pending, stream).pending),
        forall|i: int|
            0 <= i < deliver(pending, stream).finished.len() ==> has_no_end(
                (#[trigger] deliver(pending, stream).finished[i]).0,
            ),
    decreases stream.len(),
{
    if stream.len() > 0 {
        lemma_lines_hold_no_end(pending, stream.drop_last());
    }
}

/// The character that ends a line.
pub open spec fn end_char(transient: bool) -> char {
    if transient {
        '\r'
    } else {
        '\n'
    }
}

/// Messages written out, each with the character that ended it.
pub open spec fn written_out(list: Seq<(Seq<char>, bool)>) -> Seq<char>
    decreases list.len(),
{
    if list.len() == 0 {
        Seq::empty()
    } else {
        written_out(list.drop_last()) + list.last().0.push(end_char(list.last().1))
    }
}

/// An end of line splits valid UTF-8 into valid parts.
proof fn lemma_split_at_end(line: Seq<u8>, end: u8, tail: Seq<u8>)
    requires
        ends_line(end),
        valid_utf8(line.push(end) + tail),
    ensures
        valid_utf8(line),
        valid_utf8(tail),
        decode_utf8(line.push(end) + tail) == decode_utf8(line).push(end_char(end == 13))
            + decode_utf8(tail),
{
    let whole = line.push(end) + tail;
    let n = line.len() as int;
    assert(whole[n] == end);
    is_char_boundary_iff_not_is_continuation_byte(whole, n);
    valid_utf8_split(whole, n);
    decode_utf8_split(whole, n);
    assert(whole.subrange(0, n) =~= line);
    let rest = whole.subrange(n, whole.len() as int);
    assert(rest[0] == end);
    assert(rest =~= seq![end] + tail);
    assert(pop_first_scalar(rest) =~= tail);
    assert(is_char_boundary(tail, 0));
    reveal_with_fuel(is_char_boundary, 2);
    assert(is_char_boundary(rest, 1));
    decode_utf8_split(rest, 1);
    let c = end_char(end == 13);
    assert(is_ascii_chars(seq![c]));
    is_ascii_chars_encode_utf8(seq![c]);
    encode_utf8_decode_utf8(seq![c]);
    assert(seq![c][0] as u8 == encode_utf8(seq![c])[0]);
    assert(rest.subrange(0, 1) =~= encode_utf8(seq![c]));
    assert(rest.subrange(1, rest.len() as int) =~= tail);
    assert(decode_utf8(whole) =~= decode_utf8(line).push(end_char(end == 13)) + decode_utf8(tail));
}

/// Lines put back together decode as the lines do.
proof fn lemma_lines_decode(
    finished: Seq<(Seq<u8>, bool)>,
    list: Seq<(Seq<char>, bool)>,
    tail: Seq<u8>,
)
    requires
        valid_utf8(reassembled(finished) + tail),
        are_texts(finished, list),
    ensures
        valid_utf8(tail),
        forall|i: int|
            0 <= i < list.len() ==> valid_utf8((#[trigger] finished[i]).0) && list[i].0
                == decode_utf8(finished[i].0),
        decode_utf8(reassembled(finished) + tail) == written_out(list) + decode_utf8(tail),
    decreases finished.len(),
{
    if finished.len() == 0 {
        assert(reassembled(finished) + tail =~= tail);
        assert(written_out(list) + decode_utf8(tail) =~= decode_utf8(tail));
    } else {
        let line = finished.last().0;
        let end = if finished.last().1 {
            13u8
        } else {
            10u8
        };
        let more = line.push(end) + tail;
        assert(reassembled(finished) + tail =~= reassembled(finished.drop_last()) + more);
        assert(are_texts(finished.drop_last(), list.drop_last())) by {
            assert forall|i: int| 0 <= i < list.drop_last().len() implies is_text_of(
                finished.drop_last()[i].0,
                (#[trigger] list.drop_last()[i]).0,
            ) && list.drop_last()[i].1 == finished.drop_last()[i].1 by {
                assert(list.drop_last()[i] == list[i]);
            }
        }
        lemma_lines_decode(finished.drop_last(), list.drop_last(), more);
        lemma_split_at_end(line, end, tail);
        assert(is_text_of(line, list[list.len() - 1].0));
        assert forall|i: int| 0 <= i < list.len() implies valid_utf8((#[trigger] finished[i]).0)
            && list[i].0 == decode_utf8(finished[i].0) by {
            if i < list.len() - 1 {
                assert(finished.drop_last()[i] == finished[i]);
                assert(list.drop_last()[i] == list[i]);
            }
        }
        assert(written_out(list) + decode_utf8(tail) =~= written_out(list.drop_last()) + (
        decode_utf8(line).push(end_char(end == 13)) + decode_utf8(tail)));
    }
}

/// An end of line in a text shows in its bytes.
proof fn lemma_ends_are_encoded(text: Seq<char>, k: int)
    requires
        0 <= k < text.len(),
        text[k] == '\n' || text[k] == '\r',
    ensures
        !has_no_end(encode_utf8(text)),
    decreases text.len(),
{
    let first = encode_scalar(text[0] as u32);
    let rest = encode_utf8(text.drop_first());
    assert(encode_utf8(text) == first + rest);
    if k == 0 {
        let c = seq![text[0]];
        assert(is_ascii_chars(c));
        is_ascii_chars_encode_utf8(c);
        assert(c.drop_first() =~= Seq::empty());
        assert(encode_utf8(c) =~= first + encode_utf8(c.drop_first()));
        assert(c[0] as u8 == encode_utf8(c)[0]);
        assert(ends_line((first + rest)[0]));
    } else {
        lemma_ends_are_encoded(text.drop_first(), k - 1);
        let i = choose|i: int| 0 <= i < rest.len() && ends_line(#[trigger] rest[i]);
        assert((first + rest)[first.len() + i] == rest[i]);
    }
}

/// Whether a text holds no end of line.
pub open spec fn is_one_line(text: Seq<char>) -> bool {
    forall|i: int| 0 <= i < text.len() ==> (#[trigger] text[i]) != '\n' && text[i] != '\r'
}

proof fn lemma_one_line(line: Seq<u8>)
    requires
        has_no_end(line),
        valid_utf8(line),
    ensures
        is_one_line(decode_utf8(line)),
{
    let text = decode_utf8(line);
    decode_utf8_encode_utf8(line);
    assert forall|i: int| 0 <= i < text.len() implies (#[trigger] text[i]) != '\n' && text[i]
        != '\r' by {
        if text[i] == '\n' || text[i] == '\r' {
            lemma_ends_are_encoded(text, i);
        }
    }
}

/// The messages of finished lines, and of what is left at the end.
pub open spec fn all_messages(
    list: Seq<(Seq<char>, bool)>,
    last: Option<(Seq<char>, bool)>,
) -> Seq<(Seq<char>, bool)> {
    match last {
        Some(message) => list.push(message),
        None => list,
    }
}

/// The texts that a stream of valid UTF-8 delivers are single lines, and
/// written out with their ends they are the stream; only a last line without an
/// end gets one. `list` are the texts of the finished lines, `last` that of
/// what is left at the end.
pub proof fn law_texts_give_the_stream_back(
    stream: Seq<u8>,
    list: Seq<(Seq<char>, bool)>,
    last: Option<(Seq<char>, bool)>,
)
    requires
        valid_utf8(stream),
        are_texts(deliver(Seq::empty(), stream).finished, list),
        match last {
            Some((text, transient)) => deliver(Seq::empty(), stream).pending.len() > 0
                && is_text_of(deliver(Seq::empty(), stream).pending, text) && !transient,
            None => deliver(Seq::empty(), stream).pending.len() == 0,
        },
    ensures
        forall|i: int|
            0 <= i < all_messages(list, last).len() ==> is_one_line(
                (#[trigger] all_messages(list, last)[i]).0,
            ),
        written_out(all_messages(list, last)) == if stream.len() == 0 || ends_line(
            stream.last(),
        ) {
            decode_utf8(stream)
        } else {
            decode_utf8(stream).push('\n')
        },
{
    let d = deliver(Seq::empty(), stream);
    law_stream_is_delivered_whole(Seq::empty(), stream);
    assert(Seq::<u8>::empty() + stream =~= stream);
    lemma_lines_decode(d.finished, list, d.pending);
    lemma_lines_hold_no_end(Seq::empty(), stream);
    assert forall|i: int| 0 <= i < list.len() implies is_one_line((#[trigger] list[i]).0) by {
        lemma_one_line(d.finished[i].0);
    }
    lemma_one_line(d.pending);
    match last {
        Some(message) => {
            assert(list.push(message).drop_last() =~= list);
            assert(written_out(list.push(message)) =~= (written_out(list) + decode_utf8(
                d.pending,
            )).push('\n'));
        },
        None => {
            assert(written_out(list) + decode_utf8(d.pending) =~= written_out(list));
        },
    }
}

// ---------------------------------------------------------------------------
// Why a command failed

/// The last of the lines `ls` that shows something, cleaned and trimmed.
pub open spec fn last_shown(ls: Seq<Seq<char>>) -> Option<Seq<char>>
    decreases ls.len(),
{
    if ls.len() == 0 {
        None
    } else {
        let line = trim(clean(ls.last()));
        if line.len() > 0 {
            Some(line)
        } else {
            last_shown(ls.drop_last())
        }
    }
}

/// Last non-empty line of a text, cleaned for display.
pub fn last_line_of(text: &str) -> (line: Option<String>)
    ensures
        match line {
            Some(line) => last_shown(lines(text@)) == Some(line@),
            None => last_shown(lines(text@)) is None,
        },
{
    let chars = to_chars(text);
    let rows = split_lines(chars.as_slice());
    let ghost ls = lines(text@);
    let mut n: usize = rows.len();
    assert(ls.take(n as int) =~= ls);
    while n > 0
        invariant
            n <= rows@.len(),
            ls == lines(text@),
            views(rows@) == ls,
            last_shown(ls) == last_shown(ls.take(n as int)),
        decreases n,
    {
        assert(ls.take(n as int).last() == rows@[n - 1]@);
        assert(ls.take(n as int).drop_last() =~= ls.take(n - 1));
        let cleaned = clean_output_line(to_text(rows[n - 1]).as_str());
        let cleaned_chars = to_chars(cleaned.as_str());
        let shown = trimmed(cleaned_chars.as_slice());
        if shown.len() > 0 {
            return Some(to_text(shown));
        }
        n = n - 1;
    }
    None
}

proof fn lemma_trim_is_plain(s: Seq<char>)
    requires
        is_plain(s),
    ensures
        is_plain(trim(s)),
{
    let started = trim_start(s);
    lemma_run_len(s, white());
    assert forall|i: int| 0 <= i < started.len() implies !is_control(#[trigger] started[i]) by {
        assert(started[i] == s[i + run_len(s, white())]);
    }
    lemma_trim_end_is_plain(started);
}

proof fn lemma_trim_end_is_plain(s: Seq<char>)
    requires
        is_plain(s),
    ensures
        is_plain(trim_end(s)),
    decreases s.len(),
{
    if s.len() > 0 && is_white_space(s.last()) {
        lemma_trim_end_is_plain(s.drop_last());
    }
}

/// The reason shown for a failure is never blank and holds no control
/// characters, whatever the command wrote.
pub proof fn law_last_line_can_be_shown(ls: Seq<Seq<char>>)
    requires
        last_shown(ls) is Some,
    ensures
        last_shown(ls)->0.len() > 0,
        is_plain(last_shown(ls)->0),
    decreases ls.len(),
{
    let line = clean(ls.last());
    if trim(line).len() > 0 {
        law_clean_text_is_plain(ls.last());
        lemma_trim_is_plain(line);
    } else {
        law_last_line_can_be_shown(ls.drop_last());
    }
}

/// What came before the last line that can be shown does not matter.
pub proof fn law_last_line_is_the_last(before: Seq<Seq<char>>, ls: Seq<Seq<char>>)
    requires
        last_shown(ls) is Some,
    ensures
        last_shown(before + ls) == last_shown(ls),
    decreases ls.len(),
{
    let all = before + ls;
    assert(all.last() == ls.last());
    if trim(clean(ls.last())).len() == 0 {
        assert(all.drop_last() =~= before + ls.drop_last());
        law_last_line_is_the_last(before, ls.drop_last());
    }
}

/// Last non-empty line of a command's output, cleaned for display.
pub fn last_line(output: &[u8]) -> (line: Option<String>)
    ensures
        match line {
            Some(line) => last_shown(lines(lossy_text(output@))) == Some(line@),
            None => last_shown(lines(lossy_text(output@))) is None,
        },
        valid_utf8(output@) ==> lossy_text(output@) == decode_utf8(output@),
{
    last_line_of(from_utf8_lossy(output).as_str())
}

/// Why a command failed: the last line it wrote to stderr, or else its name
/// and exit status.
pub open spec fn failure_reason(
    program: Seq<char>,
    stderr: Seq<char>,
    status: Seq<char>,
) -> Seq<char> {
    match last_shown(lines(stderr)) {
        Some(line) => line,
        None => program + " failed ("@ + status + ")"@,
    }
}

/// The result of a command that ran: on failure, why.
pub fn command_result(program: &str, success: bool, stderr: &[u8], status: &str) -> (r: Result<
    (),
    String,
>)
    ensures
        match r {
            Ok(()) => success,
            Err(reason) => !success && reason@ == failure_reason(
                program@,
                lossy_text(stderr@),
                status@,
            ),
        },
        !success && valid_utf8(stderr@) ==> lossy_text(stderr@) == decode_utf8(stderr@),
{
    if success {
        return Ok(());
    }
    match last_line(stderr) {
        Some(line) => Err(line),
        None => {
            let mut reason = program.to_owned();
            reason.append(" failed (");
            reason.append(status);
            reason.append(")");
            Err(reason)
        },
    }
}

/// The reason given when a command cannot be started.
pub fn cannot_run(program: &str, error: &str) -> (reason: String)
    ensures
        reason@ == "cannot run "@ + program@ + ": "@ + error@,
{
    let mut reason = "cannot run ".to_owned();
    reason.append(program);
    reason.append(": ");
    reason.append(error);
    reason
}

// ---------------------------------------------------------------------------
// What is kept of output, said of the characters and lines themselves

/// Cleaning goes from character to character: tabs become blanks, other control
/// characters vanish, anything else stays.
pub proof fn law_cleaning_goes_by_character(c: char, s: Seq<char>)
    requires
        !(c == '\x1b' && s.len() > 0 && s[0] == '['),
    ensures
        clean(Seq::empty()).len() == 0,
        c == '\t' ==> clean(seq![c] + s) == seq![' '] + clean(s),
        c != '\t' && is_control(c) ==> clean(seq![c] + s) == clean(s),
        !is_control(c) ==> clean(seq![c] + s) == seq![c] + clean(s),
{
    let whole = seq![c] + s;
    assert(whole.drop_first() =~= s);
    if s.len() > 0 {
        assert(whole[1] == s[0]);
    }
}

/// An escape sequence vanishes with the letter or tilde that ends it; one that
/// is not ended takes the rest with it. `inner` are characters that end none.
pub proof fn law_escape_sequences_vanish(inner: Seq<char>, end: char, s: Seq<char>)
    requires
        forall|i: int|
            0 <= i < inner.len() ==> !('a' <= #[trigger] inner[i] <= 'z') && !('A' <= inner[i]
                <= 'Z') && inner[i] != '~',
        'a' <= end <= 'z' || 'A' <= end <= 'Z' || end == '~',
    ensures
        clean(seq!['\x1b', '['] + inner + seq![end] + s) == clean(s),
        clean(seq!['\x1b', '['] + inner).len() == 0,
{
    let n = inner.len() as int;
    let open = seq!['\x1b', '['] + inner;
    let whole = seq!['\x1b', '['] + inner + seq![end] + s;
    let p = inside_sequence();
    assert(open[0] == '\x1b' && open[1] == '[' && whole[0] == '\x1b' && whole[1] == '[');
    assert(open.skip(2) =~= inner);
    let rest = whole.skip(2);
    assert(rest =~= inner + seq![end] + s);
    assert forall|i: int| 0 <= i < n implies p(#[trigger] inner[i]) by {}
    assert forall|i: int| 0 <= i < n implies p(#[trigger] rest[i]) by {
        assert(rest[i] == inner[i]);
    }
    assert(rest[n] == end);
    lemma_run_len_is(inner, p, n);
    lemma_run_len_is(rest, p, n);
    assert(rest.skip(n + 1) =~= s);
    assert(after_sequence(open.skip(2)) =~= Seq::empty());
    assert(clean(after_sequence(open.skip(2))).len() == 0);
}

/// A line that can be seen comes last, cleaned, after the others; it takes the
/// place of a progress update, and beyond a thousand lines the oldest goes. A
/// blank line adds nothing.
pub proof fn law_lines_are_added_at_the_end(log: OutputLogView, text: Seq<char>, transient: bool)
    requires
        log.lines.len() <= 1000,
    ensures
        ({
            let line = clean(text);
            let kept = if log.last_is_transient && log.lines.len() > 0 {
                log.lines.take(log.lines.len() - 1)
            } else {
                log.lines
            };
            let after = log.push(text, transient);
            &&& trim(line).len() == 0 ==> after.lines == log.lines && after.last_is_transient == (
            log.last_is_transient && transient)
            &&& trim(line).len() > 0 ==> after.last_is_transient == transient && after.lines.len()
                > 0 && after.lines.last() == line
            &&& trim(line).len() > 0 && kept.len() < 1000 ==> after.lines.drop_last() == kept
            &&& trim(line).len() > 0 && kept.len() == 1000 ==> after.lines.drop_last()
                == kept.skip(1)
        }),
        MAX_OUTPUT_LINES == 1000,
        OutputLogView::empty().lines.len() == 0,
        !OutputLogView::empty().last_is_transient,
{
    let line = clean(text);
    let kept = if log.last_is_transient && log.lines.len() > 0 {
        log.lines.take(log.lines.len() - 1)
    } else {
        log.lines
    };
    let after = log.push(text, transient);
    if trim(line).len() > 0 {
        if kept.len() < 1000 {
            assert(after.lines.drop_last() =~= kept);
        } else {
            assert(after.lines.drop_last() =~= kept.skip(1));
        }
    }
}

/// A stream is cut at newlines and carriage returns: what stands before one is
/// finished, and transient behind a carriage return; what stands behind the last
/// is pending. `line` holds neither.
pub proof fn law_streams_are_cut_at_line_ends(pending: Seq<u8>, line: Seq<u8>, rest: Seq<u8>)
    requires
        forall|i: int| 0 <= i < line.len() ==> #[trigger] line[i] != 10 && line[i] != 13,
    ensures
        deliver(pending, line).finished.len() == 0,
        deliver(pending, line).pending == pending + line,
        deliver(pending, line.push(10) + rest).finished == seq![(pending + line, false)] + deliver(
            Seq::empty(),
            rest,
        ).finished,
        deliver(pending, line.push(10) + rest).pending == deliver(Seq::empty(), rest).pending,
        deliver(pending, line.push(13) + rest).finished == seq![(pending + line, true)] + deliver(
            Seq::empty(),
            rest,
        ).finished,
        deliver(pending, line.push(13) + rest).pending == deliver(Seq::empty(), rest).pending,
{
    lemma_line_is_pending(pending, line);
    assert(line.push(10).drop_last() =~= line);
    assert(line.push(13).drop_last() =~= line);
    assert(deliver(pending, line.push(10)).finished =~= seq![(pending + line, false)]);
    assert(deliver(pending, line.push(13)).finished =~= seq![(pending + line, true)]);
    law_reads_may_be_cut_anywhere(pending, line.push(10), rest);
    law_reads_may_be_cut_anywhere(pending, line.push(13), rest);
}

proof fn lemma_line_is_pending(pending: Seq<u8>, line: Seq<u8>)
    requires
        forall|i: int| 0 <= i < line.len() ==> #[trigger] line[i] != 10 && line[i] != 13,
    ensures
        deliver(pending, line).finished.len() == 0,
        deliver(pending, line).pending == pending + line,
    decreases line.len(),
{
    if line.len() == 0 {
        assert(pending + line =~= pending);
    } else {
        let init = line.drop_last();
        assert forall|i: int| 0 <= i < init.len() implies #[trigger] init[i] != 10 && init[i]
            != 13 by {
            assert(init[i] == line[i]);
        }
        lemma_line_is_pending(pending, init);
        assert(line[line.len() - 1] != 10 && line[line.len() - 1] != 13);
        assert(deliver(pending, line).pending =~= pending + line);
    }
}

/// The reason shown is the last line that is not blank once it is cleaned,
/// without the white space around it; if all are blank, there is none.
pub proof fn law_reason_is_the_last_line_with_anything_on_it(
    before: Seq<Seq<char>>,
    line: Seq<char>,
    blank: Seq<Seq<char>>,
)
    requires
        forall|i: int| 0 <= i < blank.len() ==> trim(clean(#[trigger] blank[i])).len() == 0,
        trim(clean(line)).len() > 0,
    ensures
        last_shown(blank) is None,
        last_shown(before + seq![line] + blank) == Some(trim(clean(line))),
    decreases blank.len(),
{
    let whole = before + seq![line] + blank;
    if blank.len() == 0 {
        assert(whole.last() == line);
    } else {
        let init = blank.drop_last();
        assert(trim(clean(blank[blank.len() - 1])).len() == 0);
        assert(whole.last() == blank.last());
        assert(whole.drop_last() =~= before + seq![line] + init);
        assert forall|i: int| 0 <= i < init.len() implies trim(
            clean(#[trigger] init[i]),
        ).len() == 0 by {
            assert(init[i] == blank[i]);
        }
        law_reason_is_the_last_line_with_anything_on_it(before, line, init);
    }
}

/// A command that failed without a word is said to have failed, with its
/// status; one that said something is quoted.
pub proof fn law_failures_have_a_reason(
    program: Seq<char>,
    stderr: Seq<char>,
    status: Seq<char>,
    line: Seq<char>,
)
    ensures
        last_shown(lines(stderr)) == Some(line) ==> failure_reason(program, stderr, status) == line,
        last_shown(lines(stderr)) is None ==> failure_reason(program, stderr, status) == program
            + " failed ("@ + status + ")"@,
{
}

/// The views of output hold each text at its own place.
pub proof fn law_messages_keep_their_places(
    list: Seq<(String, bool)>,
    finished: Seq<(Seq<u8>, bool)>,
    log: OutputLog,
    i: int,
)
    ensures
        messages(list).len() == list.len(),
        0 <= i < list.len() ==> messages(list)[i] == (list[i].0@, list[i].1),
        decoded(finished).len() == finished.len(),
        0 <= i < finished.len() ==> decoded(finished)[i] == (
            lossy_text(finished[i].0),
            finished[i].1,
        ),
        log@.lines == texts(log.lines@),
        log@.last_is_transient == log.last_is_transient,
{
}

} // verus!
