//! The screens: what is drawn where, for a screen of any size.

use crate::canvas::{
    all_on_screen, columns, draws, half, halved, on_screen, put, put_centered, put_separator,
    Canvas, DrawView, Size, Style,
};
use crate::config::{Config, ConfigView};
use crate::keys::{key_char, letter_of, KEY_ESC};
use crate::output::{from_utf8_lossy, is_text_of, lossy_text};
use crate::session::{
    is_current, yes_no, yes_or_no, App, AppView, Screen, StatusView, SETTINGS_COUNT,
};
use crate::snapshots::{
    format_snapshot_name, groups_view, is_read, labelled, shown_time, SnapshotGroups,
};
use crate::text::{
    center, centered, decimal, decimal_text, lines, repeat, repeated, split_lines, text_of, texts,
    to_chars, to_text, truncate, truncate_str, views,
};
use vstd::prelude::*;
use vstd::slice::slice_subrange;
use vstd::utf8::is_ascii_chars;

verus! {

// ---------------------------------------------------------------------------
// Header, footer, status

/// The version shown in the header.
pub fn version() -> (text: &'static str)
    ensures
        text@ == "2.8.0"@,
{
    "2.8.0"
}

/// The header: the title on the first row, a line below it.
pub open spec fn header(size: Size) -> Seq<DrawView> {
    put(size, 0, 0, centered("BTRBK TUI v"@ + "2.8.0"@, columns(size)), Style::StatusBarBold)
        + put_separator(size, 1)
}

/// The keys that a screen understands.
pub open spec fn footer_text(screen: Screen, reboot_needed: bool) -> Seq<char> {
    match screen {
        Screen::Main => "Up/Down: Navigate | Left/Right: Switch | ENTER: Restore | S: Settings | R: Refresh | I: Snapshot | P: Purge OLD | B: Clean BROKEN"@
            + (if reboot_needed {
            " | H: REBOOT"@
        } else {
            Seq::empty()
        }) + " | Q: Quit"@,
        Screen::Settings => "Up/Down: Navigate | ENTER: Edit | SPACE: Toggle | S: Save | ESC: Back | Q: Quit"@,
    }
}

/// The footer: a line, and the keys on the last row.
pub open spec fn footer(size: Size, screen: Screen, reboot_needed: bool) -> Seq<DrawView> {
    put_separator(size, size.height - 2) + put(
        size,
        size.height - 1,
        0,
        footer_text(screen, reboot_needed),
        Style::StatusBar,
    )
}

/// The status row: a message while it is current, else a warning when a reboot
/// is called for.
pub open spec fn status_row(
    size: Size,
    status: Option<StatusView>,
    reboot_needed: bool,
    now: u64,
) -> Seq<DrawView> {
    if status is Some && is_current(status->0, now) {
        put(size, size.height - 3, 0, status->0.message, Style::Info)
    } else if reboot_needed {
        put(
            size,
            size.height - 3,
            0,
            "WARNING: REBOOT REQUIRED - Press H to reboot system"@,
            Style::Warning,
        )
    } else {
        Seq::empty()
    }
}

/// Draws the header.
pub fn draw_header(canvas: &mut Canvas)
    ensures
        final(canvas).size == old(canvas).size,
        draws(final(canvas).list@) == draws(old(canvas).list@) + header(old(canvas).size),
{
    let ghost before = draws(canvas.list@);
    let mut title = "BTRBK TUI v".to_owned();
    title.append(version());
    let width: usize = if canvas.size.width > 0 {
        canvas.size.width as usize
    } else {
        0
    };
    let centered_title = center(title.as_str(), width);
    canvas.put(0, 0, centered_title.as_str(), Style::StatusBarBold);
    canvas.put_separator(1);
    assert(draws(canvas.list@) =~= before + header(canvas.size));
}

/// Draws the footer.
pub fn draw_footer(canvas: &mut Canvas, screen: Screen, reboot_needed: bool)
    ensures
        final(canvas).size == old(canvas).size,
        draws(final(canvas).list@) == draws(old(canvas).list@) + footer(
            old(canvas).size,
            screen,
            reboot_needed,
        ),
{
    let ghost before = draws(canvas.list@);
    let text = match screen {
        Screen::Main => {
            let mut keys = "Up/Down: Navigate | Left/Right: Switch | ENTER: Restore | S: Settings | R: Refresh | I: Snapshot | P: Purge OLD | B: Clean BROKEN".to_owned();
            if reboot_needed {
                keys.append(" | H: REBOOT");
            }
            keys.append(" | Q: Quit");
            assert(keys@ =~= footer_text(screen, reboot_needed));
            keys
        },
        Screen::Settings => "Up/Down: Navigate | ENTER: Edit | SPACE: Toggle | S: Save | ESC: Back | Q: Quit".to_owned(),
    };
    let height: i128 = canvas.size.height as i128;
    canvas.put_separator(height - 2);
    canvas.put(height - 1, 0, text.as_str(), Style::StatusBar);
    assert(draws(canvas.list@) =~= before + footer(canvas.size, screen, reboot_needed));
}

impl App {
    /// Draws the status row, and drops a message that has been shown long
    /// enough.
    pub fn draw_status(&mut self, canvas: &mut Canvas, now: u64)
        ensures
            final(self)@ == old(self)@.with_expired_status(now),
            final(canvas).size == old(canvas).size,
            draws(final(canvas).list@) == draws(old(canvas).list@) + status_row(
                old(canvas).size,
                old(self)@.status,
                old(self)@.reboot_needed,
                now,
            ),
    {
        self.expire_status(now);
        let y: i128 = canvas.size.height as i128 - 3;
        match &self.status {
            Some(status) => {
                canvas.put(y, 0, status.message.as_str(), Style::Info);
            },
            None => {
                if self.reboot_needed {
                    canvas.put(
                        y,
                        0,
                        "WARNING: REBOOT REQUIRED - Press H to reboot system",
                        Style::Warning,
                    );
                } else {
                    assert(draws(canvas.list@) =~= draws(canvas.list@) + Seq::<DrawView>::empty());
                }
            },
        }
    }
}

// ---------------------------------------------------------------------------
// The main screen

/// A column of the main screen: a subvolume and its snapshots.
#[derive(Debug)]
pub struct Column {
    pub heading: String,
    pub labels: Vec<String>,
}

/// A column, as text.
pub struct ColumnView {
    pub heading: Seq<char>,
    pub labels: Seq<Seq<char>>,
}

impl View for Column {
    type V = ColumnView;

    open spec fn view(&self) -> ColumnView {
        ColumnView { heading: self.heading@, labels: texts(self.labels@) }
    }
}

/// Columns as text.
pub open spec fn columns_view(list: Seq<Column>) -> Seq<ColumnView> {
    list.map_values(|c: Column| c@)
}

/// The row of the first snapshot.
pub const FIRST_ROW: i32 = 4;

/// The width of each of `count` columns.
pub open spec fn column_width(size: Size, count: nat) -> int {
    if size.width - 4 >= count {
        (size.width - 4) / count as int
    } else {
        1
    }
}

/// The room for text in a column: two characters stay free.
pub open spec fn text_width(column_width: int) -> nat {
    if column_width > 3 {
        (column_width - 2) as nat
    } else {
        1
    }
}

/// How many snapshots fit: the rows down to the one above the status row, but
/// for the row that says what is shown.
pub open spec fn visible_rows(size: Size) -> nat {
    if size.height > 10 {
        (size.height - 9) as nat
    } else {
        1
    }
}

/// The first snapshot shown: a column scrolls as far as it takes to show the
/// selected one.
pub open spec fn first_shown(selected: Option<usize>, visible: nat) -> nat {
    match selected {
        Some(row) => if row + 1 > visible {
            (row + 1 - visible) as nat
        } else {
            0
        },
        None => 0,
    }
}

/// How many snapshots are shown.
pub open spec fn shown_count(len: nat, first: nat, visible: nat) -> nat {
    if first >= len {
        0
    } else if len - first > visible {
        visible
    } else {
        (len - first) as nat
    }
}

/// What is shown of a column that does not fit.
pub open spec fn range_text(first: nat, last: nat, len: nat) -> Seq<char> {
    "["@ + decimal(first + 1) + "-"@ + decimal(last) + " of "@ + decimal(len) + "]"@
}

/// The first `n` of the rows shown of a column.
pub open spec fn rows_drawn(
    size: Size,
    x: int,
    room: nat,
    labels: Seq<Seq<char>>,
    selected: Option<usize>,
    first: nat,
    n: nat,
) -> Seq<DrawView>
    decreases n,
{
    if n == 0 {
        Seq::empty()
    } else {
        let row = first + n - 1;
        rows_drawn(size, x, room, labels, selected, first, (n - 1) as nat) + put(
            size,
            FIRST_ROW + n - 1,
            x,
            truncate(labels[row], room),
            if selected is Some && selected->0 == row {
                Style::Selected
            } else {
                Style::Plain
            },
        )
    }
}

/// The row below a column that does not fit.
pub open spec fn range_row(
    size: Size,
    x: int,
    room: nat,
    len: nat,
    first: nat,
    visible: nat,
) -> Seq<DrawView> {
    if len > visible {
        put(
            size,
            FIRST_ROW + visible,
            x,
            truncate(
                range_text(
                    first,
                    if first + visible < len {
                        first + visible
                    } else {
                        len
                    },
                    len,
                ),
                room,
            ),
            Style::Dim,
        )
    } else {
        Seq::empty()
    }
}

/// A column: its heading, the snapshots that are shown, and which those are
/// when not all are.
pub open spec fn column_drawn(
    size: Size,
    x: int,
    room: nat,
    column: ColumnView,
    selected: Option<usize>,
) -> Seq<DrawView> {
    let visible = visible_rows(size);
    let first = first_shown(selected, visible);
    put(size, FIRST_ROW - 1, x, truncate(column.heading, room), Style::Heading) + rows_drawn(
        size,
        x,
        room,
        column.labels,
        selected,
        first,
        shown_count(column.labels.len(), first, visible),
    ) + range_row(size, x, room, column.labels.len(), first, visible)
}

/// The selected row of a column: only one column has one.
pub open spec fn selected_in(col: int, selected_col: usize, selected_row: usize) -> Option<usize> {
    if col == selected_col {
        Some(selected_row)
    } else {
        None
    }
}

/// The first `n` columns.
pub open spec fn columns_drawn(
    size: Size,
    list: Seq<ColumnView>,
    selected_col: usize,
    selected_row: usize,
    n: nat,
) -> Seq<DrawView>
    decreases n,
{
    if n == 0 {
        Seq::empty()
    } else {
        let width = column_width(size, list.len());
        columns_drawn(size, list, selected_col, selected_row, (n - 1) as nat) + column_drawn(
            size,
            2 + (n - 1) * width,
            text_width(width),
            list[n - 1],
            selected_in(n - 1, selected_col, selected_row),
        )
    }
}

fn range_words(first: usize, last: usize, len: usize) -> (s: String)
    requires
        first < usize::MAX,
    ensures
        s@ == range_text(first as nat, last as nat, len as nat),
{
    let mut s = "[".to_owned();
    let n = decimal_text(first as u64 + 1);
    s.append(n.as_str());
    s.append("-");
    let n = decimal_text(last as u64);
    s.append(n.as_str());
    s.append(" of ");
    let n = decimal_text(len as u64);
    s.append(n.as_str());
    s.append("]");
    s
}

fn draw_column(canvas: &mut Canvas, x: i128, room: usize, column: &Column, selected: Option<usize>)
    requires
        selected matches Some(row) ==> row < usize::MAX,
    ensures
        final(canvas).size == old(canvas).size,
        draws(final(canvas).list@) == draws(old(canvas).list@) + column_drawn(
            old(canvas).size,
            x as int,
            room as nat,
            column@,
            selected,
        ),
{
    let ghost before = draws(canvas.list@);
    let ghost size = canvas.size;
    let visible: usize = if canvas.size.height > 10 {
        (canvas.size.height - 9) as usize
    } else {
        1
    };
    let first: usize = match selected {
        Some(row) => if row >= visible {
            row + 1 - visible
        } else {
            0
        },
        None => 0,
    };
    let len: usize = column.labels.len();
    let count: usize = if first >= len {
        0
    } else if len - first > visible {
        visible
    } else {
        len - first
    };
    let heading = truncate_str(column.heading.as_str(), room);
    canvas.put(FIRST_ROW as i128 - 1, x, heading.as_str(), Style::Heading);
    let ghost head = put(
        size,
        FIRST_ROW - 1,
        x as int,
        truncate(column@.heading, room as nat),
        Style::Heading,
    );
    let ghost labels = column@.labels;
    assert(draws(canvas.list@) =~= before + head + rows_drawn(
        size,
        x as int,
        room as nat,
        labels,
        selected,
        first as nat,
        0,
    ));
    let mut k: usize = 0;
    while k < count
        invariant
            canvas.size == size,
            k <= count,
            count > 0 ==> first + count <= len,
            len == column.labels@.len(),
            labels == column@.labels,
            first < usize::MAX,
            draws(canvas.list@) == before + head + rows_drawn(
                size,
                x as int,
                room as nat,
                labels,
                selected,
                first as nat,
                k as nat,
            ),
        decreases count - k,
    {
        let row: usize = first + k;
        let shown = truncate_str(column.labels[row].as_str(), room);
        let is_selected = match selected {
            Some(chosen) => chosen == row,
            None => false,
        };
        let style = if is_selected {
            Style::Selected
        } else {
            Style::Plain
        };
        let ghost drawn = draws(canvas.list@);
        canvas.put(FIRST_ROW as i128 + k as i128, x, shown.as_str(), style);
        proof {
            let more = put(size, FIRST_ROW + k, x as int, shown@, style);
            assert(labels[row as int] == column.labels@[row as int]@);
            assert(rows_drawn(
                size,
                x as int,
                room as nat,
                labels,
                selected,
                first as nat,
                (k + 1) as nat,
            ) == rows_drawn(size, x as int, room as nat, labels, selected, first as nat, k as nat)
                + more);
            assert(before + head + (rows_drawn(
                size,
                x as int,
                room as nat,
                labels,
                selected,
                first as nat,
                k as nat,
            ) + more) =~= drawn + more);
        }
        k = k + 1;
    }
    let ghost drawn = draws(canvas.list@);
    if len > visible {
        let last: usize = if len - visible > first {
            first + visible
        } else {
            len
        };
        let range = truncate_str(range_words(first, last, len).as_str(), room);
        canvas.put(FIRST_ROW as i128 + visible as i128, x, range.as_str(), Style::Dim);
    } else {
        assert(drawn =~= drawn + Seq::<DrawView>::empty());
    }
}

/// Draws columns side by side. The column with the selection scrolls as far as
/// it takes to show it.
pub fn draw_columns(canvas: &mut Canvas, list: &Vec<Column>, selected_col: usize, selected_row: usize)
    requires
        selected_row < usize::MAX,
    ensures
        final(canvas).size == old(canvas).size,
        draws(final(canvas).list@) == draws(old(canvas).list@) + columns_drawn(
            old(canvas).size,
            columns_view(list@),
            selected_col,
            selected_row,
            list@.len(),
        ),
{
    let ghost before = draws(canvas.list@);
    let ghost size = canvas.size;
    let ghost all = columns_view(list@);
    let count: usize = list.len();
    let room_for_all: i128 = canvas.size.width as i128 - 4;
    let width: i128 = if count > 0 && room_for_all >= count as i128 {
        room_for_all / count as i128
    } else {
        1
    };
    let room: usize = if width > 3 {
        (width - 2) as usize
    } else {
        1
    };
    proof {
        if count > 0 && room_for_all >= count as i128 {
            assert(1 <= room_for_all as int / count as int <= room_for_all) by (nonlinear_arith)
                requires
                    count > 0,
                    room_for_all >= count,
            ;
        }
    }
    assert(before =~= before + columns_drawn(size, all, selected_col, selected_row, 0));
    let mut i: usize = 0;
    while i < count
        invariant
            canvas.size == size,
            i <= count,
            count == list@.len(),
            all == columns_view(list@),
            1 <= width <= 0x8000_0000,
            count > 0 ==> width == column_width(size, all.len()),
            room == text_width(width as int),
            selected_row < usize::MAX,
            draws(canvas.list@) == before + columns_drawn(
                size,
                all,
                selected_col,
                selected_row,
                i as nat,
            ),
        decreases count - i,
    {
        let selected = if i == selected_col {
            Some(selected_row)
        } else {
            None
        };
        assert(0 <= i as int * width as int <= 0x1_0000_0000_0000_0000 * 0x8000_0000)
            by (nonlinear_arith)
            requires
                0 <= i < 0x1_0000_0000_0000_0000,
                1 <= width <= 0x8000_0000,
        ;
        let x: i128 = 2 + i as i128 * width;
        let ghost drawn = draws(canvas.list@);
        draw_column(canvas, x, room, &list[i], selected);
        proof {
            let more = column_drawn(size, x as int, room as nat, list@[i as int]@, selected);
            assert(all[i as int] == list@[i as int]@);
            assert(selected == selected_in(i as int, selected_col, selected_row));
            assert(columns_drawn(size, all, selected_col, selected_row, (i + 1) as nat)
                == columns_drawn(size, all, selected_col, selected_row, i as nat) + more);
            assert(before + (columns_drawn(size, all, selected_col, selected_row, i as nat) + more)
                =~= drawn + more);
        }
        i = i + 1;
    }
}

/// The text that `str::to_uppercase` makes of `text`.
pub uninterp spec fn uppercase_text(text: Seq<char>) -> Seq<char>;

/// The uppercase of an ASCII character.
pub open spec fn ascii_uppercase(c: char) -> char {
    if 'a' <= c <= 'z' {
        (c as u8 - 32) as u8 as char
    } else {
        c
    }
}

/// `str::to_uppercase`: the result depends on the text alone, and in ASCII text
/// the letters from a to z become those from A to Z and nothing else changes.
/// What becomes of other characters, and how many they become, is not said.
#[verifier::external_body]
fn to_uppercase(text: &str) -> (upper: String)
    ensures
        upper@ == uppercase_text(text@),
        is_ascii_chars(text@) ==> upper@ == text@.map_values(|c: char| ascii_uppercase(c)),
{
    text.to_uppercase()
}

/// Whether the uppercase of `text`, if it is ASCII, changes the letters from a
/// to z alone.
pub open spec fn is_uppercased(text: Seq<char>) -> bool {
    is_ascii_chars(text) ==> uppercase_text(text) == text.map_values(
        |c: char| ascii_uppercase(c),
    )
}

/// Whether the timestamps in the names of all the snapshots have been read.
pub open spec fn are_read(groups: Seq<(Seq<char>, Seq<Seq<char>>)>) -> bool {
    forall|g: int, k: int|
        0 <= g < groups.len() && 0 <= k < groups[g].1.len() ==> is_read(#[trigger] groups[g].1[k])
}

/// Whether the names of all the groups have been turned into uppercase.
pub open spec fn are_uppercased(groups: Seq<(Seq<char>, Seq<Seq<char>>)>) -> bool {
    forall|g: int| 0 <= g < groups.len() ==> is_uppercased((#[trigger] groups[g]).0)
}

/// The heading of a column: the name of its subvolume and how many snapshots
/// it has.
pub open spec fn heading_text(upper: Seq<char>, count: nat) -> Seq<char> {
    upper + " ("@ + decimal(count) + ")"@
}

/// The labels of snapshots: their names, with their times if those are shown.
pub open spec fn labels_of(names: Seq<Seq<char>>, show_timestamps: bool) -> Seq<Seq<char>> {
    names.map_values(|name: Seq<char>| labelled(name, shown_time(show_timestamps, name)))
}

/// The columns for the snapshots of several subvolumes.
pub open spec fn group_columns(
    groups: Seq<(Seq<char>, Seq<Seq<char>>)>,
    show_timestamps: bool,
) -> Seq<ColumnView> {
    groups.map_values(
        |g: (Seq<char>, Seq<Seq<char>>)|
            ColumnView {
                heading: heading_text(uppercase_text(g.0), g.1.len()),
                labels: labels_of(g.1, show_timestamps),
            },
    )
}

/// The heading of a column.
pub fn column_heading(upper: &str, count: usize) -> (heading: String)
    ensures
        heading@ == heading_text(upper@, count as nat),
{
    let mut heading = upper.to_owned();
    heading.append(" (");
    let n = decimal_text(count as u64);
    heading.append(n.as_str());
    heading.append(")");
    heading
}

fn label_all(names: &Vec<String>, show_timestamps: bool) -> (labels: Vec<String>)
    ensures
        texts(labels@) == labels_of(texts(names@), show_timestamps),
        show_timestamps ==> forall|k: int|
            0 <= k < names@.len() ==> is_read((#[trigger] names@[k])@),
{
    let ghost want = labels_of(texts(names@), show_timestamps);
    let mut labels: Vec<String> = Vec::new();
    let mut i: usize = 0;
    assert(texts(labels@) =~= want.take(0));
    while i < names.len()
        invariant
            i <= names@.len(),
            want == labels_of(texts(names@), show_timestamps),
            texts(labels@) == want.take(i as int),
            show_timestamps ==> forall|k: int| 0 <= k < i ==> is_read((#[trigger] names@[k])@),
        decreases names@.len() - i,
    {
        let ghost labels0 = labels@;
        labels.push(format_snapshot_name(show_timestamps, names[i].as_str()));
        assert(texts(labels@) =~= texts(labels0).push(want[i as int]));
        assert(want.take(i + 1) =~= want.take(i as int).push(want[i as int]));
        i = i + 1;
    }
    assert(want.take(i as int) =~= want);
    labels
}

/// The columns for the snapshots of several subvolumes.
pub fn columns_for(groups: &SnapshotGroups, show_timestamps: bool) -> (list: Vec<Column>)
    ensures
        columns_view(list@) == group_columns(groups_view(groups@), show_timestamps),
        are_uppercased(groups_view(groups@)),
        show_timestamps ==> are_read(groups_view(groups@)),
{
    let ghost want = group_columns(groups_view(groups@), show_timestamps);
    let mut list: Vec<Column> = Vec::new();
    let mut i: usize = 0;
    assert(columns_view(list@) =~= want.take(0));
    while i < groups.len()
        invariant
            i <= groups@.len(),
            want == group_columns(groups_view(groups@), show_timestamps),
            columns_view(list@) == want.take(i as int),
            are_uppercased(groups_view(groups@.take(i as int))),
            show_timestamps ==> are_read(groups_view(groups@.take(i as int))),
        decreases groups@.len() - i,
    {
        let ghost list0 = list@;
        let upper = to_uppercase(groups[i].0.as_str());
        let heading = column_heading(upper.as_str(), groups[i].1.len());
        let labels = label_all(&groups[i].1, show_timestamps);
        let column = Column { heading, labels };
        assert(column@ == want[i as int]);
        list.push(column);
        assert(columns_view(list@) =~= columns_view(list0).push(want[i as int]));
        assert(want.take(i + 1) =~= want.take(i as int).push(want[i as int]));
        proof {
            let done = groups_view(groups@.take(i as int));
            let more = groups_view(groups@.take(i + 1));
            assert(more =~= done.push(groups_view(groups@)[i as int]));
            if show_timestamps {
                assert forall|g: int, k: int|
                    0 <= g < more.len() && 0 <= k < more[g].1.len() implies is_read(
                    #[trigger] more[g].1[k],
                ) by {
                    if g < i {
                        assert(more[g] == done[g]);
                        assert(is_read(done[g].1[k]));
                    } else {
                        assert(more[g].1[k] == groups@[i as int].1@[k]@);
                    }
                }
            }
        }
        i = i + 1;
    }
    assert(want.take(i as int) =~= want);
    assert(groups@.take(i as int) =~= groups@);
    list
}

/// The main screen between header and status row.
pub open spec fn main_screen(size: Size, v: AppView, list: Seq<ColumnView>) -> Seq<DrawView> {
    put(
        size,
        2,
        2,
        "Pool: "@ + v.config.btr_pool_dir + " | Snapshots: "@ + v.config.snapshots_dir,
        Style::Dim,
    ) + if list.len() == 0 {
        put_centered(size, half(size.height as int), "No snapshots found!"@, Style::Warning)
            + put_centered(
            size,
            half(size.height as int) + 1,
            "S: check the paths | I: create snapshots"@,
            Style::Dim,
        )
    } else {
        columns_drawn(size, list, v.selected_col, v.selected_row, list.len())
    }
}

/// The interface as it is shown on the main screen: its selection is inside
/// the groups, when there are any.
pub open spec fn shown_selection(v: AppView, groups: Seq<(String, Vec<String>)>) -> AppView {
    if groups.len() == 0 {
        v
    } else {
        v.within(groups)
    }
}

impl App {
    /// Draws the main screen.
    pub fn draw_main_screen(&mut self, canvas: &mut Canvas, groups: &SnapshotGroups)
        ensures
            final(self)@ == shown_selection(old(self)@, groups@),
            final(canvas).size == old(canvas).size,
            draws(final(canvas).list@) == draws(old(canvas).list@) + main_screen(
                old(canvas).size,
                final(self)@,
                group_columns(groups_view(groups@), old(self)@.config.show_timestamps),
            ),
            are_uppercased(groups_view(groups@)),
            old(self)@.config.show_timestamps ==> are_read(groups_view(groups@)),
    {
        let ghost before = draws(canvas.list@);
        let ghost size = canvas.size;
        let mut info = "Pool: ".to_owned();
        info.append(self.config.btr_pool_dir.as_str());
        info.append(" | Snapshots: ");
        info.append(self.config.snapshots_dir.as_str());
        canvas.put(2, 2, info.as_str(), Style::Dim);
        if groups.len() == 0 {
            let middle: i128 = halved(canvas.size.height);
            canvas.put_centered(middle, "No snapshots found!", Style::Warning);
            canvas.put_centered(
                middle + 1,
                "S: check the paths | I: create snapshots",
                Style::Dim,
            );
            assert(draws(canvas.list@) =~= before + main_screen(size, self@, Seq::empty()));
            assert(group_columns(groups_view(groups@), self@.config.show_timestamps)
                =~= Seq::empty());
            return ;
        }
        self.clamp_selection(groups);
        let list = columns_for(groups, self.config.show_timestamps);
        proof {
            assert(columns_view(list@).len() == groups@.len());
            if self.selected_col < groups@.len() {
                assert(groups@[self.selected_col as int].1.len() <= usize::MAX);
            }
        }
        draw_columns(canvas, &list, self.selected_col, self.selected_row);
        assert(draws(canvas.list@) =~= before + main_screen(size, self@, columns_view(list@)));
    }
}

// ---------------------------------------------------------------------------
// The settings screen

/// The label of an entry of the settings screen.
pub open spec fn setting_label(n: int) -> Seq<char> {
    if n == 0 {
        "BTR Pool Directory"@
    } else if n == 1 {
        "Snapshots Directory"@
    } else if n == 2 {
        "Auto Cleanup .BROKEN"@
    } else if n == 3 {
        "Confirm Actions"@
    } else {
        "Show Timestamps"@
    }
}

/// The value of an entry of the settings screen.
pub open spec fn setting_text(config: ConfigView, n: int) -> Seq<char> {
    if n == 0 {
        config.btr_pool_dir
    } else if n == 1 {
        config.snapshots_dir
    } else if n == 2 {
        yes_no(config.auto_cleanup)
    } else if n == 3 {
        yes_no(config.confirm_actions)
    } else {
        yes_no(config.show_timestamps)
    }
}

/// An entry of the settings screen, if there is room for it.
pub open spec fn setting_drawn(
    size: Size,
    label: Seq<char>,
    value: Seq<char>,
    n: int,
    selected: bool,
) -> Seq<DrawView> {
    let y = FIRST_ROW + 2 * n;
    let style = if selected {
        Style::Selected
    } else {
        Style::Plain
    };
    if y < size.height - 6 {
        put(size, y, 4, label + ":"@, style) + put(size, y + 1, 6, value, style)
    } else {
        Seq::empty()
    }
}

/// The first `n` entries of the settings screen.
pub open spec fn settings_drawn(
    size: Size,
    config: ConfigView,
    selected_row: usize,
    n: nat,
) -> Seq<DrawView>
    decreases n,
{
    if n == 0 {
        Seq::empty()
    } else {
        settings_drawn(size, config, selected_row, (n - 1) as nat) + setting_drawn(
            size,
            setting_label(n - 1),
            setting_text(config, n - 1),
            n - 1,
            n - 1 == selected_row,
        )
    }
}

/// Where the configuration is kept.
pub open spec fn config_rows(
    size: Size,
    path: Seq<char>,
    exists: bool,
    old_path: Option<Seq<char>>,
) -> Seq<DrawView> {
    put(
        size,
        size.height - 5,
        4,
        "Config: "@ + path + " ("@ + (if exists {
            "EXISTS"@
        } else {
            "NOT FOUND"@
        }) + ")"@,
        Style::Dim,
    ) + match old_path {
        Some(old_path) => put(
            size,
            size.height - 4,
            4,
            "Read from the old location "@ + old_path + ": saving moves it"@,
            Style::Dim,
        ),
        None => Seq::empty(),
    }
}

/// The settings screen between header and status row.
pub open spec fn settings_screen(
    size: Size,
    config: ConfigView,
    selected_row: usize,
    path: Seq<char>,
    exists: bool,
    old_path: Option<Seq<char>>,
) -> Seq<DrawView> {
    put(size, FIRST_ROW - 1, 4, "SETTINGS"@, Style::Heading) + settings_drawn(
        size,
        config,
        selected_row,
        SETTINGS_COUNT as nat,
    ) + config_rows(size, path, exists, old_path)
}

fn label_at(n: usize) -> (label: &'static str)
    ensures
        label@ == setting_label(n as int),
{
    match n {
        0 => "BTR Pool Directory",
        1 => "Snapshots Directory",
        2 => "Auto Cleanup .BROKEN",
        3 => "Confirm Actions",
        _ => "Show Timestamps",
    }
}

fn value_at(config: &Config, n: usize) -> (value: &str)
    ensures
        value@ == setting_text(config@, n as int),
{
    match n {
        0 => config.btr_pool_dir.as_str(),
        1 => config.snapshots_dir.as_str(),
        2 => yes_or_no(config.auto_cleanup),
        3 => yes_or_no(config.confirm_actions),
        _ => yes_or_no(config.show_timestamps),
    }
}

fn draw_setting(canvas: &mut Canvas, label: &str, value: &str, n: usize, selected: bool)
    ensures
        final(canvas).size == old(canvas).size,
        draws(final(canvas).list@) == draws(old(canvas).list@) + setting_drawn(
            old(canvas).size,
            label@,
            value@,
            n as int,
            selected,
        ),
{
    let ghost before = draws(canvas.list@);
    let y: i128 = FIRST_ROW as i128 + 2 * n as i128;
    if y < canvas.size.height as i128 - 6 {
        let style = if selected {
            Style::Selected
        } else {
            Style::Plain
        };
        let mut text = label.to_owned();
        text.append(":");
        canvas.put(y, 4, text.as_str(), style);
        canvas.put(y + 1, 6, value, style);
    }
    assert(draws(canvas.list@) =~= before + setting_drawn(
        canvas.size,
        label@,
        value@,
        n as int,
        selected,
    ));
}

/// Draws the settings screen: `path` is where the configuration is saved,
/// `old_path` the old location it was read from.
pub fn draw_settings(
    canvas: &mut Canvas,
    config: &Config,
    selected_row: usize,
    path: &str,
    exists: bool,
    old_path: Option<String>,
)
    ensures
        final(canvas).size == old(canvas).size,
        draws(final(canvas).list@) == draws(old(canvas).list@) + settings_screen(
            old(canvas).size,
            config@,
            selected_row,
            path@,
            exists,
            text_of(old_path),
        ),
{
    let ghost before = draws(canvas.list@);
    let ghost size = canvas.size;
    canvas.put(FIRST_ROW as i128 - 1, 4, "SETTINGS", Style::Heading);
    let ghost head = put(size, FIRST_ROW - 1, 4, "SETTINGS"@, Style::Heading);
    assert(draws(canvas.list@) =~= before + head + settings_drawn(size, config@, selected_row, 0));
    let mut i: usize = 0;
    while i < SETTINGS_COUNT
        invariant
            canvas.size == size,
            i <= SETTINGS_COUNT,
            draws(canvas.list@) == before + head + settings_drawn(
                size,
                config@,
                selected_row,
                i as nat,
            ),
        decreases SETTINGS_COUNT - i,
    {
        let ghost drawn = draws(canvas.list@);
        draw_setting(canvas, label_at(i), value_at(config, i), i, i == selected_row);
        proof {
            let more = setting_drawn(
                size,
                setting_label(i as int),
                setting_text(config@, i as int),
                i as int,
                i == selected_row,
            );
            assert(settings_drawn(size, config@, selected_row, (i + 1) as nat) == settings_drawn(
                size,
                config@,
                selected_row,
                i as nat,
            ) + more);
            assert(before + head + (settings_drawn(size, config@, selected_row, i as nat) + more)
                =~= drawn + more);
        }
        i = i + 1;
    }
    let ghost drawn = draws(canvas.list@);
    let height: i128 = canvas.size.height as i128;
    let mut info = "Config: ".to_owned();
    info.append(path);
    info.append(" (");
    if exists {
        info.append("EXISTS");
    } else {
        info.append("NOT FOUND");
    }
    info.append(")");
    canvas.put(height - 5, 4, info.as_str(), Style::Dim);
    if let Some(old_path) = &old_path {
        let mut note = "Read from the old location ".to_owned();
        note.append(old_path.as_str());
        note.append(": saving moves it");
        canvas.put(height - 4, 4, note.as_str(), Style::Dim);
    }
    assert(draws(canvas.list@) =~= drawn + config_rows(size, path@, exists, text_of(old_path)));
    assert(draws(canvas.list@) =~= before + settings_screen(
        size,
        config@,
        selected_row,
        path@,
        exists,
        text_of(old_path),
    ));
}

/// A path as it is shown, if there is one.
pub open spec fn shown_path(path: Option<Seq<u8>>) -> Option<Seq<char>> {
    match path {
        Some(path) => Some(lossy_text(path)),
        None => None,
    }
}

/// Whether the paths that are shown have been decoded: valid UTF-8 as it
/// stands.
pub open spec fn paths_are_decoded(v: AppView) -> bool {
    &&& is_text_of(v.config_path, lossy_text(v.config_path))
    &&& v.config_read_from matches Some(path) ==> is_text_of(path, lossy_text(path))
}

impl App {
    /// Draws the settings screen; `exists` says whether there is a
    /// configuration file.
    pub fn draw_settings_screen(&self, canvas: &mut Canvas, exists: bool)
        ensures
            final(canvas).size == old(canvas).size,
            draws(final(canvas).list@) == draws(old(canvas).list@) + settings_screen(
                old(canvas).size,
                self@.config,
                self@.selected_row,
                lossy_text(self@.config_path),
                exists,
                shown_path(self@.config_read_from),
            ),
            paths_are_decoded(self@),
    {
        let path = from_utf8_lossy(self.config_path.as_slice());
        let old_path = match &self.config_read_from {
            Some(old_path) => Some(from_utf8_lossy(old_path.as_slice())),
            None => None,
        };
        draw_settings(canvas, &self.config, self.selected_row, path.as_str(), exists, old_path);
    }
}

// ---------------------------------------------------------------------------
// The whole screen

/// What a screen shows between header and status row.
pub open spec fn body(
    size: Size,
    v: AppView,
    groups: Seq<(String, Vec<String>)>,
    config_exists: bool,
) -> Seq<DrawView> {
    match v.screen {
        Screen::Main => main_screen(
            size,
            shown_selection(v, groups),
            group_columns(groups_view(groups), v.config.show_timestamps),
        ),
        Screen::Settings => settings_screen(
            size,
            v.config,
            v.selected_row,
            lossy_text(v.config_path),
            config_exists,
            shown_path(v.config_read_from),
        ),
    }
}

/// The whole screen.
pub open spec fn whole_screen(
    size: Size,
    v: AppView,
    groups: Seq<(String, Vec<String>)>,
    config_exists: bool,
    now: u64,
) -> Seq<DrawView> {
    header(size) + body(size, v, groups, config_exists) + status_row(
        size,
        v.status,
        v.reboot_needed,
        now,
    ) + footer(size, v.screen, v.reboot_needed)
}

impl App {
    /// Draws the whole screen.
    pub fn draw_screen(
        &mut self,
        size: Size,
        groups: &SnapshotGroups,
        config_exists: bool,
        now: u64,
    ) -> (canvas: Canvas)
        ensures
            final(self)@ == (if old(self)@.screen == Screen::Main {
                shown_selection(old(self)@, groups@)
            } else {
                old(self)@
            }).with_expired_status(now),
            canvas.size == size,
            draws(canvas.list@) == whole_screen(size, old(self)@, groups@, config_exists, now),
            match old(self)@.screen {
                Screen::Main => are_uppercased(groups_view(groups@)) && (
                old(self)@.config.show_timestamps ==> are_read(groups_view(groups@))),
                Screen::Settings => paths_are_decoded(old(self)@),
            },
    {
        let ghost v = self@;
        let mut canvas = Canvas::new(size);
        draw_header(&mut canvas);
        assert(draws(canvas.list@) =~= header(size));
        match self.screen {
            Screen::Main => {
                self.draw_main_screen(&mut canvas, groups);
            },
            Screen::Settings => {
                self.draw_settings_screen(&mut canvas, config_exists);
            },
        }
        assert(draws(canvas.list@) =~= header(size) + body(size, v, groups@, config_exists));
        self.draw_status(&mut canvas, now);
        draw_footer(&mut canvas, self.screen, self.reboot_needed);
        canvas
    }
}

// ---------------------------------------------------------------------------
// Dialogs

/// The keys that a dialog understands.
pub open spec fn hint() -> Seq<char> {
    "Y: Yes | N: No"@
}

/// The length of the longest line.
pub open spec fn longest(ls: Seq<Seq<char>>) -> nat
    decreases ls.len(),
{
    if ls.len() == 0 {
        0
    } else {
        let rest = longest(ls.drop_last());
        if ls.last().len() > rest {
            ls.last().len()
        } else {
            rest
        }
    }
}

/// The width of a dialog on a screen with `room` columns: enough for its text
/// if the screen has that much, but never too small for a frame.
pub open spec fn dialog_width(room: nat, longest: nat) -> nat {
    let wanted = (if longest > 14 {
        longest
    } else {
        14
    }) + 6;
    let most = if room > 4 {
        (room - 4) as nat
    } else {
        0
    };
    let width = if wanted < most {
        wanted
    } else {
        most
    };
    if width > 8 {
        width
    } else {
        8
    }
}

/// A row of a dialog's frame.
pub open spec fn frame_row(edge: char, fill: char, inner: nat) -> Seq<char> {
    seq![edge] + repeat(fill, inner) + seq![edge]
}

/// The first `n` rows inside a dialog's frame, empty.
pub open spec fn blanks_drawn(size: Size, y: int, x: int, inner: nat, n: nat) -> Seq<DrawView>
    decreases n,
{
    if n == 0 {
        Seq::empty()
    } else {
        blanks_drawn(size, y, x, inner, (n - 1) as nat) + put(
            size,
            y + n,
            x,
            frame_row('|', ' ', inner),
            Style::Bold,
        )
    }
}

/// The first `n` lines of a dialog's text.
pub open spec fn lines_drawn(
    size: Size,
    y: int,
    x: int,
    room: nat,
    ls: Seq<Seq<char>>,
    n: nat,
) -> Seq<DrawView>
    decreases n,
{
    if n == 0 {
        Seq::empty()
    } else {
        lines_drawn(size, y, x, room, ls, (n - 1) as nat) + put(
            size,
            y + n,
            x + 3,
            truncate(ls[n - 1], room),
            Style::Plain,
        )
    }
}

/// A dialog in the middle of the screen: a frame with the lines of its text, a
/// free row and the hint.
pub open spec fn dialog(size: Size, message: Seq<char>) -> Seq<DrawView> {
    let ls = lines(message);
    let width = dialog_width(columns(size), longest(ls));
    let height = ls.len() + 4;
    let y = half(size.height as int) - height / 2;
    let x = if columns(size) > width {
        (columns(size) - width) / 2
    } else {
        0
    };
    let inner = (width - 2) as nat;
    let room = (width - 6) as nat;
    put(size, y, x, frame_row('+', '-', inner), Style::Bold) + blanks_drawn(
        size,
        y,
        x,
        inner,
        ls.len() + 2,
    ) + put(size, y + height - 1, x, frame_row('+', '-', inner), Style::Bold) + lines_drawn(
        size,
        y,
        x,
        room,
        ls,
        ls.len(),
    ) + put(size, y + height - 2, x + 3, truncate(hint(), room), Style::Plain)
}

/// What a key answers in a dialog.
pub open spec fn answer_of(key: i32) -> Option<bool> {
    if key == KEY_ESC {
        Some(false)
    } else if letter_of(key) == Some('y') {
        Some(true)
    } else if letter_of(key) == Some('n') {
        Some(false)
    } else {
        None
    }
}

/// What a key answers in a dialog, if it answers.
pub fn dialog_answer(key: i32) -> (answer: Option<bool>)
    ensures
        answer == answer_of(key),
{
    if key == KEY_ESC {
        return Some(false);
    }
    match key_char(key) {
        Some('y') => Some(true),
        Some('n') => Some(false),
        _ => None,
    }
}

fn longest_of(ls: &Vec<&[char]>) -> (n: usize)
    ensures
        n == longest(views(ls@)),
{
    let ghost all = views(ls@);
    let mut n: usize = 0;
    let mut i: usize = 0;
    assert(all.take(0) =~= Seq::empty());
    while i < ls.len()
        invariant
            i <= ls@.len(),
            all == views(ls@),
            n == longest(all.take(i as int)),
        decreases ls@.len() - i,
    {
        assert(all.take(i + 1).drop_last() =~= all.take(i as int));
        assert(all.take(i + 1).last() == ls@[i as int]@);
        if ls[i].len() > n {
            n = ls[i].len();
        }
        i = i + 1;
    }
    assert(all.take(i as int) =~= all);
    n
}

fn frame_text(edge: char, fill: char, inner: usize) -> (s: String)
    ensures
        s@ == frame_row(edge, fill, inner as nat),
{
    let mut s = String::new();
    s.push(edge);
    let filling = repeated(fill, inner);
    s.append(filling.as_str());
    s.push(edge);
    assert(s@ =~= frame_row(edge, fill, inner as nat));
    s
}

fn draw_blanks(canvas: &mut Canvas, y: i128, x: i128, inner: usize, n: i128)
    requires
        -0x1_0000_0000_0000_0000 <= y <= 0x1_0000_0000_0000_0000,
        0 <= n <= 0x2_0000_0000_0000_0000,
    ensures
        final(canvas).size == old(canvas).size,
        draws(final(canvas).list@) == draws(old(canvas).list@) + blanks_drawn(
            old(canvas).size,
            y as int,
            x as int,
            inner as nat,
            n as nat,
        ),
{
    let ghost before = draws(canvas.list@);
    let ghost size = canvas.size;
    let blank = frame_text('|', ' ', inner);
    let mut i: i128 = 0;
    assert(before =~= before + blanks_drawn(size, y as int, x as int, inner as nat, 0));
    while i < n
        invariant
            canvas.size == size,
            0 <= i <= n,
            -0x1_0000_0000_0000_0000 <= y <= 0x1_0000_0000_0000_0000,
            n <= 0x2_0000_0000_0000_0000,
            blank@ == frame_row('|', ' ', inner as nat),
            draws(canvas.list@) == before + blanks_drawn(
                size,
                y as int,
                x as int,
                inner as nat,
                i as nat,
            ),
        decreases n - i,
    {
        let ghost drawn = draws(canvas.list@);
        canvas.put(y + i + 1, x, blank.as_str(), Style::Bold);
        proof {
            let more = put(size, y + i + 1, x as int, blank@, Style::Bold);
            assert(blanks_drawn(size, y as int, x as int, inner as nat, (i + 1) as nat)
                == blanks_drawn(size, y as int, x as int, inner as nat, i as nat) + more);
            assert(before + (blanks_drawn(size, y as int, x as int, inner as nat, i as nat) + more)
                =~= drawn + more);
        }
        i = i + 1;
    }
}

fn draw_lines(canvas: &mut Canvas, y: i128, x: i128, room: usize, ls: &Vec<&[char]>)
    requires
        -0x1_0000_0000_0000_0000 <= y <= 0x1_0000_0000_0000_0000,
        0 <= x <= 0x8000_0000,
    ensures
        final(canvas).size == old(canvas).size,
        draws(final(canvas).list@) == draws(old(canvas).list@) + lines_drawn(
            old(canvas).size,
            y as int,
            x as int,
            room as nat,
            views(ls@),
            ls@.len(),
        ),
{
    let ghost before = draws(canvas.list@);
    let ghost size = canvas.size;
    let ghost all = views(ls@);
    let mut i: usize = 0;
    assert(before =~= before + lines_drawn(size, y as int, x as int, room as nat, all, 0));
    while i < ls.len()
        invariant
            canvas.size == size,
            i <= ls@.len(),
            all == views(ls@),
            -0x1_0000_0000_0000_0000 <= y <= 0x1_0000_0000_0000_0000,
            0 <= x <= 0x8000_0000,
            draws(canvas.list@) == before + lines_drawn(
                size,
                y as int,
                x as int,
                room as nat,
                all,
                i as nat,
            ),
        decreases ls@.len() - i,
    {
        let ghost drawn = draws(canvas.list@);
        let line = to_text(ls[i]);
        let shown = truncate_str(line.as_str(), room);
        canvas.put(y + 1 + i as i128, x + 3, shown.as_str(), Style::Plain);
        proof {
            let more = put(size, y + 1 + i, x + 3, shown@, Style::Plain);
            assert(all[i as int] == ls@[i as int]@);
            assert(lines_drawn(size, y as int, x as int, room as nat, all, (i + 1) as nat)
                == lines_drawn(size, y as int, x as int, room as nat, all, i as nat) + more);
            assert(before + (lines_drawn(size, y as int, x as int, room as nat, all, i as nat)
                + more) =~= drawn + more);
        }
        i = i + 1;
    }
}

fn dialog_columns(size: Size, len: usize) -> (width: i128)
    ensures
        width == dialog_width(columns(size), len as nat),
        8 <= width <= 0x8000_0000,
{
    let most: i128 = size.width as i128 - 4;
    let wanted: i128 = if len > 14 {
        len as i128 + 6
    } else {
        20
    };
    let width: i128 = if wanted < most {
        wanted
    } else {
        most
    };
    if width > 8 {
        width
    } else {
        8
    }
}

proof fn lemma_regroup(
    before: Seq<DrawView>,
    a: Seq<DrawView>,
    b: Seq<DrawView>,
    c: Seq<DrawView>,
    d: Seq<DrawView>,
    e: Seq<DrawView>,
)
    ensures
        before + a + b + c + d + e == before + (a + b + c + d + e),
{
    assert(before + a + b + c + d + e =~= before + (a + b + c + d + e));
}

/// Draws a dialog with a question.
pub fn draw_dialog(canvas: &mut Canvas, message: &str)
    ensures
        final(canvas).size == old(canvas).size,
        draws(final(canvas).list@) == draws(old(canvas).list@) + dialog(
            old(canvas).size,
            message@,
        ),
{
    let ghost before = draws(canvas.list@);
    let ghost size = canvas.size;
    let chars = to_chars(message);
    let ls = split_lines(chars.as_slice());
    let ghost all = lines(message@);
    let count: i128 = ls.len() as i128;
    let width: i128 = dialog_columns(canvas.size, longest_of(&ls));
    let height: i128 = count + 4;
    let y: i128 = halved(canvas.size.height) - height / 2;
    let x: i128 = if canvas.size.width as i128 > width {
        (canvas.size.width as i128 - width) / 2
    } else {
        0
    };
    let inner: usize = (width - 2) as usize;
    let room: usize = (width - 6) as usize;
    let border = frame_text('+', '-', inner);
    let hint_text = truncate_str("Y: Yes | N: No", room);
    canvas.put(y, x, border.as_str(), Style::Bold);
    draw_blanks(canvas, y, x, inner, count + 2);
    canvas.put(y + height - 1, x, border.as_str(), Style::Bold);
    draw_lines(canvas, y, x, room, &ls);
    canvas.put(y + height - 2, x + 3, hint_text.as_str(), Style::Plain);
    proof {
        lemma_regroup(
            before,
            put(size, y as int, x as int, border@, Style::Bold),
            blanks_drawn(size, y as int, x as int, inner as nat, all.len() + 2),
            put(size, y + height - 1, x as int, border@, Style::Bold),
            lines_drawn(size, y as int, x as int, room as nat, all, all.len()),
            put(size, y + height - 2, x + 3, hint_text@, Style::Plain),
        );
    }
}

// ---------------------------------------------------------------------------
// Editing a path

/// The form in which a path is entered.
pub open spec fn edit_form(size: Size, field: Seq<char>, current: Seq<char>) -> Seq<DrawView> {
    let middle = half(size.height as int);
    let blank = repeat(
        ' ',
        if size.width > 8 {
            (size.width - 8) as nat
        } else {
            0
        },
    );
    put(size, middle - 2, 4, blank, Style::Plain) + put(size, middle - 1, 4, blank, Style::Plain)
        + put(size, middle, 4, blank, Style::Plain) + put(
        size,
        middle + 1,
        4,
        blank,
        Style::Plain,
    ) + put(size, middle + 2, 4, blank, Style::Plain) + put(
        size,
        middle - 1,
        4,
        "Edit "@ + field + ": "@,
        Style::Plain,
    ) + put(size, middle, 4, "Current: "@ + current, Style::Plain) + put(
        size,
        middle + 1,
        4,
        "New: "@,
        Style::Plain,
    ) + put(size, middle + 3, 4, "Press ENTER to confirm, ESC to cancel"@, Style::Plain)
}

/// The room for the line being entered.
pub open spec fn input_width(size: Size) -> nat {
    if size.width > 14 {
        (size.width - 13) as nat
    } else {
        1
    }
}

/// The end of a line that does not fit: that is where one is writing.
pub open spec fn tail(input: Seq<char>, room: nat) -> Seq<char> {
    if input.len() > room {
        input.skip(input.len() - room)
    } else {
        input
    }
}

/// The line being entered.
pub open spec fn input_row(size: Size, input: Seq<char>) -> Seq<DrawView> {
    let y = half(size.height as int) + 1;
    put(size, y, 9, repeat(' ', input_width(size)), Style::Plain) + put(
        size,
        y,
        9,
        tail(input, input_width(size)),
        Style::Plain,
    )
}

/// Draws the form in which a path is entered.
pub fn draw_edit_form(canvas: &mut Canvas, field: &str, current: &str)
    ensures
        final(canvas).size == old(canvas).size,
        draws(final(canvas).list@) == draws(old(canvas).list@) + edit_form(
            old(canvas).size,
            field@,
            current@,
        ),
{
    let ghost before = draws(canvas.list@);
    let ghost size = canvas.size;
    let middle: i128 = halved(canvas.size.height);
    let free: usize = if canvas.size.width > 8 {
        (canvas.size.width - 8) as usize
    } else {
        0
    };
    let blank = repeated(' ', free);
    canvas.put(middle - 2, 4, blank.as_str(), Style::Plain);
    canvas.put(middle - 1, 4, blank.as_str(), Style::Plain);
    canvas.put(middle, 4, blank.as_str(), Style::Plain);
    canvas.put(middle + 1, 4, blank.as_str(), Style::Plain);
    canvas.put(middle + 2, 4, blank.as_str(), Style::Plain);
    let mut title = "Edit ".to_owned();
    title.append(field);
    title.append(": ");
    canvas.put(middle - 1, 4, title.as_str(), Style::Plain);
    let mut now = "Current: ".to_owned();
    now.append(current);
    canvas.put(middle, 4, now.as_str(), Style::Plain);
    canvas.put(middle + 1, 4, "New: ", Style::Plain);
    canvas.put(middle + 3, 4, "Press ENTER to confirm, ESC to cancel", Style::Plain);
    assert(draws(canvas.list@) =~= before + edit_form(size, field@, current@));
}

/// Draws the line being entered. Returns where the cursor goes.
pub fn draw_input(canvas: &mut Canvas, input: &[char]) -> (cursor: (i32, i32))
    ensures
        final(canvas).size == old(canvas).size,
        draws(final(canvas).list@) == draws(old(canvas).list@) + input_row(
            old(canvas).size,
            input@,
        ),
        cursor.0 == half(old(canvas).size.height as int) + 1,
        cursor.1 == 9 + tail(input@, input_width(old(canvas).size)).len(),
{
    let ghost before = draws(canvas.list@);
    let ghost size = canvas.size;
    let y: i128 = halved(canvas.size.height) + 1;
    let room: usize = if canvas.size.width > 14 {
        (canvas.size.width - 13) as usize
    } else {
        1
    };
    let len: usize = input.len();
    let from: usize = if len > room {
        len - room
    } else {
        0
    };
    let end = slice_subrange(input, from, len);
    assert(end@ =~= tail(input@, input_width(size)));
    let shown = to_text(end);
    canvas.put(y, 9, repeated(' ', room).as_str(), Style::Plain);
    canvas.put(y, 9, shown.as_str(), Style::Plain);
    assert(draws(canvas.list@) =~= before + input_row(size, input@));
    (y as i32, 9 + end.len() as i32)
}

// ---------------------------------------------------------------------------
// A run of btrbk

/// The row where the output of btrbk begins.
pub const OUTPUT_ROW: i32 = 8;

/// How many rows of output there are.
pub open spec fn output_height(size: Size) -> nat {
    if size.height > 13 {
        (size.height - 12) as nat
    } else {
        1
    }
}

/// The screen of a run, without output.
pub open spec fn run_screen(size: Size) -> Seq<DrawView> {
    header(size) + put_centered(size, 4, "Creating Snapshots with btrbk..."@, Style::Heading)
        + put_centered(size, 6, "Press ESC to cancel or wait for completion"@, Style::Dim)
        + put_separator(size, OUTPUT_ROW - 1) + put_separator(
        size,
        OUTPUT_ROW + output_height(size),
    )
}

/// The first `n` rows of the output, empty.
pub open spec fn output_blanks(size: Size, n: nat) -> Seq<DrawView>
    decreases n,
{
    if n == 0 {
        Seq::empty()
    } else {
        output_blanks(size, (n - 1) as nat) + put(
            size,
            OUTPUT_ROW + n - 1,
            0,
            repeat(' ', columns(size)),
            Style::Plain,
        )
    }
}

/// `n` lines of output, from the line `first` on.
pub open spec fn output_lines(size: Size, ls: Seq<Seq<char>>, first: nat, n: nat) -> Seq<DrawView>
    decreases n,
{
    if n == 0 {
        Seq::empty()
    } else {
        output_lines(size, ls, first, (n - 1) as nat) + put(
            size,
            OUTPUT_ROW + n - 1,
            0,
            ls[first + n - 1],
            Style::Plain,
        )
    }
}

/// The output: the last lines that fit, on rows that are cleared first.
pub open spec fn output_area(size: Size, ls: Seq<Seq<char>>) -> Seq<DrawView> {
    let room = output_height(size);
    let first = if ls.len() > room {
        (ls.len() - room) as nat
    } else {
        0
    };
    output_blanks(size, room) + output_lines(size, ls, first, (ls.len() - first) as nat)
}

fn output_rows(size: Size) -> (rows: usize)
    ensures
        rows == output_height(size),
{
    if size.height > 13 {
        (size.height - 12) as usize
    } else {
        1
    }
}

/// Draws the screen of a run.
pub fn draw_run_screen(canvas: &mut Canvas)
    ensures
        final(canvas).size == old(canvas).size,
        draws(final(canvas).list@) == draws(old(canvas).list@) + run_screen(old(canvas).size),
{
    let ghost before = draws(canvas.list@);
    let ghost size = canvas.size;
    draw_header(canvas);
    canvas.put_centered(4, "Creating Snapshots with btrbk...", Style::Heading);
    canvas.put_centered(6, "Press ESC to cancel or wait for completion", Style::Dim);
    canvas.put_separator(OUTPUT_ROW as i128 - 1);
    let rows: usize = output_rows(canvas.size);
    canvas.put_separator(OUTPUT_ROW as i128 + rows as i128);
    assert(draws(canvas.list@) =~= before + run_screen(size));
}

/// Draws the line below the output.
pub fn draw_run_message(canvas: &mut Canvas, text: &str, style: Style)
    ensures
        final(canvas).size == old(canvas).size,
        draws(final(canvas).list@) == draws(old(canvas).list@) + put_centered(
            old(canvas).size,
            old(canvas).size.height - 2,
            text@,
            style,
        ),
{
    canvas.put_centered(canvas.size.height as i128 - 2, text, style);
}

/// Draws the output: the last lines that fit. The whole area is cleared first,
/// so that nothing is left over when it scrolls.
pub fn render_output_area(canvas: &mut Canvas, ls: &Vec<String>)
    ensures
        final(canvas).size == old(canvas).size,
        draws(final(canvas).list@) == draws(old(canvas).list@) + output_area(
            old(canvas).size,
            texts(ls@),
        ),
{
    let ghost before = draws(canvas.list@);
    let ghost size = canvas.size;
    let ghost all = texts(ls@);
    let rows: usize = output_rows(canvas.size);
    let width: usize = if canvas.size.width > 0 {
        canvas.size.width as usize
    } else {
        0
    };
    let blank = repeated(' ', width);
    assert(before =~= before + output_blanks(size, 0));
    let mut i: usize = 0;
    while i < rows
        invariant
            canvas.size == size,
            i <= rows,
            blank@ == repeat(' ', columns(size)),
            draws(canvas.list@) == before + output_blanks(size, i as nat),
        decreases rows - i,
    {
        let ghost drawn = draws(canvas.list@);
        canvas.put(OUTPUT_ROW as i128 + i as i128, 0, blank.as_str(), Style::Plain);
        proof {
            let more = put(size, OUTPUT_ROW + i, 0, blank@, Style::Plain);
            assert(output_blanks(size, (i + 1) as nat) == output_blanks(size, i as nat) + more);
            assert(before + (output_blanks(size, i as nat) + more) =~= drawn + more);
        }
        i = i + 1;
    }
    let ghost cleared = draws(canvas.list@);
    let len: usize = ls.len();
    let first: usize = if len > rows {
        len - rows
    } else {
        0
    };
    assert(cleared =~= cleared + output_lines(size, all, first as nat, 0));
    let count: usize = len - first;
    let mut i: usize = 0;
    while i < count
        invariant
            canvas.size == size,
            i <= count,
            first + count == len,
            len == ls@.len(),
            all == texts(ls@),
            draws(canvas.list@) == cleared + output_lines(size, all, first as nat, i as nat),
        decreases count - i,
    {
        let ghost drawn = draws(canvas.list@);
        canvas.put(OUTPUT_ROW as i128 + i as i128, 0, ls[first + i].as_str(), Style::Plain);
        proof {
            let more = put(size, OUTPUT_ROW + i, 0, ls@[first + i]@, Style::Plain);
            assert(all[first + i] == ls@[first + i]@);
            assert(output_lines(size, all, first as nat, (i + 1) as nat) == output_lines(
                size,
                all,
                first as nat,
                i as nat,
            ) + more);
            assert(cleared + (output_lines(size, all, first as nat, i as nat) + more) =~= drawn
                + more);
        }
        i = i + 1;
    }
    assert(draws(canvas.list@) =~= before + output_area(size, all));
}

// ---------------------------------------------------------------------------
// Laws

/// The selected snapshot is always among those shown, however many there are
/// and however small the screen; and what the range below a column says is
/// what is shown.
pub proof fn law_selected_snapshot_is_shown(size: Size, row: usize, len: nat)
    requires
        row < len,
    ensures
        ({
            let visible = visible_rows(size);
            let first = first_shown(Some(row), visible);
            let count = shown_count(len, first, visible);
            &&& first <= row < first + count
            &&& first + count == if first + visible < len {
                first + visible
            } else {
                len
            }
        }),
{
}

proof fn lemma_both_on_screen(size: Size, a: Seq<DrawView>, b: Seq<DrawView>)
    requires
        all_on_screen(size, a),
        all_on_screen(size, b),
    ensures
        all_on_screen(size, a + b),
{
    assert forall|i: int| 0 <= i < (a + b).len() implies on_screen(size, #[trigger] (a + b)[i]) by {
        if i < a.len() {
            assert((a + b)[i] == a[i]);
        } else {
            assert((a + b)[i] == b[i - a.len()]);
        }
    }
}

proof fn lemma_put_on_screen(size: Size)
    ensures
        forall|y: int, x: int, text: Seq<char>, style: Style|
            all_on_screen(size, #[trigger] put(size, y, x, text, style)),
{
}

proof fn lemma_sums_on_screen(size: Size)
    ensures
        forall|a: Seq<DrawView>, b: Seq<DrawView>|
            all_on_screen(size, a) && all_on_screen(size, b) ==> all_on_screen(
                size,
                #[trigger] (a + b),
            ),
{
    assert forall|a: Seq<DrawView>, b: Seq<DrawView>|
        all_on_screen(size, a) && all_on_screen(size, b) implies all_on_screen(
        size,
        #[trigger] (a + b),
    ) by {
        lemma_both_on_screen(size, a, b);
    }
}

proof fn lemma_rows_on_screen(
    size: Size,
    x: int,
    room: nat,
    labels: Seq<Seq<char>>,
    selected: Option<usize>,
    first: nat,
    n: nat,
)
    ensures
        all_on_screen(size, rows_drawn(size, x, room, labels, selected, first, n)),
    decreases n,
{
    if n > 0 {
        lemma_rows_on_screen(size, x, room, labels, selected, first, (n - 1) as nat);
        lemma_put_on_screen(size);
        lemma_sums_on_screen(size);
    }
}

proof fn lemma_columns_on_screen(
    size: Size,
    list: Seq<ColumnView>,
    selected_col: usize,
    selected_row: usize,
    n: nat,
)
    ensures
        all_on_screen(size, columns_drawn(size, list, selected_col, selected_row, n)),
    decreases n,
{
    if n > 0 {
        lemma_columns_on_screen(size, list, selected_col, selected_row, (n - 1) as nat);
        let width = column_width(size, list.len());
        let column = list[n - 1];
        let x = 2 + (n - 1) * width;
        let selected = selected_in(n - 1, selected_col, selected_row);
        let visible = visible_rows(size);
        let first = first_shown(selected, visible);
        lemma_rows_on_screen(
            size,
            x,
            text_width(width),
            column.labels,
            selected,
            first,
            shown_count(column.labels.len(), first, visible),
        );
        lemma_put_on_screen(size);
        lemma_sums_on_screen(size);
        assert(all_on_screen(size, column_drawn(size, x, text_width(width), column, selected)));
    }
}

proof fn lemma_settings_on_screen(size: Size, config: ConfigView, selected_row: usize, n: nat)
    ensures
        all_on_screen(size, settings_drawn(size, config, selected_row, n)),
    decreases n,
{
    if n > 0 {
        lemma_settings_on_screen(size, config, selected_row, (n - 1) as nat);
        lemma_put_on_screen(size);
        lemma_sums_on_screen(size);
    }
}

/// Whatever the size of the terminal and whatever there is to show, everything
/// is drawn on the screen: nothing is out of bounds and nothing wraps.
pub proof fn law_any_terminal_size(
    size: Size,
    v: AppView,
    groups: Seq<(String, Vec<String>)>,
    config_exists: bool,
    now: u64,
)
    ensures
        all_on_screen(size, whole_screen(size, v, groups, config_exists, now)),
{
    lemma_put_on_screen(size);
    lemma_sums_on_screen(size);
    let list = group_columns(groups_view(groups), v.config.show_timestamps);
    let shown = shown_selection(v, groups);
    lemma_columns_on_screen(size, list, shown.selected_col, shown.selected_row, list.len());
    lemma_settings_on_screen(size, v.config, v.selected_row, SETTINGS_COUNT as nat);
    assert(all_on_screen(size, main_screen(size, shown, list)));
    assert(all_on_screen(size, body(size, v, groups, config_exists)));
}

proof fn lemma_blanks_on_screen(size: Size, y: int, x: int, inner: nat, n: nat)
    ensures
        all_on_screen(size, blanks_drawn(size, y, x, inner, n)),
    decreases n,
{
    if n > 0 {
        lemma_blanks_on_screen(size, y, x, inner, (n - 1) as nat);
        lemma_put_on_screen(size);
        lemma_sums_on_screen(size);
    }
}

proof fn lemma_lines_on_screen(
    size: Size,
    y: int,
    x: int,
    room: nat,
    ls: Seq<Seq<char>>,
    n: nat,
)
    ensures
        all_on_screen(size, lines_drawn(size, y, x, room, ls, n)),
    decreases n,
{
    if n > 0 {
        lemma_lines_on_screen(size, y, x, room, ls, (n - 1) as nat);
        lemma_put_on_screen(size);
        lemma_sums_on_screen(size);
    }
}

/// A dialog is drawn on the screen too, whatever its size and its text.
pub proof fn law_dialog_fits_any_terminal(size: Size, message: Seq<char>)
    ensures
        all_on_screen(size, dialog(size, message)),
{
    lemma_put_on_screen(size);
    lemma_sums_on_screen(size);
    let ls = lines(message);
    let width = dialog_width(columns(size), longest(ls));
    let height = ls.len() + 4;
    let y = half(size.height as int) - height / 2;
    let x = if columns(size) > width {
        (columns(size) - width) / 2
    } else {
        0
    };
    lemma_blanks_on_screen(size, y, x, (width - 2) as nat, ls.len() + 2);
    lemma_lines_on_screen(size, y, x, (width - 6) as nat, ls, ls.len());
}

// ---------------------------------------------------------------------------
// What is shown where, said of the screen and the snapshots

/// A message is shown while it lasts; without one, a warning is as long as a
/// reboot is called for; else the row stays free.
pub proof fn law_status_row_warns_of_a_reboot(
    size: Size,
    status: StatusView,
    reboot_needed: bool,
    now: u64,
)
    ensures
        now - status.since < status.lasting ==> status_row(size, Some(status), reboot_needed, now)
            == put(size, size.height - 3, 0, status.message, Style::Info),
        now - status.since >= status.lasting ==> status_row(size, Some(status), reboot_needed, now)
            == status_row(size, None, reboot_needed, now),
        status_row(size, None, true, now) == put(
            size,
            size.height - 3,
            0,
            "WARNING: REBOOT REQUIRED - Press H to reboot system"@,
            Style::Warning,
        ),
        status_row(size, None, false, now).len() == 0,
{
}

/// The header is the title in the first row and a line below it; the footer is
/// a line and, in the last row, the keys.
pub proof fn law_header_and_footer_are_at_the_edges(
    size: Size,
    screen: Screen,
    reboot_needed: bool,
)
    ensures
        header(size) == put(
            size,
            0,
            0,
            centered("BTRBK TUI v"@ + "2.8.0"@, columns(size)),
            Style::StatusBarBold,
        ) + put_separator(size, 1),
        footer(size, screen, reboot_needed) == put_separator(size, size.height - 2) + put(
            size,
            size.height - 1,
            0,
            footer_text(screen, reboot_needed),
            Style::StatusBar,
        ),
        footer_text(Screen::Main, false)
            == "Up/Down: Navigate | Left/Right: Switch | ENTER: Restore | S: Settings | R: Refresh | I: Snapshot | P: Purge OLD | B: Clean BROKEN"@
            + " | Q: Quit"@,
        footer_text(Screen::Main, true)
            == "Up/Down: Navigate | Left/Right: Switch | ENTER: Restore | S: Settings | R: Refresh | I: Snapshot | P: Purge OLD | B: Clean BROKEN"@
            + " | H: REBOOT"@ + " | Q: Quit"@,
        footer_text(Screen::Settings, reboot_needed)
            == "Up/Down: Navigate | ENTER: Edit | SPACE: Toggle | S: Save | ESC: Back | Q: Quit"@,
{
    let keys =
        "Up/Down: Navigate | Left/Right: Switch | ENTER: Restore | S: Settings | R: Refresh | I: Snapshot | P: Purge OLD | B: Clean BROKEN"@;
    assert(keys + Seq::empty() =~= keys);
}

/// The columns share the width of the screen but for two columns at each edge,
/// as much as each can have, and leave two free between them.
pub proof fn law_columns_share_the_width(size: Size, count: nat, width: int)
    requires
        count > 0,
    ensures
        size.width - 4 < count ==> column_width(size, count) == 1,
        size.width - 4 >= count ==> {
            let w = column_width(size, count);
            w >= 1 && w * count <= size.width - 4 < (w + 1) * count
        },
        width > 3 ==> text_width(width) == width - 2,
        width <= 3 ==> text_width(width) == 1,
{
    if size.width - 4 >= count {
        let (room, n) = (size.width - 4, count as int);
        vstd::arithmetic::div_mod::lemma_fundamental_div_mod(room, n);
        vstd::arithmetic::div_mod::lemma_mod_bound(room, n);
        let w = room / n;
        assert(w * n == n * w) by (nonlinear_arith);
        assert((w + 1) * n == w * n + n) by (nonlinear_arith);
        assert(w >= 1) by (nonlinear_arith)
            requires
                n > 0,
                room >= n,
                w == room / n,
        ;
    }
}

/// As many snapshots are shown as there are rows for, from the first on, or from
/// as far down as the selection needs.
pub proof fn law_lists_scroll_to_the_selection(size: Size, row: usize, len: nat, first: nat)
    ensures
        size.height > 10 ==> visible_rows(size) == size.height - 9,
        size.height <= 10 ==> visible_rows(size) == 1,
        first_shown(None, visible_rows(size)) == 0,
        row < visible_rows(size) ==> first_shown(Some(row), visible_rows(size)) == 0,
        row >= visible_rows(size) ==> first_shown(Some(row), visible_rows(size))
            + visible_rows(size) == row + 1,
        first <= len ==> shown_count(len, first, visible_rows(size)) == if len - first
            < visible_rows(size) {
            len - first
        } else {
            visible_rows(size) as int
        },
        FIRST_ROW == 4,
{
}

/// The snapshots of a column stand below each other from the fifth row on, each
/// cut to the width of the column; the selected one, and no other, is marked.
pub proof fn law_snapshots_stand_below_each_other(
    size: Size,
    x: int,
    room: nat,
    labels: Seq<Seq<char>>,
    selected: Option<usize>,
    first: nat,
    n: nat,
    k: int,
)
    requires
        0 <= k < n,
        0 <= x < size.width,
        4 + n <= size.height,
    ensures
        rows_drawn(size, x, room, labels, selected, first, n).len() == n,
        rows_drawn(size, x, room, labels, selected, first, n)[k] == (DrawView {
            y: 4 + k,
            x,
            text: truncate(truncate(labels[first + k], room), (size.width - x) as nat),
            style: if selected == Some((first + k) as usize) && first + k <= usize::MAX {
                Style::Selected
            } else {
                Style::Plain
            },
        }),
    decreases n,
{
    if n == 1 {
        assert(rows_drawn(size, x, room, labels, selected, first, 0).len() == 0);
    } else if k < n - 1 {
        law_snapshots_stand_below_each_other(
            size,
            x,
            room,
            labels,
            selected,
            first,
            (n - 1) as nat,
            k,
        );
    } else {
        law_snapshots_stand_below_each_other(
            size,
            x,
            room,
            labels,
            selected,
            first,
            (n - 1) as nat,
            0,
        );
    }
}

/// A column is its heading, the snapshots that are shown, and, if there are
/// more, which ones they are.
pub proof fn law_columns_have_heading_snapshots_and_range(
    size: Size,
    x: int,
    room: nat,
    column: ColumnView,
    selected: Option<usize>,
)
    ensures
        ({
            let visible = visible_rows(size);
            let first = first_shown(selected, visible);
            let len = column.labels.len();
            let last = if first + visible < len {
                first + visible
            } else {
                len
            };
            column_drawn(size, x, room, column, selected) == put(
                size,
                3,
                x,
                truncate(column.heading, room),
                Style::Heading,
            ) + rows_drawn(
                size,
                x,
                room,
                column.labels,
                selected,
                first,
                shown_count(len, first, visible),
            ) + if len > visible {
                put(
                    size,
                    4int + visible,
                    x,
                    truncate(
                        "["@ + decimal(first + 1) + "-"@ + decimal(last) + " of "@ + decimal(len)
                            + "]"@,
                        room,
                    ),
                    Style::Dim,
                )
            } else {
                Seq::empty()
            }
        }),
{
}

/// The columns stand beside each other in order, with the selection in the
/// selected one only.
pub proof fn law_columns_stand_beside_each_other(
    size: Size,
    list: Seq<ColumnView>,
    col: usize,
    row: usize,
    n: nat,
)
    requires
        n < list.len(),
    ensures
        columns_drawn(size, list, col, row, 0).len() == 0,
        columns_drawn(size, list, col, row, n + 1) == columns_drawn(size, list, col, row, n)
            + column_drawn(
            size,
            2 + n * column_width(size, list.len()),
            text_width(column_width(size, list.len())),
            list[n as int],
            if n == col {
                Some(row)
            } else {
                None
            },
        ),
{
}

/// Whether all that is marked in `list` begins like `label`.
pub open spec fn marks_only(list: Seq<DrawView>, label: Seq<char>) -> bool {
    forall|i: int|
        0 <= i < list.len() && (#[trigger] list[i]).style == Style::Selected ==> list[i].text
            == label.take(list[i].text.len() as int) && list[i].text.len() <= label.len()
}

proof fn lemma_marks_both(a: Seq<DrawView>, b: Seq<DrawView>, label: Seq<char>)
    requires
        marks_only(a, label),
        marks_only(b, label),
    ensures
        marks_only(a + b, label),
{
    let list = a + b;
    assert forall|i: int|
        0 <= i < list.len() && (#[trigger] list[i]).style == Style::Selected implies list[i].text
        == label.take(list[i].text.len() as int) && list[i].text.len() <= label.len() by {
        if i < a.len() {
            assert(list[i] == a[i]);
        } else {
            assert(list[i] == b[i - a.len()]);
        }
    }
}

proof fn lemma_rows_mark(
    size: Size,
    x: int,
    room: nat,
    labels: Seq<Seq<char>>,
    selected: Option<usize>,
    first: nat,
    n: nat,
    label: Seq<char>,
)
    requires
        selected matches Some(row) ==> (first <= row < first + n ==> labels[row as int] == label),
    ensures
        marks_only(rows_drawn(size, x, room, labels, selected, first, n), label),
    decreases n,
{
    if n > 0 {
        let m = (n - 1) as nat;
        lemma_rows_mark(size, x, room, labels, selected, first, m, label);
        let shown = truncate(labels[first + n - 1], room);
        let style = if selected is Some && selected->0 == first + n - 1 {
            Style::Selected
        } else {
            Style::Plain
        };
        let one = put(size, FIRST_ROW + n - 1, x, shown, style);
        if one.len() > 0 && one[0].style == Style::Selected {
            let text = one[0].text;
            assert(text =~= label.take(text.len() as int));
        }
        lemma_marks_both(rows_drawn(size, x, room, labels, selected, first, m), one, label);
    }
}

proof fn lemma_columns_mark(
    size: Size,
    list: Seq<ColumnView>,
    col: usize,
    row: usize,
    n: nat,
    label: Seq<char>,
)
    requires
        n <= list.len(),
        col < list.len() ==> row < list[col as int].labels.len() && list[col as int].labels[row as int]
            == label,
    ensures
        marks_only(columns_drawn(size, list, col, row, n), label),
    decreases n,
{
    if n > 0 {
        let m = (n - 1) as nat;
        lemma_columns_mark(size, list, col, row, m, label);
        let width = column_width(size, list.len());
        let x = 2 + m * width;
        let room = text_width(width);
        let column = list[m as int];
        let selected = selected_in(m as int, col, row);
        let visible = visible_rows(size);
        let first = first_shown(selected, visible);
        let len = column.labels.len();
        let rows = rows_drawn(
            size,
            x,
            room,
            column.labels,
            selected,
            first,
            shown_count(len, first, visible),
        );
        lemma_rows_mark(
            size,
            x,
            room,
            column.labels,
            selected,
            first,
            shown_count(len, first, visible),
            label,
        );
        let heading = put(
            size,
            FIRST_ROW - 1,
            x,
            truncate(column.heading, room),
            Style::Heading,
        );
        let range = range_row(size, x, room, len, first, visible);
        lemma_marks_both(heading, rows, label);
        lemma_marks_both(heading + rows, range, label);
        lemma_marks_both(
            columns_drawn(size, list, col, row, m),
            column_drawn(size, x, room, column, selected),
            label,
        );
    }
}

/// Nothing but the selected snapshot is marked: what is marked begins like its
/// label, in the column and the row that are selected.
pub proof fn law_only_the_selected_snapshot_is_marked(
    size: Size,
    list: Seq<ColumnView>,
    col: usize,
    row: usize,
    i: int,
)
    requires
        col < list.len(),
        row < list[col as int].labels.len(),
        0 <= i < columns_drawn(size, list, col, row, list.len()).len(),
        columns_drawn(size, list, col, row, list.len())[i].style == Style::Selected,
    ensures
        columns_drawn(size, list, col, row, list.len())[i].text.is_prefix_of(
            list[col as int].labels[row as int],
        ),
{
    let label = list[col as int].labels[row as int];
    lemma_columns_mark(size, list, col, row, list.len(), label);
}

/// Each subvolume has a column with its name in capitals and the number of its
/// snapshots, and the labels of its snapshots in their order.
pub proof fn law_columns_are_those_of_the_subvolumes(
    groups: Seq<(Seq<char>, Seq<Seq<char>>)>,
    show_timestamps: bool,
    g: int,
    i: int,
)
    requires
        0 <= g < groups.len(),
    ensures
        group_columns(groups, show_timestamps).len() == groups.len(),
        group_columns(groups, show_timestamps)[g].heading == uppercase_text(groups[g].0) + " ("@
            + decimal(groups[g].1.len()) + ")"@,
        group_columns(groups, show_timestamps)[g].labels.len() == groups[g].1.len(),
        0 <= i < groups[g].1.len() ==> group_columns(groups, show_timestamps)[g].labels[i]
            == labelled(groups[g].1[i], shown_time(show_timestamps, groups[g].1[i])),
{
}

/// The main screen shows the paths in use and the columns, or what to do when
/// there is nothing to show.
pub proof fn law_main_screen_shows_paths_and_columns(
    size: Size,
    v: AppView,
    list: Seq<ColumnView>,
    groups: Seq<(String, Vec<String>)>,
)
    ensures
        ({
            let paths = put(
                size,
                2,
                2,
                "Pool: "@ + v.config.btr_pool_dir + " | Snapshots: "@ + v.config.snapshots_dir,
                Style::Dim,
            );
            &&& list.len() > 0 ==> main_screen(size, v, list) == paths + columns_drawn(
                size,
                list,
                v.selected_col,
                v.selected_row,
                list.len(),
            )
            &&& list.len() == 0 ==> main_screen(size, v, list) == paths + (put_centered(
                size,
                half(size.height as int),
                "No snapshots found!"@,
                Style::Warning,
            ) + put_centered(
                size,
                half(size.height as int) + 1,
                "S: check the paths | I: create snapshots"@,
                Style::Dim,
            ))
        }),
        groups.len() > 0 ==> shown_selection(v, groups) == v.within(groups),
        groups.len() == 0 ==> shown_selection(v, groups) == v,
{
}

/// Each setting is shown with its own name and value, two rows apart, if there
/// is room for it, and marked if it is selected.
pub proof fn law_settings_show_their_values(size: Size, config: ConfigView, row: usize, n: nat)
    requires
        n < 5,
    ensures
        settings_drawn(size, config, row, 0).len() == 0,
        ({
            let label = if n == 0 {
                "BTR Pool Directory"@
            } else if n == 1 {
                "Snapshots Directory"@
            } else if n == 2 {
                "Auto Cleanup .BROKEN"@
            } else if n == 3 {
                "Confirm Actions"@
            } else {
                "Show Timestamps"@
            };
            let on = if n == 2 {
                config.auto_cleanup
            } else if n == 3 {
                config.confirm_actions
            } else {
                config.show_timestamps
            };
            let value = if n == 0 {
                config.btr_pool_dir
            } else if n == 1 {
                config.snapshots_dir
            } else if on {
                "Yes"@
            } else {
                "No"@
            };
            let style = if n == row {
                Style::Selected
            } else {
                Style::Plain
            };
            settings_drawn(size, config, row, n + 1) == settings_drawn(size, config, row, n) + if 4
                + 2 * n < size.height - 6 {
                put(size, 4int + 2 * n, 4, label + ":"@, style) + put(
                    size,
                    5int + 2 * n,
                    6,
                    value,
                    style,
                )
            } else {
                Seq::empty()
            }
        }),
{
}

/// The settings screen shows the settings and where they are saved, whether
/// that file exists, and the old location they were read from.
pub proof fn law_settings_screen_shows_the_file(
    size: Size,
    config: ConfigView,
    row: usize,
    path: Seq<char>,
    exists: bool,
    old: Seq<char>,
)
    ensures
        ({
            let heading = put(size, 3, 4, "SETTINGS"@, Style::Heading);
            let file = put(
                size,
                size.height - 5,
                4,
                "Config: "@ + path + " ("@ + (if exists {
                    "EXISTS"@
                } else {
                    "NOT FOUND"@
                }) + ")"@,
                Style::Dim,
            );
            let moved = put(
                size,
                size.height - 4,
                4,
                "Read from the old location "@ + old + ": saving moves it"@,
                Style::Dim,
            );
            &&& settings_screen(size, config, row, path, exists, None) == heading + settings_drawn(
                size,
                config,
                row,
                5,
            ) + (file + Seq::empty())
            &&& settings_screen(size, config, row, path, exists, Some(old)) == heading
                + settings_drawn(size, config, row, 5) + (file + moved)
        }),
{
}

/// The whole screen is header, the screen that is open, status and footer.
pub proof fn law_the_open_screen_is_shown(
    size: Size,
    v: AppView,
    groups: Seq<(String, Vec<String>)>,
    config_exists: bool,
    now: u64,
)
    ensures
        v.screen == Screen::Main ==> whole_screen(size, v, groups, config_exists, now) == header(
            size,
        ) + main_screen(
            size,
            shown_selection(v, groups),
            group_columns(groups_view(groups), v.config.show_timestamps),
        ) + status_row(size, v.status, v.reboot_needed, now) + footer(
            size,
            Screen::Main,
            v.reboot_needed,
        ),
        v.screen == Screen::Settings ==> whole_screen(size, v, groups, config_exists, now)
            == header(size) + settings_screen(
            size,
            v.config,
            v.selected_row,
            lossy_text(v.config_path),
            config_exists,
            match v.config_read_from {
                Some(path) => Some(lossy_text(path)),
                None => None,
            },
        ) + status_row(size, v.status, v.reboot_needed, now) + footer(
            size,
            Screen::Settings,
            v.reboot_needed,
        ),
{
}

/// A dialog is answered by Y, and refused by N and Escape; any other key leaves
/// it open.
pub proof fn law_dialogs_are_answered_by_y_and_n(key: i32)
    ensures
        answer_of(key) == Some(true) <==> key == 'y' as int || key == 'Y' as int,
        answer_of(key) == Some(false) <==> key == 'n' as int || key == 'N' as int || key == 27,
{
}

/// The longest line is as long as one of them, and none is longer.
pub proof fn law_longest_is_the_length_of_a_line(ls: Seq<Seq<char>>)
    ensures
        forall|i: int| 0 <= i < ls.len() ==> (#[trigger] ls[i]).len() <= longest(ls),
        ls.len() > 0 ==> exists|i: int| 0 <= i < ls.len() && (#[trigger] ls[i]).len() == longest(
            ls,
        ),
        ls.len() == 0 ==> longest(ls) == 0,
    decreases ls.len(),
{
    if ls.len() > 0 {
        let init = ls.drop_last();
        law_longest_is_the_length_of_a_line(init);
        assert forall|i: int| 0 <= i < ls.len() implies (#[trigger] ls[i]).len() <= longest(
            ls,
        ) by {
            if i < init.len() {
                assert(init[i].len() <= longest(init));
            }
        }
        if ls.last().len() > longest(init) || init.len() == 0 {
            assert(ls[ls.len() - 1].len() == longest(ls));
        } else {
            let i = choose|i: int|
                0 <= i < init.len() && (#[trigger] init[i]).len() == longest(init);
            assert(ls[i].len() == longest(ls));
        }
    }
}

/// A dialog is wide enough for its text and the keys, if the screen leaves it
/// two columns on each side, and never narrower than eight.
pub proof fn law_dialogs_have_room_for_their_text(room: nat, longest: nat)
    ensures
        dialog_width(room, longest) >= 8,
        room >= 12 ==> dialog_width(room, longest) <= room - 4,
        room >= longest + 10 && room >= 24 ==> dialog_width(room, longest) == if longest > 14 {
            longest + 6
        } else {
            20
        },
        room >= 12 && (room < longest + 10 || room < 24) ==> dialog_width(room, longest) == room
            - 4,
{
}

/// A dialog is a frame in the middle of the screen with the lines of the
/// question in it, a free row and the keys.
pub proof fn law_dialogs_frame_the_question(size: Size, message: Seq<char>)
    ensures
        ({
            let ls = lines(message);
            let n = ls.len();
            let width = dialog_width(columns(size), longest(ls));
            let y = half(size.height as int) - (n + 4) / 2;
            let x = if columns(size) > width {
                (columns(size) - width) / 2
            } else {
                0
            };
            let edge = seq!['+'] + repeat('-', (width - 2) as nat) + seq!['+'];
            dialog(size, message) == put(size, y, x, edge, Style::Bold) + blanks_drawn(
                size,
                y,
                x,
                (width - 2) as nat,
                n + 2,
            ) + put(size, y + n + 3, x, edge, Style::Bold) + lines_drawn(
                size,
                y,
                x,
                (width - 6) as nat,
                ls,
                n,
            ) + put(
                size,
                y + n + 2,
                x + 3,
                truncate("Y: Yes | N: No"@, (width - 6) as nat),
                Style::Plain,
            )
        }),
{
}

/// The rows of a dialog stand below each other: empty ones with the sides of
/// the frame, and the lines of the question in them.
pub proof fn law_rows_of_a_dialog_stand_below_each_other(
    size: Size,
    y: int,
    x: int,
    width: nat,
    ls: Seq<Seq<char>>,
    n: nat,
)
    requires
        n < ls.len(),
    ensures
        blanks_drawn(size, y, x, width, 0).len() == 0,
        blanks_drawn(size, y, x, width, n + 1) == blanks_drawn(size, y, x, width, n) + put(
            size,
            y + n + 1,
            x,
            seq!['|'] + repeat(' ', width) + seq!['|'],
            Style::Bold,
        ),
        lines_drawn(size, y, x, width, ls, 0).len() == 0,
        lines_drawn(size, y, x, width, ls, n + 1) == lines_drawn(size, y, x, width, ls, n) + put(
            size,
            y + n + 1,
            x + 3,
            truncate(ls[n as int], width),
            Style::Plain,
        ),
{
}

/// The form for a path shows which setting is edited, its value and where to
/// type, in the middle of the screen, over what was there.
pub proof fn law_form_shows_what_is_edited(size: Size, field: Seq<char>, current: Seq<char>)
    ensures
        ({
            let middle = half(size.height as int);
            let blank = repeat(
                ' ',
                if size.width > 8 {
                    (size.width - 8) as nat
                } else {
                    0
                },
            );
            edit_form(size, field, current) == put(size, middle - 2, 4, blank, Style::Plain) + put(
                size,
                middle - 1,
                4,
                blank,
                Style::Plain,
            ) + put(size, middle, 4, blank, Style::Plain) + put(
                size,
                middle + 1,
                4,
                blank,
                Style::Plain,
            ) + put(size, middle + 2, 4, blank, Style::Plain) + put(
                size,
                middle - 1,
                4,
                "Edit "@ + field + ": "@,
                Style::Plain,
            ) + put(size, middle, 4, "Current: "@ + current, Style::Plain) + put(
                size,
                middle + 1,
                4,
                "New: "@,
                Style::Plain,
            ) + put(
                size,
                middle + 3,
                4,
                "Press ENTER to confirm, ESC to cancel"@,
                Style::Plain,
            )
        }),
{
}

/// Of what is typed the end is shown, as much as fits behind "New: ".
pub proof fn law_end_of_the_input_is_shown(size: Size, input: Seq<char>, room: nat)
    ensures
        tail(input, room).len() <= room || room == 0,
        input.len() <= room ==> tail(input, room) == input,
        input.len() > room ==> tail(input, room).len() == room && tail(input, room) == input.skip(
            input.len() - room,
        ),
        size.width > 14 ==> input_width(size) == size.width - 13,
        size.width <= 14 ==> input_width(size) == 1,
        input_row(size, input) == put(
            size,
            half(size.height as int) + 1,
            9,
            repeat(' ', input_width(size)),
            Style::Plain,
        ) + put(
            size,
            half(size.height as int) + 1,
            9,
            tail(input, input_width(size)),
            Style::Plain,
        ),
{
}

/// While btrbk runs, its last lines are shown, as many as there are rows for,
/// below the title.
pub proof fn law_last_lines_of_output_are_shown(size: Size, ls: Seq<Seq<char>>, first: nat, n: nat)
    ensures
        size.height > 13 ==> output_height(size) == size.height - 12,
        size.height <= 13 ==> output_height(size) == 1,
        OUTPUT_ROW == 8,
        ls.len() <= output_height(size) ==> output_area(size, ls) == output_blanks(
            size,
            output_height(size),
        ) + output_lines(size, ls, 0, ls.len()),
        ls.len() > output_height(size) ==> output_area(size, ls) == output_blanks(
            size,
            output_height(size),
        ) + output_lines(
            size,
            ls,
            (ls.len() - output_height(size)) as nat,
            output_height(size),
        ),
        output_blanks(size, 0).len() == 0,
        output_blanks(size, n + 1) == output_blanks(size, n) + put(
            size,
            8int + n,
            0,
            repeat(' ', columns(size)),
            Style::Plain,
        ),
        output_lines(size, ls, first, 0).len() == 0,
        output_lines(size, ls, first, n + 1) == output_lines(size, ls, first, n) + put(
            size,
            8int + n,
            0,
            ls[(first + n) as int],
            Style::Plain,
        ),
        run_screen(size) == header(size) + put_centered(
            size,
            4,
            "Creating Snapshots with btrbk..."@,
            Style::Heading,
        ) + put_centered(size, 6, "Press ESC to cancel or wait for completion"@, Style::Dim)
            + put_separator(size, 7) + put_separator(size, 8int + output_height(size)),
{
}

/// The capitals of ASCII letters are 32 codes before them; anything else stays.
pub proof fn law_capitals_of_ascii(c: char)
    ensures
        'a' <= c <= 'z' ==> 'A' <= ascii_uppercase(c) <= 'Z' && ascii_uppercase(c) as int + 32
            == c as int,
        !('a' <= c <= 'z') ==> ascii_uppercase(c) == c,
{
}

/// The views of columns show their fields.
pub proof fn law_views_of_columns_show_their_fields(list: Seq<Column>, i: int)
    requires
        0 <= i < list.len(),
    ensures
        columns_view(list).len() == list.len(),
        columns_view(list)[i].heading == list[i].heading@,
        columns_view(list)[i].labels == texts(list[i].labels@),
{
}

} // verus!
