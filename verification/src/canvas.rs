//! Drawing on a character screen: everything goes through one helper that
//! clips to the screen, so nothing can be drawn outside it or wrap.

use crate::text::{char_count, repeat, repeated, truncate, truncate_str};
use vstd::prelude::*;

verus! {

/// How a piece of text looks.
#[derive(Debug, Clone, Copy, PartialEq, Eq, Structural)]
pub enum Style {
    Plain,
    Bold,
    Dim,
    Selected,
    Heading,
    Success,
    Warning,
    StatusBar,
    StatusBarBold,
    Info,
}

/// A piece of text at a place on the screen.
#[derive(Debug, PartialEq)]
pub struct Draw {
    pub y: i32,
    pub x: i32,
    pub text: String,
    pub style: Style,
}

/// A piece of text, with its place as numbers.
pub struct DrawView {
    pub y: int,
    pub x: int,
    pub text: Seq<char>,
    pub style: Style,
}

impl View for Draw {
    type V = DrawView;

    open spec fn view(&self) -> DrawView {
        DrawView { y: self.y as int, x: self.x as int, text: self.text@, style: self.style }
    }
}

/// The size of a screen.
#[derive(Debug, Clone, Copy, PartialEq, Eq, Structural)]
pub struct Size {
    pub height: i32,
    pub width: i32,
}

/// Pieces of text with their places as numbers.
pub open spec fn draws(list: Seq<Draw>) -> Seq<DrawView> {
    list.map_values(|d: Draw| d@)
}

/// What drawing `text` at a place draws: the part left of the right edge, or
/// nothing when the place is off the screen.
pub open spec fn put(size: Size, y: int, x: int, text: Seq<char>, style: Style) -> Seq<DrawView> {
    if y < 0 || x < 0 || y >= size.height || x >= size.width {
        Seq::empty()
    } else {
        seq![DrawView { y, x, text: truncate(text, (size.width - x) as nat), style }]
    }
}

/// The column where a text of `len` characters starts to be centered.
pub open spec fn center_column(size: Size, len: nat) -> int {
    if size.width > len {
        (size.width - len) / 2
    } else {
        0
    }
}

/// What drawing `text` in the middle of a row draws.
pub open spec fn put_centered(size: Size, y: int, text: Seq<char>, style: Style) -> Seq<DrawView> {
    put(size, y, center_column(size, text.len()), text, style)
}

/// The width of a screen, never negative.
pub open spec fn columns(size: Size) -> nat {
    if size.width > 0 {
        size.width as nat
    } else {
        0
    }
}

/// What drawing a full-width line draws.
pub open spec fn put_separator(size: Size, y: int) -> Seq<DrawView> {
    put(size, y, 0, repeat('-', columns(size)), Style::Plain)
}

/// Half of a screen dimension, rounded towards zero.
pub open spec fn half(n: int) -> int {
    if n >= 0 {
        n / 2
    } else {
        -((-n) / 2)
    }
}

/// Half of a screen dimension.
pub fn halved(n: i32) -> (h: i128)
    ensures
        h == half(n as int),
{
    let wide: i128 = n as i128;
    if wide >= 0 {
        wide / 2
    } else {
        -((-wide) / 2)
    }
}

/// Whether all the pieces of text lie on the screen.
pub open spec fn all_on_screen(size: Size, list: Seq<DrawView>) -> bool {
    forall|i: int| 0 <= i < list.len() ==> on_screen(size, #[trigger] list[i])
}

/// A list of pieces of text for a screen of a known size.
#[derive(Debug)]
pub struct Canvas {
    pub size: Size,
    pub list: Vec<Draw>,
}

impl Canvas {
    /// An empty screen.
    pub fn new(size: Size) -> (canvas: Self)
        ensures
            canvas.size == size,
            draws(canvas.list@) == Seq::<DrawView>::empty(),
    {
        let canvas = Canvas { size, list: Vec::new() };
        assert(draws(canvas.list@) =~= Seq::empty());
        canvas
    }

    /// Writes `text` at (y, x), cut at the right edge. Places off the screen
    /// are ignored: no drawing can fail or wrap, whatever the size of the
    /// terminal.
    pub fn put(&mut self, y: i128, x: i128, text: &str, style: Style)
        ensures
            final(self).size == old(self).size,
            draws(final(self).list@) == draws(old(self).list@) + put(
                old(self).size,
                y as int,
                x as int,
                text@,
                style,
            ),
    {
        let ghost before = self.list@;
        if y < 0 || x < 0 || y >= self.size.height as i128 || x >= self.size.width as i128 {
            assert(draws(self.list@) =~= draws(before) + Seq::empty());
            return ;
        }
        let room: usize = (self.size.width - x as i32) as usize;
        let shown = truncate_str(text, room);
        let piece = Draw { y: y as i32, x: x as i32, text: shown, style };
        self.list.push(piece);
        assert(draws(self.list@) =~= draws(before) + seq![piece@]);
    }

    /// Writes `text` in the middle of a row.
    pub fn put_centered(&mut self, y: i128, text: &str, style: Style)
        ensures
            final(self).size == old(self).size,
            draws(final(self).list@) == draws(old(self).list@) + put_centered(
                old(self).size,
                y as int,
                text@,
                style,
            ),
    {
        let len: i128 = char_count(text) as i128;
        let width: i128 = self.size.width as i128;
        let x: i128 = if width > len {
            (width - len) / 2
        } else {
            0
        };
        self.put(y, x, text, style);
    }

    /// Draws a full-width line.
    pub fn put_separator(&mut self, y: i128)
        ensures
            final(self).size == old(self).size,
            draws(final(self).list@) == draws(old(self).list@) + put_separator(
                old(self).size,
                y as int,
            ),
    {
        let width: usize = if self.size.width > 0 {
            self.size.width as usize
        } else {
            0
        };
        self.put(y, 0, repeated('-', width).as_str(), Style::Plain);
    }
}

/// Whether a piece of text lies on the screen as a whole.
pub open spec fn on_screen(size: Size, d: DrawView) -> bool {
    &&& 0 <= d.y < size.height
    &&& 0 <= d.x < size.width
    &&& d.x + d.text.len() <= size.width
}

/// Whatever is drawn lies on the screen, whatever its size: nothing wraps.
pub proof fn law_drawing_stays_on_screen(
    size: Size,
    y: int,
    x: int,
    text: Seq<char>,
    style: Style,
    i: int,
)
    requires
        0 <= i < put(size, y, x, text, style).len(),
    ensures
        on_screen(size, put(size, y, x, text, style)[i]),
{
}

/// On a screen without room nothing is drawn.
pub proof fn law_nothing_fits_an_empty_screen(
    size: Size,
    y: int,
    x: int,
    text: Seq<char>,
    style: Style,
)
    requires
        size.height <= 0 || size.width <= 0,
    ensures
        put(size, y, x, text, style).len() == 0,
{
}

/// A text on the screen is drawn at its place and in its style, as much of it as
/// fits; one that begins off the screen is not drawn.
pub proof fn law_as_much_is_drawn_as_fits(
    size: Size,
    y: int,
    x: int,
    text: Seq<char>,
    style: Style,
)
    ensures
        !(0 <= y < size.height && 0 <= x < size.width) ==> put(size, y, x, text, style).len() == 0,
        0 <= y < size.height && 0 <= x < size.width ==> {
            let list = put(size, y, x, text, style);
            &&& list.len() == 1
            &&& list[0].y == y
            &&& list[0].x == x
            &&& list[0].style == style
            &&& list[0].text.is_prefix_of(text)
            &&& list[0].text.len() == if text.len() < size.width - x {
                text.len() as int
            } else {
                size.width - x
            }
        },
{
    if 0 <= y < size.height && 0 <= x < size.width {
        let shown = put(size, y, x, text, style)[0].text;
        assert(shown =~= text.take(shown.len() as int));
    }
}

/// A centered text has as much room on its left as on its right, but for one
/// column; one that is too wide begins at the edge.
pub proof fn law_centered_text_has_room_on_both_sides(
    size: Size,
    y: int,
    text: Seq<char>,
    style: Style,
)
    ensures
        ({
            let x = center_column(size, text.len());
            &&& put_centered(size, y, text, style) == put(size, y, x, text, style)
            &&& text.len() < size.width ==> 0 <= 2 * x <= size.width - text.len() <= 2 * x + 1
            &&& text.len() >= size.width ==> x == 0
        }),
{
}

/// A separator is a row of dashes as wide as the screen.
pub proof fn law_separators_fill_the_row(size: Size, y: int, i: int)
    requires
        0 <= y < size.height,
        0 <= i < size.width,
    ensures
        put_separator(size, y).len() == 1,
        put_separator(size, y)[0].y == y,
        put_separator(size, y)[0].x == 0,
        put_separator(size, y)[0].style == Style::Plain,
        put_separator(size, y)[0].text.len() == size.width,
        put_separator(size, y)[0].text[i] == '-',
        columns(size) == size.width,
{
}

/// Half of a number is rounded towards zero, on either side of it.
pub proof fn law_halves_are_rounded_towards_zero(n: int)
    ensures
        n >= 0 ==> 2 * half(n) <= n <= 2 * half(n) + 1,
        half(-n) == -half(n),
{
}

/// The views of what is drawn show the fields, each at its own place.
pub proof fn law_views_of_drawings_show_their_fields(list: Seq<Draw>, i: int)
    requires
        0 <= i < list.len(),
    ensures
        draws(list).len() == list.len(),
        draws(list)[i].y == list[i].y,
        draws(list)[i].x == list[i].x,
        draws(list)[i].text == list[i].text@,
        draws(list)[i].style == list[i].style,
{
}

} // verus!
