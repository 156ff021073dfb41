//! A one-pane grid that child output is teed into, and what is drawn of it. Not
//! a multiplexer: one grid, no layouts, no input routing.
use crate::bytes;
use crate::number;
use vstd::prelude::*;
use vstd::slice::slice_subrange;

verus! {

// ---------------------------------------------------------------------------
// The terminal emulator
// ---------------------------------------------------------------------------

/// A vt100 terminal: the cells of its screen, its cursor and its modes.
#[verifier::external_body]
pub struct Terminal {
    parser: vt100::Parser,
}

/// A colour of a terminal cell.
#[derive(Clone, Copy, Debug, PartialEq, Eq, Structural)]
pub enum VtColor {
    /// The terminal's default.
    Default,
    /// An index into the 256 colours.
    Idx(u8),
    /// True colour.
    Rgb(u8, u8, u8),
}

/// A cell of the terminal.
#[derive(Clone, Debug)]
pub struct VtCell {
    /// The text in the cell; empty where nothing was written.
    pub contents: String,
    /// Whether the text is two columns wide.
    pub wide: bool,
    pub fg: VtColor,
    pub bg: VtColor,
    pub bold: bool,
    pub italic: bool,
    pub underline: bool,
    pub inverse: bool,
}

/// A [`VtCell`] with its text as a sequence.
pub struct VtCellView {
    pub contents: Seq<char>,
    pub wide: bool,
    pub fg: VtColor,
    pub bg: VtColor,
    pub bold: bool,
    pub italic: bool,
    pub underline: bool,
    pub inverse: bool,
}

impl View for VtCell {
    type V = VtCellView;

    open spec fn view(&self) -> VtCellView {
        VtCellView {
            contents: self.contents@,
            wide: self.wide,
            fg: self.fg,
            bg: self.bg,
            bold: self.bold,
            italic: self.italic,
            underline: self.underline,
            inverse: self.inverse,
        }
    }
}

/// Whether a terminal can have this size: a row and a column at least, and room to count
/// a tab stop past the last column. `vt100` panics on a screen without cells, and on one
/// that is wider than this at its last tab stop.
pub open spec fn is_size(rows: u16, cols: u16) -> bool {
    1 <= rows && 1 <= cols <= 0xfff7
}

/// U+FE0F, the selector that asks for the emoji form of the character before it, which
/// may be a column wider.
pub open spec fn selector() -> Seq<u8> {
    seq![0xefu8, 0xb8u8, 0x8fu8]
}

/// How much of `s` stands before the beginnings of a selector that it ends in.
pub open spec fn lead(s: Seq<u8>) -> int
    decreases s.len(),
{
    let n = s.len() as int;
    if n >= 1 && s[n - 1] == 0xef {
        lead(s.take(n - 1))
    } else if n >= 2 && s[n - 2] == 0xef && s[n - 1] == 0xb8 {
        lead(s.take(n - 2))
    } else {
        n
    }
}

/// Whether `s` neither holds a selector nor ends in the beginning of one.
pub open spec fn is_plain(s: Seq<u8>) -> bool {
    bytes::first_found(s, selector()) is None && lead(s) == s.len()
}

/// Whether `s` is a selector, behind beginnings of others.
pub open spec fn is_selection(s: Seq<u8>) -> bool {
    bytes::tail_is(s, selector()) && lead(s.take(s.len() - 3)) == 0
}

/// Whether the cursor stands on a cell, not past the last column of its row.
pub open spec fn is_on_cell(t: Terminal) -> bool {
    vt_cursor(t).1 < vt_size(t).1
}

/// Whether the last column of a row holds a wide character, whose second half has no
/// place.
pub open spec fn half_in(t: Terminal, row: u16) -> bool {
    row < vt_size(t).0 && vt_cells(t)[(row, (vt_size(t).1 - 1) as u16)].wide
}

/// Whether no row ends in half a character.
#[verifier::opaque]
pub open spec fn is_whole(t: Terminal) -> bool {
    forall|row: u16| !#[trigger] half_in(t, row)
}

/// Whether no row ends in half a character but that above the cursor.
pub open spec fn half_above(t: Terminal) -> bool {
    vt_cursor(t).0 > 0 && forall|row: u16| #[trigger]
        half_in(t, row) ==> row == vt_cursor(t).0 - 1
}

/// The bytes that erase the last cell of the row above a cursor in the third column: up,
/// to the last column, erase, down, to the third column.
pub open spec fn mending(cols: u16) -> Seq<u8> {
    seq![0x1bu8, 0x5bu8, 0x41u8, 0x1bu8, 0x5bu8] + number::ascii(number::decimal(cols as nat))
        + seq![
        0x47u8,
        0x1bu8,
        0x5bu8,
        0x58u8,
        0x1bu8,
        0x5bu8,
        0x42u8,
        0x1bu8,
        0x5bu8,
        0x33u8,
        0x47u8,
    ]
}

/// The text of a cell, as a terminal of some columns shows it with a selector behind it.
pub open spec fn selected_alone(cell: Seq<char>) -> Terminal {
    vt_read(vt_read(vt_fresh(1, 4), vstd::utf8::encode_utf8(cell)), selector())
}

/// Whether a selector leaves the text of a cell in one column.
pub open spec fn stays_narrow(cell: Seq<char>) -> bool {
    is_plain(vstd::utf8::encode_utf8(cell)) && !vt_cells(selected_alone(cell))[(0, 0)].wide
}

/// Whether a selector can be read: not where it would widen the character of a screen of
/// one column.
pub open spec fn may_select(t: Terminal) -> bool {
    is_on_cell(t) || vt_size(t).1 >= 2 || stays_narrow(vt_cells(t)[(vt_cursor(t).0, 0)].contents)
}

/// A terminal of this size that was sent nothing: `vt100::Parser::new` without
/// scrollback.
pub uninterp spec fn vt_fresh(rows: u16, cols: u16) -> Terminal;

/// The terminal once it has read these bytes: `vt100::Parser::process`.
pub uninterp spec fn vt_read(t: Terminal, sent: Seq<u8>) -> Terminal;

/// The terminal at another size: `vt100::Screen::set_size`.
pub uninterp spec fn vt_resized(t: Terminal, rows: u16, cols: u16) -> Terminal;

/// Rows and columns: `vt100::Screen::size`.
pub uninterp spec fn vt_size(t: Terminal) -> (u16, u16);

/// The cursor as (row, column): `vt100::Screen::cursor_position`.
pub uninterp spec fn vt_cursor(t: Terminal) -> (u16, u16);

/// The cells by (row, column): `vt100::Screen::cell`.
pub uninterp spec fn vt_cells(t: Terminal) -> Map<(u16, u16), VtCellView>;

/// The text on the screen: `vt100::Screen::contents`.
pub uninterp spec fn vt_contents(t: Terminal) -> Seq<char>;

/// The bytes that repaint the screen: `vt100::Screen::contents_formatted`.
pub uninterp spec fn vt_formatted(t: Terminal) -> Seq<u8>;

/// Bracketed-paste mode: `vt100::Screen::bracketed_paste`.
pub uninterp spec fn vt_bracketed_paste(t: Terminal) -> bool;

/// Application-cursor mode: `vt100::Screen::application_cursor`.
pub uninterp spec fn vt_application_cursor(t: Terminal) -> bool;

/// Application-keypad mode: `vt100::Screen::application_keypad`.
pub uninterp spec fn vt_application_keypad(t: Terminal) -> bool;

/// Hidden-cursor mode: `vt100::Screen::hide_cursor`.
pub uninterp spec fn vt_hide_cursor(t: Terminal) -> bool;

/// Whether there is a cell in this row and column.
pub open spec fn on_screen(t: Terminal, row: u16, col: u16) -> bool {
    row < vt_size(t).0 && col < vt_size(t).1
}

impl Terminal {
    /// `vt100::Parser::new`: a blank screen of this size, the cursor at its top
    /// left, every mode off.
    #[verifier::external_body]
    fn fresh(rows: u16, cols: u16) -> (t: Terminal)
        requires
            is_size(rows, cols),
        ensures
            t == vt_fresh(rows, cols),
            vt_size(t) == (rows, cols),
            is_whole(t),
            vt_cursor(t) == (0u16, 0u16),
            vt_contents(t).len() == 0,
            !vt_bracketed_paste(t),
            !vt_application_cursor(t),
            !vt_application_keypad(t),
            !vt_hide_cursor(t),
    {
        Terminal { parser: vt100::Parser::new(rows, cols, 0) }
    }

    /// `vt100::Parser::process`: what the screen becomes is a function of what
    /// it was and of the bytes; its size does not change.
    ///
    /// A selector is sent by itself. Where it widens a character that stands in the last
    /// column, `vt100` moves the character to the next row, and panics if that has one
    /// column. Where the screen scrolls for it, the character goes up with its row and
    /// stays in the last column, half of it, above the cursor, which is then in the third
    /// column. `vt100` panics once such a half is written over, so that nothing is sent
    /// before it is erased. No other bytes leave a half behind. The parser keeps the
    /// beginning of a character between two calls, so that other bytes may not end in the
    /// beginning of a selector.
    #[verifier::external_body]
    fn process(&mut self, sent: &[u8])
        requires
            (is_whole(*old(self)) && (is_plain(sent@) || (is_selection(sent@) && may_select(
                *old(self),
            )))) || (half_above(*old(self)) && sent@ == mending(vt_size(*old(self)).1)),
        ensures
            *final(self) == vt_read(*old(self), sent@),
            vt_size(*final(self)) == vt_size(*old(self)),
            is_whole(*final(self)) || (is_selection(sent@) && !is_on_cell(*old(self))
                && half_above(*final(self))),
    {
        self.parser.process(sent);
    }

    /// `vt100::Screen::set_size`: the screen has the size asked for, and a character that
    /// it would cut in half is gone.
    #[verifier::external_body]
    fn set_size(&mut self, rows: u16, cols: u16)
        requires
            is_size(rows, cols),
            is_whole(*old(self)),
        ensures
            *final(self) == vt_resized(*old(self), rows, cols),
            is_whole(*final(self)),
            vt_size(*final(self)) == (rows, cols),
    {
        self.parser.screen_mut().set_size(rows, cols);
    }

    /// `vt100::Screen::size`: rows and columns. A terminal is made and resized by
    /// [`Terminal::fresh`] and [`Terminal::set_size`] alone, so that its size is one
    /// that they take.
    #[verifier::external_body]
    fn size(&self) -> (s: (u16, u16))
        ensures
            s == vt_size(*self),
            is_size(s.0, s.1),
    {
        self.parser.screen().size()
    }

    /// `vt100::Screen::cursor_position`: its row is one of the screen.
    #[verifier::external_body]
    fn cursor_position(&self) -> (p: (u16, u16))
        ensures
            p == vt_cursor(*self),
            p.0 < vt_size(*self).0,
    {
        self.parser.screen().cursor_position()
    }

    /// `vt100::Screen::cell`, with what the accessors of `vt100::Cell` say of
    /// it: there is a cell exactly where the position lies on the screen.
    #[verifier::external_body]
    fn cell(&self, row: u16, col: u16) -> (c: Option<VtCell>)
        ensures
            c is Some == on_screen(*self, row, col),
            c matches Some(cell) ==> cell@ == vt_cells(*self)[(row, col)],
    {
        let color = |c| match c {
            vt100::Color::Default => VtColor::Default,
            vt100::Color::Idx(i) => VtColor::Idx(i),
            vt100::Color::Rgb(r, g, b) => VtColor::Rgb(r, g, b),
        };
        self.parser.screen().cell(row, col).map(|c| VtCell {
            contents: c.contents().to_owned(),
            wide: c.is_wide(),
            fg: color(c.fgcolor()),
            bg: color(c.bgcolor()),
            bold: c.bold(),
            italic: c.italic(),
            underline: c.underline(),
            inverse: c.inverse(),
        })
    }

    /// `vt100::Screen::contents`.
    #[verifier::external_body]
    fn contents(&self) -> (s: String)
        ensures
            s@ == vt_contents(*self),
    {
        self.parser.screen().contents()
    }

    /// `vt100::Screen::contents_formatted`.
    #[verifier::external_body]
    fn contents_formatted(&self) -> (b: Vec<u8>)
        ensures
            b@ == vt_formatted(*self),
    {
        self.parser.screen().contents_formatted()
    }

    /// `vt100::Screen::bracketed_paste`.
    #[verifier::external_body]
    fn bracketed_paste(&self) -> (r: bool)
        ensures
            r == vt_bracketed_paste(*self),
    {
        self.parser.screen().bracketed_paste()
    }

    /// `vt100::Screen::application_cursor`.
    #[verifier::external_body]
    fn application_cursor(&self) -> (r: bool)
        ensures
            r == vt_application_cursor(*self),
    {
        self.parser.screen().application_cursor()
    }

    /// `vt100::Screen::application_keypad`.
    #[verifier::external_body]
    fn application_keypad(&self) -> (r: bool)
        ensures
            r == vt_application_keypad(*self),
    {
        self.parser.screen().application_keypad()
    }

    /// `vt100::Screen::hide_cursor`.
    #[verifier::external_body]
    fn hide_cursor(&self) -> (r: bool)
        ensures
            r == vt_hide_cursor(*self),
    {
        self.parser.screen().hide_cursor()
    }
}

// ---------------------------------------------------------------------------
// What is drawn
// ---------------------------------------------------------------------------

/// A colour to draw with.
#[derive(Clone, Copy, Debug, PartialEq, Eq, Structural)]
pub enum Color {
    /// Back to the terminal's default.
    Reset,
    Indexed(u8),
    Rgb(u8, u8, u8),
}

/// Colours and attributes to draw with.
#[derive(Clone, Copy, Debug, PartialEq, Eq, Structural)]
pub struct Style {
    pub fg: Color,
    pub bg: Color,
    pub bold: bool,
    pub italic: bool,
    pub underlined: bool,
    pub reversed: bool,
}

/// A rectangle of the drawn screen.
#[derive(Clone, Copy, Debug, PartialEq, Eq, Structural)]
pub struct Rect {
    pub x: u16,
    pub y: u16,
    pub width: u16,
    pub height: u16,
}

/// One cell to draw.
#[derive(Clone, Debug, PartialEq, Eq)]
pub struct Draw {
    pub x: u16,
    pub y: u16,
    pub symbol: String,
    pub style: Style,
}

/// A [`Draw`] with its symbol as a sequence.
pub struct DrawView {
    pub x: int,
    pub y: int,
    pub symbol: Seq<char>,
    pub style: Style,
}

impl View for Draw {
    type V = DrawView;

    open spec fn view(&self) -> DrawView {
        DrawView { x: self.x as int, y: self.y as int, symbol: self.symbol@, style: self.style }
    }
}

/// The colour a terminal colour is drawn in.
pub open spec fn color_of(c: VtColor) -> Color {
    match c {
        VtColor::Default => Color::Reset,
        VtColor::Idx(i) => Color::Indexed(i),
        VtColor::Rgb(r, g, b) => Color::Rgb(r, g, b),
    }
}

/// Maps a terminal colour to the colour it is drawn in.
pub fn vt_color_to_ratatui(c: VtColor) -> (r: Color)
    ensures
        r == color_of(c),
        same_color(r, c),
{
    match c {
        VtColor::Default => Color::Reset,
        VtColor::Idx(i) => Color::Indexed(i),
        VtColor::Rgb(r, g, b) => Color::Rgb(r, g, b),
    }
}

/// The style a terminal cell is drawn in.
pub open spec fn style_of(c: VtCellView) -> Style {
    Style {
        fg: color_of(c.fg),
        bg: color_of(c.bg),
        bold: c.bold,
        italic: c.italic,
        underlined: c.underline,
        reversed: c.inverse,
    }
}

/// Whether a colour is that of the terminal: its default, the same index, the same true
/// colour.
pub open spec fn same_color(drawn: Color, c: VtColor) -> bool {
    match drawn {
        Color::Reset => c is Default,
        Color::Indexed(i) => c == VtColor::Idx(i),
        Color::Rgb(r, g, b) => c == VtColor::Rgb(r, g, b),
    }
}

/// Whether a style shows the colours of a cell, and each of its attributes as that
/// attribute.
pub open spec fn drawn_like(s: Style, c: VtCellView) -> bool {
    &&& same_color(s.fg, c.fg)
    &&& same_color(s.bg, c.bg)
    &&& s.bold <==> c.bold
    &&& s.italic <==> c.italic
    &&& s.underlined <==> c.underline
    &&& s.reversed <==> c.inverse
}

/// Maps a cell's colours and attributes to a style.
pub fn vt_cell_style(cell: &VtCell) -> (s: Style)
    ensures
        s == style_of(cell@),
        drawn_like(s, cell@),
{
    Style {
        fg: vt_color_to_ratatui(cell.fg),
        bg: vt_color_to_ratatui(cell.bg),
        bold: cell.bold,
        italic: cell.italic,
        underlined: cell.underline,
        reversed: cell.inverse,
    }
}

/// What is drawn of a cell: a blank for an empty one, and for one whose second
/// half falls outside the `cols` columns shown from the column `col` on.
pub open spec fn symbol_of(c: VtCellView, col: int, cols: int) -> Seq<char> {
    if (c.wide && col + 1 >= cols) || c.contents.len() == 0 {
        " "@
    } else {
        c.contents
    }
}

/// What is drawn of a cell.
pub fn cell_symbol(cell: &VtCell, col: u16, cols: u16) -> (s: String)
    ensures
        s@ == symbol_of(cell@, col as int, cols as int),
{
    if (cell.wide && (cols == 0 || col >= cols - 1)) || cell.contents.as_str().is_empty() {
        " ".to_owned()
    } else {
        cell.contents.clone()
    }
}

/// The lesser of two numbers.
pub open spec fn least(a: int, b: int) -> int {
    if a < b {
        a
    } else {
        b
    }
}

/// What is drawn of the cells `c` in `area`: its top left clip, `rows` by
/// `cols`, row by row.
pub open spec fn drawing(
    c: Map<(u16, u16), VtCellView>,
    area: Rect,
    rows: int,
    cols: int,
) -> Seq<DrawView> {
    Seq::new(
        (rows * cols) as nat,
        |i: int| cell_drawing(c[((i / cols) as u16, (i % cols) as u16)], area, i / cols, i % cols, cols),
    )
}

/// How the cell in row `r` and column `col` of the clip is drawn.
pub open spec fn cell_drawing(c: VtCellView, area: Rect, r: int, col: int, cols: int) -> DrawView {
    DrawView {
        x: area.x + col,
        y: area.y + r,
        symbol: symbol_of(c, col, cols),
        style: style_of(c),
    }
}

/// The views of a sequence of draws.
pub open spec fn draw_views(v: Seq<Draw>) -> Seq<DrawView> {
    v.map_values(|d: Draw| d@)
}

/// The cursor as (column, row), within the grid.
pub open spec fn clamped(size: (u16, u16), at: (u16, u16)) -> (u16, u16) {
    let (rows, cols) = size;
    let (row, col) = at;
    (
        if cols == 0 {
            0
        } else if col > cols - 1 {
            (cols - 1) as u16
        } else {
            col
        },
        if rows == 0 {
            0
        } else if row > rows - 1 {
            (rows - 1) as u16
        } else {
            row
        },
    )
}

/// The cursor `at`, given as (row, column), as (column, row) within a grid of
/// `size` rows and columns.
pub fn clamp_cursor(size: (u16, u16), at: (u16, u16)) -> (r: (u16, u16))
    ensures
        r == clamped(size, at),
{
    let (rows, cols) = size;
    let (row, col) = at;
    let x: u16 = if cols == 0 {
        0
    } else if col > cols - 1 {
        cols - 1
    } else {
        col
    };
    let y: u16 = if rows == 0 {
        0
    } else if row > rows - 1 {
        rows - 1
    } else {
        row
    };
    (x, y)
}

/// `bytes` where `on`, and nothing elsewhere.
pub open spec fn when(on: bool, sequence: Seq<u8>) -> Seq<u8> {
    if on {
        sequence
    } else {
        Seq::empty()
    }
}

/// The bytes that repaint a pane: the formatted screen, then the private modes
/// that are on: bracketed paste, application cursor, application keypad, hidden
/// cursor.
pub open spec fn restoring(
    formatted: Seq<u8>,
    bracketed_paste: bool,
    application_cursor: bool,
    application_keypad: bool,
    hide_cursor: bool,
) -> Seq<u8> {
    formatted + when(
        bracketed_paste,
        seq![0x1bu8, 0x5bu8, 0x3fu8, 0x32u8, 0x30u8, 0x30u8, 0x34u8, 0x68u8],
    ) + when(application_cursor, seq![0x1bu8, 0x5bu8, 0x3fu8, 0x31u8, 0x68u8]) + when(
        application_keypad,
        seq![0x1bu8, 0x3du8],
    ) + when(hide_cursor, seq![0x1bu8, 0x5bu8, 0x3fu8, 0x32u8, 0x35u8, 0x6cu8])
}

/// The bytes that repaint a pane whose formatted screen is `formatted` and whose
/// private modes are these.
pub fn restore_sequence(
    formatted: Vec<u8>,
    bracketed_paste: bool,
    application_cursor: bool,
    application_keypad: bool,
    hide_cursor: bool,
) -> (out: Vec<u8>)
    ensures
        out@ == restoring(
            formatted@,
            bracketed_paste,
            application_cursor,
            application_keypad,
            hide_cursor,
        ),
{
    let mut out = formatted;
    let ghost start = out@;
    if bracketed_paste {
        let on: [u8; 8] = [0x1b, 0x5b, 0x3f, 0x32, 0x30, 0x30, 0x34, 0x68];
        bytes::extend(&mut out, &on);
    }
    if application_cursor {
        let on: [u8; 5] = [0x1b, 0x5b, 0x3f, 0x31, 0x68];
        bytes::extend(&mut out, &on);
    }
    if application_keypad {
        let on: [u8; 2] = [0x1b, 0x3d];
        bytes::extend(&mut out, &on);
    }
    if hide_cursor {
        let on: [u8; 6] = [0x1b, 0x5b, 0x3f, 0x32, 0x35, 0x6c];
        bytes::extend(&mut out, &on);
    }
    proof {
        assert(out@ =~= restoring(
            start,
            bracketed_paste,
            application_cursor,
            application_keypad,
            hide_cursor,
        ));
    }
    out
}

/// The terminal once it has read a selector. Half a character that this leaves behind is
/// erased; nothing is drawn of it either way.
pub open spec fn selected(t: Terminal, selection: Seq<u8>) -> Terminal {
    let r = vt_read(t, selection);
    if !may_select(t) {
        t
    } else if is_whole(r) {
        r
    } else {
        vt_read(r, mending(vt_size(t).1))
    }
}

/// The terminal once it has read these bytes, cut before and behind each selector. The
/// beginning of a selector at their end is left for later.
pub open spec fn read_on(t: Terminal, s: Seq<u8>) -> Terminal
    decreases s.len(),
{
    match bytes::first_found(s, selector()) {
        None => vt_read(t, s.take(lead(s))),
        Some(i) => {
            proof {
                bytes::first_found_least(s, selector());
            }
            let n = lead(s.take(i));
            read_on(selected(vt_read(t, s.take(n)), s.subrange(n, i + 3)), s.skip(i + 3))
        },
    }
}

/// The beginning of a selector at the end of these bytes.
pub open spec fn held_back(s: Seq<u8>) -> Seq<u8>
    decreases s.len(),
{
    match bytes::first_found(s, selector()) {
        None => s.skip(lead(s)),
        Some(i) => {
            proof {
                bytes::first_found_least(s, selector());
            }
            held_back(s.skip(i + 3))
        },
    }
}

/// What stands before the beginnings of a selector is a part of the whole, and ends in
/// none.
proof fn lead_bounds(s: Seq<u8>)
    ensures
        0 <= lead(s) <= s.len(),
        lead(s.take(lead(s))) == lead(s),
        lead(s.skip(lead(s))) == 0,
    decreases s.len(),
{
    let n = s.len() as int;
    let m = if n >= 1 && s[n - 1] == 0xef {
        n - 1
    } else if n >= 2 && s[n - 2] == 0xef && s[n - 1] == 0xb8 {
        n - 2
    } else {
        n
    };
    if m < n {
        let less = s.take(m);
        lead_bounds(less);
        let k = lead(s);
        assert(s.take(k) =~= less.take(k));
        let rest = s.skip(k);
        assert(rest.take(m - k) =~= less.skip(k));
        assert(rest[rest.len() - 1] == s[n - 1]);
        if m == n - 2 {
            assert(rest[rest.len() - 2] == s[n - 2]);
        }
    } else {
        assert(s.take(n) =~= s);
        assert(s.skip(n) =~= Seq::empty());
    }
}

/// Bytes without a selector hold none in front either.
proof fn front_is_plain(s: Seq<u8>, n: int)
    requires
        0 <= n <= s.len(),
        forall|j: int| 0 <= j && j + 3 <= n ==> !#[trigger] bytes::found_at(s, selector(), j),
        lead(s.take(n)) == n,
    ensures
        is_plain(s.take(n)),
{
    let p = s.take(n);
    bytes::first_found_least(p, selector());
    if bytes::first_found(p, selector()) is Some {
        let j = bytes::first_found(p, selector())->0;
        assert(p.subrange(j, j + 3) =~= s.subrange(j, j + 3));
        assert(bytes::found_at(s, selector(), j));
    }
}

/// How much of `s` stands before the beginnings of a selector that it ends in.
fn lead_len(s: &[u8]) -> (n: usize)
    ensures
        n == lead(s@),
{
    let mut n: usize = s.len();
    proof {
        assert(s@.take(n as int) =~= s@);
    }
    loop
        invariant
            n <= s@.len(),
            lead(s@.take(n as int)) == lead(s@),
        decreases n,
    {
        let ghost part = s@.take(n as int);
        if n >= 1 && s[n - 1] == 0xef {
            proof {
                assert(part.take(n - 1) =~= s@.take(n - 1));
            }
            n -= 1;
        } else if n >= 2 && s[n - 2] == 0xef && s[n - 1] == 0xb8 {
            proof {
                assert(part.take(n - 2) =~= s@.take(n - 2));
            }
            n -= 2;
        } else {
            return n;
        }
    }
}

/// Plain bytes are no selection.
proof fn plain_is_no_selection(s: Seq<u8>)
    requires
        is_plain(s),
    ensures
        !is_selection(s),
{
    bytes::first_found_least(s, selector());
    if is_selection(s) {
        let i = s.len() - 3;
        assert(s.subrange(i, i + 3) =~= s.skip(i));
        assert(bytes::found_at(s, selector(), i));
    }
}

/// The bytes that erase the last cell of the row above a cursor in the third column.
fn mending_bytes(cols: u16) -> (out: Vec<u8>)
    ensures
        out@ == mending(cols),
{
    let up: [u8; 5] = [0x1b, 0x5b, 0x41, 0x1b, 0x5b];
    let down: [u8; 11] = [0x47, 0x1b, 0x5b, 0x58, 0x1b, 0x5b, 0x42, 0x1b, 0x5b, 0x33, 0x47];
    let mut out: Vec<u8> = Vec::new();
    bytes::extend(&mut out, &up);
    number::push_decimal(&mut out, cols as u64);
    bytes::extend(&mut out, &down);
    proof {
        assert(out@ =~= mending(cols));
    }
    out
}

/// Whether a selector leaves the text of a cell in one column.
fn keeps_narrow(cell: &str) -> (r: bool)
    ensures
        r == stays_narrow(cell@),
{
    let b = cell.as_bytes();
    let mark: [u8; 3] = [0xef, 0xb8, 0x8f];
    proof {
        assert(mark@ =~= selector());
        assert(mark@.skip(0) =~= mark@);
        assert(mark@.take(0) =~= Seq::empty());
    }
    if bytes::find(b, &mark).is_some() || lead_len(b) != b.len() {
        return false;
    }
    let mut t = Terminal::fresh(1, 4);
    proof {
        plain_is_no_selection(b@);
    }
    t.process(b);
    t.process(&mark);
    match t.cell(0, 0) {
        Some(c) => !c.wide,
        None => true,
    }
}

impl Terminal {
    /// Whether no row ends in half a character.
    fn ends_whole(&self) -> (r: bool)
        ensures
            r == is_whole(*self),
    {
        let (rows, cols) = self.size();
        proof {
            reveal(is_whole);
        }
        let mut row: u16 = 0;
        while row < rows
            invariant
                row <= rows,
                (rows, cols) == vt_size(*self),
                1 <= cols,
                forall|q: u16| q < row ==> !#[trigger] half_in(*self, q),
            decreases rows - row,
        {
            if let Some(c) = self.cell(row, cols - 1) {
                if c.wide {
                    proof {
                        reveal(is_whole);
                        assert(half_in(*self, row));
                    }
                    return false;
                }
            }
            row += 1;
        }
        true
    }

    /// Whether a selector can be read.
    fn takes_selector(&self) -> (r: bool)
        ensures
            r == may_select(*self),
    {
        let (rows, cols) = self.size();
        let (row, col) = self.cursor_position();
        if col < cols || cols >= 2 {
            return true;
        }
        match self.cell(row, 0) {
            Some(c) => keeps_narrow(c.contents.as_str()),
            None => false,
        }
    }

    /// Reads a selector.
    fn select(&mut self, selection: &[u8])
        requires
            is_whole(*old(self)),
            is_selection(selection@),
        ensures
            *final(self) == selected(*old(self), selection@),
            is_whole(*final(self)),
            vt_size(*final(self)) == vt_size(*old(self)),
    {
        if self.takes_selector() {
            self.process(selection);
            if !self.ends_whole() {
                let mend = mending_bytes(self.size().1);
                self.process(mend.as_slice());
            }
        }
    }

    /// Reads bytes, cut before and behind each selector, and hands back the beginning of
    /// a selector at their end.
    fn read(&mut self, sent: &[u8]) -> (held: Vec<u8>)
        requires
            is_whole(*old(self)),
        ensures
            *final(self) == read_on(*old(self), sent@),
            held@ == held_back(sent@),
            is_whole(*final(self)),
            vt_size(*final(self)) == vt_size(*old(self)),
    {
        let ghost was = *self;
        let ghost all = sent@;
        let mut from: usize = 0;
        let mark: [u8; 3] = [0xef, 0xb8, 0x8f];
        proof {
            assert(all.skip(0) =~= all);
            assert(mark@ =~= selector());
        }
        loop
            invariant
                mark@ == selector(),
                was == *old(self),
                all == sent@,
                from <= all.len(),
                is_whole(*self),
                read_on(*self, all.skip(from as int)) == read_on(was, all),
                held_back(all.skip(from as int)) == held_back(all),
                vt_size(*self) == vt_size(was),
            decreases all.len() - from,
        {
            let total: usize = sent.len();
            let rest = slice_subrange(sent, from, total);
            let ghost left = all.skip(from as int);
            proof {
                assert(rest@ =~= left);
                bytes::first_found_least(left, selector());
            }
            match bytes::find(rest, &mark) {
                None => {
                    let n: usize = lead_len(rest);
                    proof {
                        lead_bounds(left);
                        front_is_plain(left, n as int);
                    }
                    let front = slice_subrange(rest, 0, n);
                    proof {
                        assert(front@ =~= left.take(n as int));
                        plain_is_no_selection(front@);
                    }
                    self.process(front);
                    return bytes::tail(rest, n);
                },
                Some(i) => {
                    let before = slice_subrange(rest, 0, i);
                    proof {
                        assert(before@ =~= left.take(i as int));
                    }
                    let n: usize = lead_len(before);
                    proof {
                        lead_bounds(before@);
                        assert(before@.take(n as int) =~= left.take(n as int));
                        front_is_plain(left, n as int);
                    }
                    let front = slice_subrange(rest, 0, n);
                    let selection = slice_subrange(rest, n, i + 3);
                    proof {
                        assert(front@ =~= left.take(n as int));
                        plain_is_no_selection(front@);
                        assert(selection@ =~= left.subrange(n as int, i + 3));
                        assert(selection@.take(selection@.len() - 3) =~= before@.skip(n as int));
                        assert(selection@.skip(selection@.len() - 3) =~= left.subrange(
                            i as int,
                            i + 3,
                        ));
                        assert(all.skip(from + i + 3) =~= left.skip(i + 3));
                    }
                    self.process(front);
                    self.select(selection);
                    from = from + i + 3;
                },
            }
        }
    }
}

/// The grid of a pane.
pub struct Grid {
    terminal: Terminal,
    /// The beginning of a selector, which is read once more is known.
    held: Vec<u8>,
}

impl Grid {
    /// No row of a grid ends in half a character.
    #[verifier::type_invariant]
    closed spec fn wf(self) -> bool {
        is_whole(self.terminal)
    }

    /// The terminal behind the grid.
    pub closed spec fn terminal(&self) -> Terminal {
        self.terminal
    }

    /// The beginning of a selector that was not read yet.
    pub closed spec fn held(&self) -> Seq<u8> {
        self.held@
    }

    /// A blank grid.
    pub fn new(rows: u16, cols: u16) -> (g: Grid)
        requires
            is_size(rows, cols),
        ensures
            g.terminal() == vt_fresh(rows, cols),
            g.held() == Seq::<u8>::empty(),
            vt_size(g.terminal()) == (rows, cols),
            vt_cursor(g.terminal()) == (0u16, 0u16),
            vt_contents(g.terminal()).len() == 0,
    {
        Grid { terminal: Terminal::fresh(rows, cols), held: Vec::new() }
    }

    /// Reads child output.
    pub fn feed(&mut self, sent: &[u8])
        ensures
            final(self).terminal() == read_on(old(self).terminal(), old(self).held() + sent@),
            final(self).held() == held_back(old(self).held() + sent@),
            vt_size(final(self).terminal()) == vt_size(old(self).terminal()),
    {
        proof {
            use_type_invariant(&*self);
        }
        let mut all: Vec<u8> = Vec::new();
        let mut terminal = Terminal::fresh(1, 1);
        std::mem::swap(&mut all, &mut self.held);
        std::mem::swap(&mut terminal, &mut self.terminal);
        bytes::extend(&mut all, sent);
        self.held = terminal.read(all.as_slice());
        self.terminal = terminal;
    }

    /// Changes the size.
    pub fn resize(&mut self, rows: u16, cols: u16)
        requires
            is_size(rows, cols),
        ensures
            final(self).terminal() == vt_resized(old(self).terminal(), rows, cols),
            final(self).held() == old(self).held(),
            vt_size(final(self).terminal()) == (rows, cols),
    {
        proof {
            use_type_invariant(&*self);
        }
        let mut terminal = Terminal::fresh(1, 1);
        std::mem::swap(&mut terminal, &mut self.terminal);
        terminal.set_size(rows, cols);
        self.terminal = terminal;
    }

    /// Wipes the grid: it is as a new one of its size.
    pub fn clear(&mut self)
        ensures
            final(self).terminal() == vt_fresh(
                vt_size(old(self).terminal()).0,
                vt_size(old(self).terminal()).1,
            ),
            final(self).held() == Seq::<u8>::empty(),
            vt_size(final(self).terminal()) == vt_size(old(self).terminal()),
            vt_contents(final(self).terminal()).len() == 0,
    {
        let (rows, cols) = self.terminal.size();
        self.terminal = Terminal::fresh(rows, cols);
        self.held = Vec::new();
    }

    /// Full repaint of the visible grid, with the private modes that the child
    /// set, so that its input handling survives an overlay.
    pub fn restore_bytes(&self) -> (out: Vec<u8>)
        ensures
            out@ == restoring(
                vt_formatted(self.terminal()),
                vt_bracketed_paste(self.terminal()),
                vt_application_cursor(self.terminal()),
                vt_application_keypad(self.terminal()),
                vt_hide_cursor(self.terminal()),
            ),
    {
        restore_sequence(
            self.terminal.contents_formatted(),
            self.terminal.bracketed_paste(),
            self.terminal.application_cursor(),
            self.terminal.application_keypad(),
            self.terminal.hide_cursor(),
        )
    }

    /// The cursor as (column, row), clamped to the grid.
    pub fn cursor(&self) -> (r: (u16, u16))
        ensures
            r == clamped(vt_size(self.terminal()), vt_cursor(self.terminal())),
    {
        clamp_cursor(self.terminal.size(), self.terminal.cursor_position())
    }

    /// Whether the child has hidden its cursor.
    pub fn hide_cursor(&self) -> (r: bool)
        ensures
            r == vt_hide_cursor(self.terminal()),
    {
        self.terminal.hide_cursor()
    }

    /// The text on the grid.
    pub fn contents(&self) -> (s: String)
        ensures
            s@ == vt_contents(self.terminal()),
    {
        self.terminal.contents()
    }

    /// Whether no text stands on the grid.
    pub fn is_blank(&self) -> (r: bool)
        ensures
            r == (vt_contents(self.terminal()).len() == 0),
    {
        self.terminal.contents().as_str().is_empty()
    }

    /// What to draw in `area`: a top left clip of the grid. Cells past the grid
    /// or past the area are not drawn.
    pub fn render_into(&self, area: Rect) -> (out: Vec<Draw>)
        requires
            area.x + area.width <= 0xffff,
            area.y + area.height <= 0xffff,
        ensures
            draw_views(out@) == drawing(
                vt_cells(self.terminal()),
                area,
                least(area.height as int, vt_size(self.terminal()).0 as int),
                least(area.width as int, vt_size(self.terminal()).1 as int),
            ),
            forall|i: int|
                0 <= i < out@.len() ==> {
                    let d = #[trigger] out@[i];
                    let cell = vt_cells(self.terminal())[(
                        (d.y - area.y) as u16,
                        (d.x - area.x) as u16,
                    )];
                    &&& area.x <= d.x && area.y <= d.y
                    &&& d.style.reversed <==> cell.inverse
                    &&& d.style.underlined <==> cell.underline
                    &&& d.style.bold <==> cell.bold
                    &&& d.style.italic <==> cell.italic
                    &&& same_color(d.style.fg, cell.fg)
                    &&& same_color(d.style.bg, cell.bg)
                    &&& cell.contents.len() > 0 && !cell.wide ==> d.symbol@ == cell.contents
                    &&& cell.contents.len() == 0 ==> d.symbol@ == " "@
                },
    {
        let (grid_rows, grid_cols) = self.terminal.size();
        let rows: u16 = if area.height < grid_rows {
            area.height
        } else {
            grid_rows
        };
        let cols: u16 = if area.width < grid_cols {
            area.width
        } else {
            grid_cols
        };
        let ghost cells = vt_cells(self.terminal());
        let ghost goal = drawing(cells, area, rows as int, cols as int);
        let mut out: Vec<Draw> = Vec::new();
        let mut r: u16 = 0;
        while r < rows
            invariant
                r <= rows,
                rows <= area.height,
                cols <= area.width,
                rows <= vt_size(self.terminal()).0,
                cols <= vt_size(self.terminal()).1,
                area.x + area.width <= 0xffff,
                area.y + area.height <= 0xffff,
                cells == vt_cells(self.terminal()),
                goal == drawing(cells, area, rows as int, cols as int),
                out@.len() == r * cols,
                r * cols <= rows * cols,
                draw_views(out@) == goal.take(r * cols),
            decreases rows - r,
        {
            let mut c: u16 = 0;
            while c < cols
                invariant
                    c <= cols,
                    r < rows,
                    rows <= area.height,
                    cols <= area.width,
                    rows <= vt_size(self.terminal()).0,
                    cols <= vt_size(self.terminal()).1,
                    area.x + area.width <= 0xffff,
                    area.y + area.height <= 0xffff,
                    cells == vt_cells(self.terminal()),
                    goal == drawing(cells, area, rows as int, cols as int),
                    draw_views(out@) == goal.take(r * cols + c),
                decreases cols - c,
            {
                let ghost before = out@;
                if let Some(cell) = self.terminal.cell(r, c) {
                    out.push(
                        Draw {
                            x: area.x + c,
                            y: area.y + r,
                            symbol: cell_symbol(&cell, c, cols),
                            style: vt_cell_style(&cell),
                        },
                    );
                    proof {
                        let i = r * cols + c;
                        at_row_col(r as int, c as int, rows as int, cols as int);
                        assert(goal[i] == cell_drawing(
                            cells[(r, c)],
                            area,
                            r as int,
                            c as int,
                            cols as int,
                        ));
                        assert(draw_views(out@) =~= draw_views(before).push(out@.last()@));
                        assert(goal.take(i + 1) =~= goal.take(i).push(goal[i]));
                    }
                }
                c += 1;
            }
            proof {
                assert((r + 1) * cols == r * cols + cols) by (nonlinear_arith);
                assert((r + 1) * cols <= rows * cols) by (nonlinear_arith)
                    requires
                        r + 1 <= rows,
                        0 <= cols,
                ;
                assert(draw_views(out@).len() == out@.len());
            }
            r += 1;
        }
        proof {
            assert(goal.take(rows * cols) =~= goal);
            assert forall|i: int| 0 <= i < out@.len() implies {
                let d = #[trigger] out@[i];
                let cell = cells[((d.y - area.y) as u16, (d.x - area.x) as u16)];
                &&& area.x <= d.x && area.y <= d.y
                &&& drawn_like(d.style, cell)
                &&& cell.contents.len() > 0 && !cell.wide ==> d.symbol@ == cell.contents
                &&& cell.contents.len() == 0 ==> d.symbol@ == " "@
            } by {
                assert(draw_views(out@)[i] == out@[i]@);
                every_cell_is_drawn_as_it_is(cells, area, rows as int, cols as int, i);
            }
        }
        out
    }
}

/// Row and column of a position in row-major order.
proof fn at_row_col(r: int, c: int, rows: int, cols: int)
    requires
        0 <= r < rows,
        0 <= c < cols,
    ensures
        (r * cols + c) / cols == r,
        (r * cols + c) % cols == c,
        0 <= r * cols + c < rows * cols,
{
    vstd::arithmetic::div_mod::lemma_fundamental_div_mod_converse(r * cols + c, cols, r, c);
    assert(r * cols + c < rows * cols) by (nonlinear_arith)
        requires
            0 <= r,
            r + 1 <= rows,
            0 <= c < cols,
    ;
    assert(0 <= r * cols) by (nonlinear_arith)
        requires
            0 <= r,
            0 < cols,
    ;
}

// ---------------------------------------------------------------------------
// Laws of reading
// ---------------------------------------------------------------------------

/// Output without a selector is read as it is, and nothing of it is left for later.
pub proof fn plain_output_is_read_whole(t: Terminal, s: Seq<u8>)
    requires
        is_plain(s),
    ensures
        read_on(t, s) == vt_read(t, s),
        held_back(s) == Seq::<u8>::empty(),
{
    assert(s.take(lead(s)) =~= s);
    assert(s.skip(lead(s)) =~= Seq::empty());
}

/// Output is read in order, nothing of it twice and nothing left out: what stands before a
/// selector is read as it is, then the selector, then what stands behind it.
pub proof fn output_is_read_in_order(t: Terminal, a: Seq<u8>, b: Seq<u8>)
    requires
        is_plain(a),
    ensures
        read_on(t, a + selector() + b) == read_on(selected(vt_read(t, a), selector()), b),
        held_back(a + selector() + b) == held_back(b),
{
    let s = a + selector() + b;
    let n = a.len() as int;
    bytes::first_found_least(a, selector());
    assert(s.subrange(n, n + 3) =~= selector());
    assert forall|j: int| 0 <= j < n implies !#[trigger] bytes::found_at(s, selector(), j) by {
        if bytes::found_at(s, selector(), j) {
            let w = s.subrange(j, j + 3);
            assert(w[0] == s[j] && w[1] == s[j + 1] && w[2] == s[j + 2]);
            if j + 3 <= n {
                assert(a.subrange(j, j + 3) =~= w);
                assert(bytes::found_at(a, selector(), j));
            } else {
                assert(s[n] == 0xef);
                assert(j + 1 == n || j + 2 == n);
                assert(false);
            }
        }
    }
    bytes::first_found_is(s, selector(), n);
    assert(s.take(n) =~= a);
    assert(a.take(n) =~= a);
    assert(s.subrange(n, n + 3) =~= selector());
    assert(s.skip(n + 3) =~= b);
}

/// A selector that comes while the cursor stands on a cell, or that leaves no half behind
/// on a screen of more than one column, is read as it is.
pub proof fn selector_is_read(t: Terminal, selection: Seq<u8>)
    requires
        is_on_cell(t) || vt_size(t).1 >= 2,
        is_whole(vt_read(t, selection)),
    ensures
        selected(t, selection) == vt_read(t, selection),
{
}

/// What is left for later is an end of what came, of the bytes a selector begins with.
pub proof fn held_is_the_end(s: Seq<u8>)
    ensures
        held_back(s).len() <= s.len(),
        held_back(s) == s.skip(s.len() - held_back(s).len()),
        forall|i: int|
            0 <= i < held_back(s).len() ==> #[trigger] held_back(s)[i] == 0xef || held_back(s)[i]
                == 0xb8,
    decreases s.len(),
{
    bytes::first_found_least(s, selector());
    match bytes::first_found(s, selector()) {
        None => {
            lead_bounds(s);
            let h = s.skip(lead(s));
            only_beginnings(h);
            assert(s.skip(s.len() - h.len()) =~= h);
        },
        Some(i) => {
            held_is_the_end(s.skip(i + 3));
            let h = held_back(s);
            assert(s.skip(s.len() - h.len()) =~= s.skip(i + 3).skip(
                s.skip(i + 3).len() - h.len(),
            ));
        },
    }
}

/// Beginnings of a selector alone hold two bytes alone.
proof fn only_beginnings(h: Seq<u8>)
    requires
        lead(h) == 0,
    ensures
        forall|i: int| 0 <= i < h.len() ==> #[trigger] h[i] == 0xef || h[i] == 0xb8,
    decreases h.len(),
{
    let n = h.len() as int;
    if n > 0 {
        let m = if h[n - 1] == 0xef {
            n - 1
        } else {
            n - 2
        };
        let t = h.take(m);
        only_beginnings(t);
        assert forall|i: int| 0 <= i < n implies #[trigger] h[i] == 0xef || h[i] == 0xb8 by {
            if i < m {
                assert(t[i] == h[i]);
            }
        }
    }
}

/// What is left for later is no whole selector, and reading it again leaves it.
pub proof fn held_is_unfinished(s: Seq<u8>)
    ensures
        lead(held_back(s)) == 0,
        bytes::first_found(held_back(s), selector()) is None,
        held_back(held_back(s)) == held_back(s),
    decreases s.len(),
{
    bytes::first_found_least(s, selector());
    match bytes::first_found(s, selector()) {
        None => {
            lead_bounds(s);
            let h = s.skip(lead(s));
            bytes::first_found_least(h, selector());
            if bytes::first_found(h, selector()) is Some {
                let j = bytes::first_found(h, selector())->0;
                assert(h.subrange(j, j + 3) =~= s.subrange(lead(s) + j, lead(s) + j + 3));
                assert(bytes::found_at(s, selector(), lead(s) + j));
            }
            assert(h.skip(0) =~= h);
        },
        Some(i) => {
            held_is_unfinished(s.skip(i + 3));
        },
    }
}

// ---------------------------------------------------------------------------
// Laws of drawing
// ---------------------------------------------------------------------------

/// Nothing is drawn outside the area.
pub proof fn drawing_stays_inside(
    c: Map<(u16, u16), VtCellView>,
    area: Rect,
    rows: int,
    cols: int,
    i: int,
)
    requires
        0 <= rows <= area.height,
        0 <= cols <= area.width,
        0 <= i < drawing(c, area, rows, cols).len(),
    ensures
        area.x <= drawing(c, area, rows, cols)[i].x < area.x + area.width,
        area.y <= drawing(c, area, rows, cols)[i].y < area.y + area.height,
{
    assert(0 < cols) by (nonlinear_arith)
        requires
            0 <= i < rows * cols,
            0 <= cols,
    ;
    assert(0 <= i / cols < rows) by (nonlinear_arith)
        requires
            0 <= i < rows * cols,
            0 < cols,
    ;
    assert(0 <= i % cols < cols) by (nonlinear_arith)
        requires
            0 < cols,
    ;
}

/// Each cell of the clip is drawn once, row by row, in its own place, with its own colours
/// and attributes: the text of the cell, or a blank where it has none or where its second
/// half falls outside.
pub proof fn every_cell_is_drawn_as_it_is(
    c: Map<(u16, u16), VtCellView>,
    area: Rect,
    rows: int,
    cols: int,
    i: int,
)
    requires
        0 <= rows <= 0xffff,
        0 <= cols <= 0xffff,
        0 <= i < drawing(c, area, rows, cols).len(),
    ensures
        ({
            let d = drawing(c, area, rows, cols)[i];
            let row = d.y - area.y;
            let col = d.x - area.x;
            let cell = c[(row as u16, col as u16)];
            &&& 0 <= row < rows && 0 <= col < cols
            &&& i == row * cols + col
            &&& d.style.reversed <==> cell.inverse
            &&& d.style.underlined <==> cell.underline
            &&& d.style.bold <==> cell.bold
            &&& d.style.italic <==> cell.italic
            &&& cell.fg is Default <==> d.style.fg is Reset
            &&& cell.fg matches VtColor::Idx(n) ==> d.style.fg == Color::Indexed(n)
            &&& cell.fg matches VtColor::Rgb(r, g, b) ==> d.style.fg == Color::Rgb(r, g, b)
            &&& cell.bg is Default <==> d.style.bg is Reset
            &&& cell.bg matches VtColor::Idx(n) ==> d.style.bg == Color::Indexed(n)
            &&& cell.bg matches VtColor::Rgb(r, g, b) ==> d.style.bg == Color::Rgb(r, g, b)
            &&& cell.contents.len() > 0 && !(cell.wide && col == cols - 1) ==> d.symbol
                == cell.contents
            &&& cell.contents.len() == 0 || (cell.wide && col == cols - 1) ==> d.symbol == " "@
        }),
{
    assert(0 < cols) by (nonlinear_arith)
        requires
            0 <= i < rows * cols,
            0 <= cols,
    ;
    assert(0 <= i / cols < rows) by (nonlinear_arith)
        requires
            0 <= i < rows * cols,
            0 < cols,
    ;
    assert(0 <= i % cols < cols) by (nonlinear_arith)
        requires
            0 < cols,
    ;
    vstd::arithmetic::div_mod::lemma_fundamental_div_mod(i, cols);
    assert(i == (i / cols) * cols + i % cols) by (nonlinear_arith)
        requires
            i == cols * (i / cols) + i % cols,
    ;
}

/// As many cells are drawn as the clip has.
pub proof fn whole_clip_is_drawn(c: Map<(u16, u16), VtCellView>, area: Rect, rows: int, cols: int)
    requires
        0 <= rows,
        0 <= cols,
    ensures
        drawing(c, area, rows, cols).len() == rows * cols,
{
    assert(0 <= rows * cols) by (nonlinear_arith)
        requires
            0 <= rows,
            0 <= cols,
    ;
}

/// A double-width character is never drawn in the last column shown, where its
/// second half would fall outside.
pub proof fn wide_never_straddles(c: VtCellView, cols: int)
    requires
        c.wide,
    ensures
        symbol_of(c, cols - 1, cols) == " "@,
{
}

/// The reported cursor lies within a grid that has a cell.
pub proof fn cursor_stays_inside(size: (u16, u16), at: (u16, u16))
    requires
        size.0 > 0,
        size.1 > 0,
    ensures
        clamped(size, at).0 < size.1,
        clamped(size, at).1 < size.0,
{
}

/// Output without the first byte of a selector is plain, whatever else it holds.
pub proof fn output_without_selectors_is_plain(t: Terminal, s: Seq<u8>)
    requires
        !s.contains(0xef),
    ensures
        is_plain(s),
        read_on(t, s) == vt_read(t, s),
        held_back(s).len() == 0,
{
    bytes::first_found_least(s, selector());
    if let Some(i) = bytes::first_found(s, selector()) {
        assert(s.subrange(i, i + 3)[0] == s[i]);
        assert(s.contains(s[i]));
    }
    let n = s.len() as int;
    if n >= 1 {
        assert(s.contains(s[n - 1]));
    }
    if n >= 2 {
        assert(s.contains(s[n - 2]));
    }
    assert(lead(s) == n);
    assert(s.take(n) =~= s);
}

/// The beginning of a selector at the end of plain output is left for later, and read with
/// what follows it.
pub proof fn cut_selector_is_left_for_later(s: Seq<u8>)
    requires
        !s.contains(0xef),
    ensures
        held_back(s + seq![0xefu8]) == seq![0xefu8],
        held_back(s + seq![0xefu8, 0xb8u8]) == seq![0xefu8, 0xb8u8],
{
    let a = s + seq![0xefu8];
    let b = s + seq![0xefu8, 0xb8u8];
    let n = s.len() as int;
    no_selector_inside(s, seq![0xefu8]);
    no_selector_inside(s, seq![0xefu8, 0xb8u8]);
    reveal_with_fuel(lead, 2);
    if n >= 1 {
        assert(s.contains(s[n - 1]));
    }
    if n >= 2 {
        assert(s.contains(s[n - 2]));
    }
    assert(a.take(n) =~= s);
    assert(b.take(n) =~= s);
    assert(lead(s) == n);
    assert(lead(a) == n);
    assert(lead(b) == n);
    assert(a.skip(n) =~= seq![0xefu8]);
    assert(b.skip(n) =~= seq![0xefu8, 0xb8u8]);
}

proof fn no_selector_inside(s: Seq<u8>, end: Seq<u8>)
    requires
        !s.contains(0xef),
        end == seq![0xefu8] || end == seq![0xefu8, 0xb8u8],
    ensures
        bytes::first_found(s + end, selector()) is None,
{
    let a = s + end;
    bytes::first_found_least(a, selector());
    if let Some(i) = bytes::first_found(a, selector()) {
        assert(a.subrange(i, i + 3)[0] == a[i]);
        if i < s.len() {
            assert(s.contains(s[i]));
        }
    }
}

/// A cursor that is within the grid is where the terminal has it, as column and row.
pub proof fn cursor_is_where_the_terminal_has_it(rows: u16, cols: u16, row: u16, col: u16)
    requires
        row < rows,
        col < cols,
    ensures
        clamped((rows, cols), (row, col)) == (col, row),
{
}

/// A pane is repainted by its screen and then the modes that are on, each by its own
/// sequence, and no other.
pub proof fn modes_are_restored(formatted: Seq<u8>)
    ensures
        restoring(formatted, false, false, false, false) == formatted,
        restoring(formatted, true, false, false, false) == formatted + seq![
            0x1bu8,
            0x5b,
            0x3f,
            0x32,
            0x30,
            0x30,
            0x34,
            0x68,
        ],
        restoring(formatted, false, true, false, false) == formatted + seq![
            0x1bu8,
            0x5b,
            0x3f,
            0x31,
            0x68,
        ],
        restoring(formatted, false, false, true, false) == formatted + seq![0x1bu8, 0x3d],
        restoring(formatted, false, false, false, true) == formatted + seq![
            0x1bu8,
            0x5b,
            0x3f,
            0x32,
            0x35,
            0x6c,
        ],
        restoring(formatted, true, true, true, true) == formatted + seq![
            0x1bu8,
            0x5b,
            0x3f,
            0x32,
            0x30,
            0x30,
            0x34,
            0x68,
        ] + seq![0x1bu8, 0x5b, 0x3f, 0x31, 0x68] + seq![0x1bu8, 0x3d] + seq![
            0x1bu8,
            0x5b,
            0x3f,
            0x32,
            0x35,
            0x6c,
        ],
{
    let none = Seq::<u8>::empty();
    assert(formatted + none + none + none + none =~= formatted);
    assert(restoring(formatted, true, false, false, false) =~= formatted + seq![
        0x1bu8,
        0x5b,
        0x3f,
        0x32,
        0x30,
        0x30,
        0x34,
        0x68,
    ]);
    assert(restoring(formatted, false, true, false, false) =~= formatted + seq![
        0x1bu8,
        0x5b,
        0x3f,
        0x31,
        0x68,
    ]);
    assert(restoring(formatted, false, false, true, false) =~= formatted + seq![0x1bu8, 0x3d]);
    assert(restoring(formatted, false, false, false, true) =~= formatted + seq![
        0x1bu8,
        0x5b,
        0x3f,
        0x32,
        0x35,
        0x6c,
    ]);
}

} // verus!
