//! The viewport onto the buffer, and the screen layout drawn from it: which
//! lines and columns are visible, the gutter, and the text and style of every
//! span that makes up a frame.

use vstd::prelude::*;
use crate::buffer::{Buffer, BufferView, min_int, max_int, language_for_extension};
use crate::search::{SearchState, SearchView};
use crate::text::{
    chars_of, push_char, push_str, decimal_text, decimal_string, utf8_len, utf8_len_of,
    is_char_offset, char_index, find_char_index, offset_of, lemma_utf8_len_at_least, char_width,
    char_len_utf8, lemma_char_width,
};
use crate::lsp::diagnostics::{DiagnosticStore, DiagView, is_error_on, is_warning_on, marks};
use crate::picker::{Picker, PickerView, clamp};
use crate::syntax::{StyledSegment, segment_view, segment_views};

verus! {

/// Number of decimal digits of `n`.
pub open spec fn decimal_digits(n: nat) -> nat
    decreases n,
{
    if n < 10 {
        1
    } else {
        1 + decimal_digits(n / 10)
    }
}

proof fn lemma_digits_bound(n: nat)
    ensures
        1 <= decimal_digits(n) <= 1 + n / 10,
    decreases n,
{
    if n >= 10 {
        lemma_digits_bound(n / 10);
    }
}

/// Ten to the power `k`.
pub open spec fn pow10(k: nat) -> nat
    decreases k,
{
    if k == 0 {
        1
    } else {
        10 * pow10((k - 1) as nat)
    }
}

/// A number below ten to the `k` has at most `k` digits.
proof fn lemma_digits_below(n: nat, k: nat)
    requires
        k >= 1,
        n < pow10(k),
    ensures
        decimal_digits(n) <= k,
    decreases k,
{
    if n >= 10 {
        if k == 1 {
            assert(pow10(1) == 10 * pow10(0));
        } else {
            assert(pow10(k) == 10 * pow10((k - 1) as nat));
            lemma_digits_below(n / 10, (k - 1) as nat);
        }
    }
}

/// A machine word has at most twenty decimal digits.
proof fn lemma_word_digits(n: nat)
    requires
        n <= usize::MAX,
    ensures
        1 <= decimal_digits(n) <= 20,
{
    lemma_digits_bound(n);
    assert(pow10(20) == 100000000000000000000nat) by {
        reveal_with_fuel(pow10, 21);
    }
    lemma_digits_below(n, 20);
}

/// Number of decimal digits of `n`, as its `to_string` has them.
pub fn digit_count(n: usize) -> (d: usize)
    ensures
        d == decimal_digits(n as nat),
{
    proof {
        lemma_digits_bound(n as nat);
    }
    let mut d: usize = 1;
    let mut m: usize = n;
    while m >= 10
        invariant
            d + decimal_digits(m as nat) == decimal_digits(n as nat) + 1,
            decimal_digits(n as nat) <= 1 + n / 10,
        decreases m,
    {
        proof {
            lemma_digits_bound(m as nat);
        }
        m = m / 10;
        d = d + 1;
    }
    d
}

/// Width of the gutter: a marker, the line numbers and a space each side.
pub open spec fn gutter_width_of(line_count: nat) -> u16 {
    (decimal_digits(if line_count >= 1 { line_count } else { 1 }) + 3) as u16
}

/// Width of the gutter for a buffer.
pub fn gutter_width(buffer: &Buffer) -> (w: u16)
    requires
        buffer.wf(),
    ensures
        w == gutter_width_of(buffer@.line_count()),
        4 <= w <= 23,
{
    let n = buffer.line_count();
    let d = digit_count(if n >= 1 { n } else { 1 });
    proof {
        lemma_word_digits(if n >= 1 { n as nat } else { 1 });
    }
    (d + 3) as u16
}

/// Rows of text between the menu bar and the status line.
pub fn text_height(height: u16) -> (r: usize)
    ensures
        r == max_int(height - 2, 0),
{
    height.saturating_sub(2) as usize
}

/// The screen row of a text row: one below the menu bar.
pub fn editor_y(screen_row: usize) -> (y: u16)
    ensures
        y == (min_int(screen_row + 1, usize::MAX as int)) as u16,
{
    screen_row.saturating_add(1) as u16
}

/// Display width of text: a tab takes four columns, any other character one.
pub open spec fn visual_width(cs: Seq<char>) -> nat
    decreases cs.len(),
{
    if cs.len() == 0 {
        0
    } else {
        visual_width(cs.drop_last()) + if cs.last() == '\t' { 4nat } else { 1nat }
    }
}

/// The display width of `s`.
pub fn visual_col(s: &str) -> (w: usize)
    requires
        visual_width(s@) <= usize::MAX,
    ensures
        w == visual_width(s@),
{
    let cs = chars_of(s);
    let mut w: usize = 0;
    let mut i: usize = 0;
    proof {
        assert(cs@.take(0) =~= Seq::<char>::empty());
    }
    while i < cs.len()
        invariant
            cs@ == s@,
            i <= cs@.len(),
            w == visual_width(cs@.take(i as int)),
            visual_width(s@) <= usize::MAX,
        decreases cs@.len() - i,
    {
        proof {
            assert(cs@.take(i + 1).drop_last() =~= cs@.take(i as int));
            lemma_visual_width_prefix(cs@, i + 1);
        }
        if cs[i] == '\t' {
            w = w + 4;
        } else {
            w = w + 1;
        }
        i = i + 1;
    }
    proof {
        assert(cs@.take(cs@.len() as int) =~= cs@);
    }
    w
}

/// A prefix is no wider than the whole.
pub proof fn lemma_visual_width_prefix(cs: Seq<char>, k: int)
    requires
        0 <= k <= cs.len(),
    ensures
        visual_width(cs.take(k)) <= visual_width(cs),
    decreases cs.len(),
{
    if k < cs.len() {
        assert(cs.drop_last().take(k) =~= cs.take(k));
        lemma_visual_width_prefix(cs.drop_last(), k);
    } else {
        assert(cs.take(k) =~= cs);
    }
}

/// `cs` cut or filled with spaces to exactly `width` characters.
pub open spec fn padded(cs: Seq<char>, width: nat) -> Seq<char> {
    if cs.len() >= width {
        cs.take(width as int)
    } else {
        cs + Seq::new((width - cs.len()) as nat, |i: int| ' ')
    }
}

/// `text` cut or filled with spaces to exactly `width` characters.
pub fn pad(text: &str, width: usize) -> (r: String)
    ensures
        r@ == padded(text@, width as nat),
{
    let cs = chars_of(text);
    let mut out = String::new();
    let mut i: usize = 0;
    while i < cs.len() && i < width
        invariant
            i <= cs@.len(),
            i <= width,
            out@ == cs@.take(i as int),
        decreases cs@.len() - i,
    {
        push_char(&mut out, cs[i]);
        proof {
            assert(cs@.take(i + 1) =~= cs@.take(i as int).push(cs@[i as int]));
        }
        i = i + 1;
    }
    let ghost head = out@;
    let mut n: usize = i;
    while n < width
        invariant
            i <= n <= width,
            out@ == head + Seq::new((n - i) as nat, |k: int| ' '),
        decreases width - n,
    {
        push_char(&mut out, ' ');
        proof {
            assert(head + Seq::new((n + 1 - i) as nat, |k: int| ' ') =~= (head + Seq::new(
                (n - i) as nat,
                |k: int| ' ',
            )).push(' '));
        }
        n = n + 1;
    }
    proof {
        if cs@.len() >= width {
            assert(i == width);
            assert(out@ =~= cs@.take(width as int));
        } else {
            assert(i == cs@.len());
            assert(head =~= cs@);
        }
    }
    out
}

/// The part of the buffer that is on screen, and the column that vertical
/// moves keep to.
#[derive(Debug)]
pub struct Viewport {
    pub top_line: usize,
    pub left_col: usize,
    preferred_col: Option<usize>,
}

/// The mathematical form of a viewport.
pub struct ViewportView {
    pub top_line: int,
    pub left_col: int,
    pub preferred_col: Option<int>,
}

impl View for Viewport {
    type V = ViewportView;

    closed spec fn view(&self) -> ViewportView {
        ViewportView {
            top_line: self.top_line as int,
            left_col: self.left_col as int,
            preferred_col: match self.preferred_col {
                Some(c) => Some(c as int),
                None => None,
            },
        }
    }
}

/// The first of a window of `rows` rows that starts at `top` and shows `line`,
/// moving the window as little as it takes.
pub open spec fn scrolled_to(top: int, line: int, rows: int) -> int {
    if line < top {
        line
    } else if rows > 0 && line >= top + rows {
        max_int(line - (rows - 1), 0)
    } else {
        top
    }
}

/// Scrolling to a line shows it: the window of `rows` rows (at least one)
/// then holds the line, and scrolling to it again moves nothing.
pub proof fn law_scrolled_shows_line(top: int, line: int, rows: int)
    requires
        0 <= top,
        0 <= line,
        rows >= 1,
    ensures
        scrolled_to(top, line, rows) <= line < scrolled_to(top, line, rows) + rows,
        scrolled_to(scrolled_to(top, line, rows), line, rows) == scrolled_to(top, line, rows),
{
}

impl Viewport {
    /// A viewport on the top left of the buffer.
    pub fn new() -> (v: Viewport)
        ensures
            v@ == (ViewportView { top_line: 0, left_col: 0, preferred_col: None }),
    {
        Viewport { top_line: 0, left_col: 0, preferred_col: None }
    }

    /// The first line on screen.
    pub fn first_line(&self) -> (r: usize)
        ensures
            r == self@.top_line,
    {
        self.top_line
    }

    /// The first column on screen.
    pub fn first_col(&self) -> (r: usize)
        ensures
            r == self@.left_col,
    {
        self.left_col
    }

    /// Scrolls so that `line` is the first on screen.
    pub fn set_first_line(&mut self, line: usize)
        ensures
            final(self)@ == (ViewportView { top_line: line as int, ..old(self)@ }),
    {
        self.top_line = line;
    }

    /// The column that vertical moves keep to: the one remembered, else the
    /// cursor's, which is then remembered.
    pub fn take_preferred_col(&mut self, buffer: &Buffer) -> (c: usize)
        requires
            buffer.wf(),
        ensures
            final(self)@.top_line == old(self)@.top_line,
            final(self)@.left_col == old(self)@.left_col,
            final(self)@.preferred_col == Some(c as int),
            match old(self)@.preferred_col {
                Some(p) => c == p,
                None => c == buffer@.col_of_cursor(),
            },
    {
        match self.preferred_col {
            Some(c) => c,
            None => {
                let (line, col) = buffer.line_col();
                self.preferred_col = Some(col);
                col
            },
        }
    }

    /// Forgets the remembered column.
    pub fn clear_preferred_col(&mut self)
        ensures
            final(self)@ == (ViewportView { preferred_col: None, ..old(self)@ }),
    {
        self.preferred_col = None;
    }

    /// Scrolls as little as it takes for the cursor to be on screen, for a
    /// terminal of `width` columns and `height` rows.
    pub fn ensure_cursor_visible(&mut self, buffer: &Buffer, height: u16, width: u16)
        requires
            buffer.wf(),
        ensures
            final(self)@.preferred_col == old(self)@.preferred_col,
            final(self)@.top_line == scrolled_to(
                old(self)@.top_line,
                buffer@.line_of_cursor(),
                max_int(height - 2, 0),
            ),
            final(self)@.left_col == scrolled_to(
                old(self)@.left_col,
                buffer@.col_of_cursor(),
                max_int(max_int(width - (gutter_width_of(buffer@.line_count()) + 1), 0), 1),
            ),
    {
        let (line, col) = buffer.line_col();
        let text_rows = text_height(height);
        if line < self.top_line {
            self.top_line = line;
        } else if text_rows > 0 && line - self.top_line >= text_rows {
            self.top_line = line.saturating_sub(text_rows - 1);
        }
        let gutter = gutter_width(buffer) as usize;
        let avail = (width as usize).saturating_sub(gutter + 1);
        let text_cols = if avail > 1 { avail } else { 1 };
        if col < self.left_col {
            self.left_col = col;
        } else if col - self.left_col >= text_cols {
            self.left_col = col.saturating_sub(text_cols - 1);
        }
    }
}

/// A terminal colour.
#[derive(Clone, Copy, Debug, PartialEq, Eq, Structural)]
pub enum Color {
    Black,
    DarkGrey,
    Red,
    Yellow,
    DarkYellow,
    White,
    Rgb { r: u8, g: u8, b: u8 },
}

/// A text attribute.
#[derive(Clone, Copy, Debug, PartialEq, Eq, Structural)]
pub enum Attr {
    Reset,
    Bold,
    Underlined,
    NoUnderline,
    Reverse,
}

/// One terminal command of a frame.
#[derive(Debug)]
pub enum Draw {
    MoveTo(u16, u16),
    Print(String),
    Fg(Color),
    Bg(Color),
    ResetColor,
    Attr(Attr),
    Hide,
    Show,
    ClearAll,
    BeginSync,
    EndSync,
}

/// The mathematical form of a terminal command.
pub enum DrawView {
    MoveTo(u16, u16),
    Print(Seq<char>),
    Fg(Color),
    Bg(Color),
    ResetColor,
    Attr(Attr),
    Hide,
    Show,
    ClearAll,
    BeginSync,
    EndSync,
}

pub open spec fn draw_view(d: Draw) -> DrawView {
    match d {
        Draw::MoveTo(x, y) => DrawView::MoveTo(x, y),
        Draw::Print(s) => DrawView::Print(s@),
        Draw::Fg(c) => DrawView::Fg(c),
        Draw::Bg(c) => DrawView::Bg(c),
        Draw::ResetColor => DrawView::ResetColor,
        Draw::Attr(a) => DrawView::Attr(a),
        Draw::Hide => DrawView::Hide,
        Draw::Show => DrawView::Show,
        Draw::ClearAll => DrawView::ClearAll,
        Draw::BeginSync => DrawView::BeginSync,
        Draw::EndSync => DrawView::EndSync,
    }
}

pub open spec fn draws(s: Seq<Draw>) -> Seq<DrawView> {
    s.map_values(|d: Draw| draw_view(d))
}

/// Colour of the line numbers.
pub const GUTTER_FG: Color = Color::DarkGrey;

/// Colour of frames.
pub const FRAME_FG: Color = Color::DarkGrey;

/// Colour of titles.
pub const TITLE_FG: Color = Color::White;

/// Colour of hints.
pub const MUTED_FG: Color = Color::DarkGrey;

/// Background of the search bar.
pub const FIND_BG: Color = Color::DarkYellow;

/// Text colour of the search bar.
pub const FIND_FG: Color = Color::Black;

fn put(out: &mut Vec<Draw>, d: Draw)
    ensures
        draws(final(out)@) == draws(old(out)@).push(draw_view(d)),
{
    let ghost before = out@;
    out.push(d);
    proof {
        assert(draws(out@) =~= draws(before).push(draw_view(d)));
    }
}

fn print(out: &mut Vec<Draw>, s: &str)
    ensures
        draws(final(out)@) == draws(old(out)@).push(DrawView::Print(s@)),
{
    put(out, Draw::Print(s.to_owned()));
}

/// `n` copies of `c`.
pub open spec fn repeated(c: char, n: nat) -> Seq<char> {
    Seq::new(n, |i: int| c)
}

/// A string of `n` copies of `c`.
pub fn repeat_char(c: char, n: usize) -> (r: String)
    ensures
        r@ == repeated(c, n as nat),
{
    let mut out = String::new();
    let mut k: usize = 0;
    while k < n
        invariant
            k <= n,
            out@ == repeated(c, k as nat),
        decreases n - k,
    {
        push_char(&mut out, c);
        proof {
            assert(out@ =~= repeated(c, (k + 1) as nat));
        }
        k = k + 1;
    }
    out
}

/// A menu-bar title with its hotkey (the character after the leading
/// space) underlined.
pub open spec fn label_draws(x: u16, label: Seq<char>, hotkey: Seq<char>) -> Seq<DrawView> {
    seq![
        DrawView::MoveTo(x, 0),
        DrawView::Print(label),
        DrawView::MoveTo((x + 1) as u16, 0),
        DrawView::Attr(Attr::Underlined),
        DrawView::Print(hotkey),
        DrawView::Attr(Attr::NoUnderline),
        DrawView::Attr(Attr::Reverse),
    ]
}

/// The menu bar across the top row.
pub open spec fn menu_bar_draws(width: u16) -> Seq<DrawView> {
    seq![
        DrawView::MoveTo(0, 0),
        DrawView::ResetColor,
        DrawView::Attr(Attr::Reverse),
        DrawView::Print(padded(Seq::empty(), width as nat)),
    ] + label_draws(1, " File "@, "F"@) + label_draws(8, " Search "@, "S"@) + label_draws(
        17,
        " Navigate "@,
        "N"@,
    ) + label_draws(28, " LSP "@, "L"@) + label_draws(34, " Help "@, "H"@) + seq![
        DrawView::ResetColor,
        DrawView::Attr(Attr::Reset),
    ]
}

fn draw_label(out: &mut Vec<Draw>, x: u16, label: &str, hotkey: &str)
    requires
        x < 65535,
    ensures
        draws(final(out)@) == draws(old(out)@) + label_draws(x, label@, hotkey@),
{
    let ghost d0 = draws(out@);
    put(out, Draw::MoveTo(x, 0));
    print(out, label);
    put(out, Draw::MoveTo(x + 1, 0));
    put(out, Draw::Attr(Attr::Underlined));
    print(out, hotkey);
    put(out, Draw::Attr(Attr::NoUnderline));
    put(out, Draw::Attr(Attr::Reverse));
    proof {
        assert(draws(out@) =~= d0 + label_draws(x, label@, hotkey@));
    }
}

fn draw_menu(out: &mut Vec<Draw>, width: u16)
    ensures
        draws(final(out)@) == draws(old(out)@) + menu_bar_draws(width),
{
    let ghost d0 = draws(out@);
    put(out, Draw::MoveTo(0, 0));
    put(out, Draw::ResetColor);
    put(out, Draw::Attr(Attr::Reverse));
    let bar = pad("", width as usize);
    proof {
        reveal_strlit("");
        assert(""@ =~= Seq::<char>::empty());
    }
    put(out, Draw::Print(bar));
    let ghost d1 = draws(out@);
    proof {
        assert(d1 =~= d0 + seq![
            DrawView::MoveTo(0, 0),
            DrawView::ResetColor,
            DrawView::Attr(Attr::Reverse),
            DrawView::Print(padded(Seq::empty(), width as nat)),
        ]);
    }
    draw_label(out, 1, " File ", "F");
    draw_label(out, 8, " Search ", "S");
    draw_label(out, 17, " Navigate ", "N");
    draw_label(out, 28, " LSP ", "L");
    draw_label(out, 34, " Help ", "H");
    let ghost d2 = draws(out@);
    put(out, Draw::ResetColor);
    put(out, Draw::Attr(Attr::Reset));
    proof {
        assert(draws(out@) =~= d2 + seq![DrawView::ResetColor, DrawView::Attr(Attr::Reset)]);
        assert(draws(out@) =~= d0 + menu_bar_draws(width));
    }
}

/// True when an error (or a diagnostic without severity) covers the line.
pub open spec fn error_on_line(ds: Seq<DiagView>, line: int) -> bool {
    exists|i: int| 0 <= i < ds.len() && is_error_on(#[trigger] ds[i], line)
}

/// True when a warning covers the line.
pub open spec fn warning_on_line(ds: Seq<DiagView>, line: int) -> bool {
    exists|i: int| 0 <= i < ds.len() && is_warning_on(#[trigger] ds[i], line)
}

/// `t` right-aligned in a field of `w` characters.
pub open spec fn right_aligned(t: Seq<char>, w: nat) -> Seq<char> {
    repeated(' ', if w > t.len() { (w - t.len()) as nat } else { 0 }) + t
}

/// The gutter of a screen row: a diagnostic marker, then the line number
/// (blank below the last line).
pub open spec fn gutter_draws(ds: Seq<DiagView>, line_count: nat, line_idx: int, gutter: u16) -> Seq<DrawView> {
    let digits = max_int(gutter - 3, 0) as nat;
    let (mark, color) = if error_on_line(ds, line_idx) {
        ("■"@, Color::Red)
    } else if warning_on_line(ds, line_idx) {
        ("■"@, Color::Yellow)
    } else {
        ("│"@, FRAME_FG)
    };
    seq![
        DrawView::ResetColor,
        DrawView::Fg(color),
        DrawView::Print(mark),
        DrawView::ResetColor,
    ] + if line_idx < line_count {
        seq![
            DrawView::Fg(GUTTER_FG),
            DrawView::Print(right_aligned(decimal_text((line_idx + 1) as nat), digits) + " "@),
            DrawView::ResetColor,
        ]
    } else {
        seq![DrawView::Print(repeated(' ', max_int(gutter - 1, 0) as nat))]
    }
}

fn draw_gutter(out: &mut Vec<Draw>, buffer: &Buffer, diagnostics: &DiagnosticStore, line_idx: usize, gutter: u16)
    requires
        buffer.wf(),
        gutter >= 1,
    ensures
        draws(final(out)@) == draws(old(out)@) + gutter_draws(
            diagnostics@,
            buffer@.line_count(),
            line_idx as int,
            gutter,
        ),
{
    let ghost d0 = draws(out@);
    let digits: usize = if gutter >= 3 {
        (gutter - 3) as usize
    } else {
        0
    };
    let (mark, color) = if diagnostics.has_error_on_line(line_idx) {
        ("■", Color::Red)
    } else if diagnostics.has_warning_on_line(line_idx) {
        ("■", Color::Yellow)
    } else {
        ("│", FRAME_FG)
    };
    put(out, Draw::ResetColor);
    put(out, Draw::Fg(color));
    print(out, mark);
    put(out, Draw::ResetColor);
    if line_idx < buffer.line_count() {
        put(out, Draw::Fg(GUTTER_FG));
        let number = decimal_string(line_idx + 1);
        let n = chars_of(number.as_str()).len();
        let mut text = if digits > n {
            repeat_char(' ', digits - n)
        } else {
            String::new()
        };
        push_str(&mut text, number.as_str());
        push_str(&mut text, " ");
        proof {
            assert(text@ =~= right_aligned(decimal_text((line_idx + 1) as nat), digits as nat) + " "@);
        }
        put(out, Draw::Print(text));
        put(out, Draw::ResetColor);
    } else {
        let blank = repeat_char(' ', (gutter - 1) as usize);
        put(out, Draw::Print(blank));
    }
    proof {
        assert(draws(out@) =~= d0 + gutter_draws(diagnostics@, buffer@.line_count(), line_idx as int, gutter));
    }
}

/// A frame of `w` columns and `h` rows at (`x`, `y`), its title on the top
/// border; nothing when it is too small.
pub open spec fn box_draws(x: nat, y: nat, w: nat, h: nat, title: Seq<char>) -> Seq<DrawView> {
    if w < 4 || h < 3 {
        Seq::empty()
    } else {
        seq![
            DrawView::MoveTo(x as u16, y as u16),
            DrawView::ResetColor,
            DrawView::Fg(FRAME_FG),
            DrawView::Print("┌"@),
            DrawView::Print(repeated('─', (w - 2) as nat)),
            DrawView::Print("┐"@),
            DrawView::MoveTo((x + 2) as u16, y as u16),
            DrawView::Fg(TITLE_FG),
            DrawView::Attr(Attr::Bold),
            DrawView::Print(title),
            DrawView::Attr(Attr::Reset),
        ] + box_rows(x, y, w, 1, (h - 1) as nat) + seq![
            DrawView::MoveTo(x as u16, (y + h - 1) as u16),
            DrawView::ResetColor,
            DrawView::Fg(FRAME_FG),
            DrawView::Print("└"@),
            DrawView::Print(repeated('─', (w - 2) as nat)),
            DrawView::Print("┘"@),
            DrawView::ResetColor,
        ]
    }
}

/// The sides of a frame, for rows `from` up to `to`.
pub open spec fn box_rows(x: nat, y: nat, w: nat, from: nat, to: nat) -> Seq<DrawView>
    decreases to - from,
{
    if from >= to {
        Seq::empty()
    } else {
        seq![
            DrawView::MoveTo(x as u16, (y + from) as u16),
            DrawView::ResetColor,
            DrawView::Fg(FRAME_FG),
            DrawView::Print("│"@),
            DrawView::ResetColor,
            DrawView::Print(repeated(' ', (w - 2) as nat)),
            DrawView::Fg(FRAME_FG),
            DrawView::Print("│"@),
        ] + box_rows(x, y, w, from + 1, to)
    }
}

fn draw_box(out: &mut Vec<Draw>, x: usize, y: usize, width: usize, height: usize, title: &str)
    requires
        x <= 0x20000,
        y <= 0x20000,
        width <= 0x20000,
        height <= 0x20000,
    ensures
        draws(final(out)@) == draws(old(out)@) + box_draws(
            x as nat,
            y as nat,
            width as nat,
            height as nat,
            title@,
        ),
{
    let ghost d0 = draws(out@);
    if width < 4 || height < 3 {
        proof {
            assert(draws(out@) =~= d0 + Seq::<DrawView>::empty());
        }
        return;
    }
    put(out, Draw::MoveTo(x as u16, y as u16));
    put(out, Draw::ResetColor);
    put(out, Draw::Fg(FRAME_FG));
    print(out, "┌");
    put(out, Draw::Print(repeat_char('─', width - 2)));
    print(out, "┐");
    put(out, Draw::MoveTo((x + 2) as u16, y as u16));
    put(out, Draw::Fg(TITLE_FG));
    put(out, Draw::Attr(Attr::Bold));
    print(out, title);
    put(out, Draw::Attr(Attr::Reset));
    let ghost d1 = draws(out@);
    let mut row: usize = 1;
    proof {
        assert(d1 + box_rows(x as nat, y as nat, width as nat, 1, (height - 1) as nat) == d1
            + box_rows(x as nat, y as nat, width as nat, 1, (height - 1) as nat));
        assert(draws(out@) =~= d1 + Seq::<DrawView>::empty());
    }
    while row < height - 1
        invariant
            1 <= row <= height - 1,
            x <= 0x20000,
            y <= 0x20000,
            width <= 0x20000,
            height <= 0x20000,
            width >= 4,
            draws(out@) + box_rows(x as nat, y as nat, width as nat, row as nat, (height - 1) as nat)
                == d1 + box_rows(x as nat, y as nat, width as nat, 1, (height - 1) as nat),
        decreases height - 1 - row,
    {
        let ghost before = draws(out@);
        put(out, Draw::MoveTo(x as u16, (y + row) as u16));
        put(out, Draw::ResetColor);
        put(out, Draw::Fg(FRAME_FG));
        print(out, "│");
        put(out, Draw::ResetColor);
        put(out, Draw::Print(repeat_char(' ', width - 2)));
        put(out, Draw::Fg(FRAME_FG));
        print(out, "│");
        proof {
            let r = box_rows(x as nat, y as nat, width as nat, row as nat, (height - 1) as nat);
            let r2 = box_rows(x as nat, y as nat, width as nat, (row + 1) as nat, (height - 1) as nat);
            assert(draws(out@) + r2 =~= before + r);
        }
        row = row + 1;
    }
    proof {
        assert(box_rows(x as nat, y as nat, width as nat, row as nat, (height - 1) as nat) =~= Seq::<
            DrawView,
        >::empty());
        assert(draws(out@) + Seq::<DrawView>::empty() =~= draws(out@));
    }
    put(out, Draw::MoveTo(x as u16, (y + height - 1) as u16));
    put(out, Draw::ResetColor);
    put(out, Draw::Fg(FRAME_FG));
    print(out, "└");
    put(out, Draw::Print(repeat_char('─', width - 2)));
    print(out, "┘");
    put(out, Draw::ResetColor);
    proof {
        assert(draws(out@) =~= d0 + box_draws(x as nat, y as nat, width as nat, height as nat, title@));
    }
}

/// The file's name as the status line shows it.
pub open spec fn file_name_text(b: BufferView) -> Seq<char> {
    match b.path {
        Some(p) => p,
        None => "[No Name]"@,
    }
}

/// The left part of the status line.
pub open spec fn status_left(b: BufferView, lsp_status: Seq<char>) -> Seq<char> {
    " "@ + (if b.modified {
        "●"@
    } else {
        "·"@
    }) + " "@ + file_name_text(b) + "  "@ + language_for_extension(b.extension()) + "  Ln "@
        + decimal_text((b.line_of_cursor() + 1) as nat) + ", Col "@ + decimal_text(
        (b.col_of_cursor() + 1) as nat,
    ) + "  "@ + lsp_status + " "@
}

/// The right part of the status line: the message, else the theme.
pub open spec fn status_right(message: Seq<char>, theme: Seq<char>) -> Seq<char> {
    if message.len() == 0 {
        "theme: "@ + theme + " "@
    } else {
        message + " "@
    }
}

/// The status text: the right part pushed to the far end when both fit
/// (in bytes) within the width.
pub open spec fn status_text(left: Seq<char>, right: Seq<char>, width: nat) -> Seq<char> {
    if utf8_len(left) + utf8_len(right) < width {
        left + repeated(' ', (width - utf8_len(left) - utf8_len(right)) as nat) + right
    } else {
        left
    }
}

/// `t` cut to `n` bytes, as `String::truncate` does; `None` where that would
/// cut a character.
pub open spec fn truncated(t: Seq<char>, n: nat) -> Option<Seq<char>> {
    if n >= utf8_len(t) {
        Some(t)
    } else if is_char_offset(t, n as int) {
        Some(t.take(char_index(t, n as int)))
    } else {
        None
    }
}

/// The status line on row `row`; `None` where cutting it to the width would
/// cut a character, or where the column number does not fit in a machine
/// word.
pub open spec fn status_draws(
    b: BufferView,
    lsp_status: Seq<char>,
    message: Seq<char>,
    theme: Seq<char>,
    width: u16,
    row: u16,
) -> Option<Seq<DrawView>> {
    let text = status_text(status_left(b, lsp_status), status_right(message, theme), width as nat);
    if b.col_of_cursor() >= usize::MAX {
        None
    } else {
        match truncated(text, width as nat) {
        Some(t) => Some(
            seq![
                DrawView::MoveTo(0, row),
                DrawView::ResetColor,
                DrawView::Attr(Attr::Reverse),
                DrawView::Print(padded(t, width as nat)),
                DrawView::ResetColor,
                DrawView::Attr(Attr::Reset),
            ],
        ),
        None => None,
        }
    }
}

/// `s` cut to `n` bytes; `None` where that would cut a character.
pub fn truncate_at(s: &str, n: usize) -> (r: Option<String>)
    ensures
        match truncated(s@, n as nat) {
            Some(t) => r matches Some(x) && x@ == t,
            None => r is None,
        },
{
    let len = utf8_len_of(s);
    if n >= len {
        return Some(s.to_owned());
    }
    let cs = chars_of(s);
    match find_char_index(&cs, n) {
        Some(k) => {
            let mut out = String::new();
            let mut i: usize = 0;
            while i < k
                invariant
                    k <= cs@.len(),
                    i <= k,
                    out@ == cs@.take(i as int),
                decreases k - i,
            {
                push_char(&mut out, cs[i]);
                proof {
                    assert(cs@.take(i + 1) =~= cs@.take(i as int).push(cs@[i as int]));
                }
                i = i + 1;
            }
            Some(out)
        },
        None => None,
    }
}

fn draw_status(
    out: &mut Vec<Draw>,
    buffer: &Buffer,
    lsp_status: &str,
    message: &str,
    theme: &str,
    width: u16,
    row: u16,
) -> (ok: bool)
    requires
        buffer.wf(),
    ensures
        match status_draws(buffer@, lsp_status@, message@, theme@, width, row) {
            Some(d) => ok && draws(final(out)@) == draws(old(out)@) + d,
            None => !ok,
        },
{
    let ghost d0 = draws(out@);
    let (line, col) = buffer.line_col();
    let count = buffer.line_count();
    let len = buffer.len();
    if col == usize::MAX {
        return false;
    }
    let mut left = " ".to_owned();
    if buffer.is_modified() {
        push_str(&mut left, "●");
    } else {
        push_str(&mut left, "·");
    }
    push_str(&mut left, " ");
    let name = buffer.file_name();
    push_str(&mut left, name.as_str());
    push_str(&mut left, "  ");
    push_str(&mut left, buffer.language_name());
    push_str(&mut left, "  Ln ");
    let ln = decimal_string(line + 1);
    push_str(&mut left, ln.as_str());
    push_str(&mut left, ", Col ");
    let cn = decimal_string(col + 1);
    push_str(&mut left, cn.as_str());
    push_str(&mut left, "  ");
    push_str(&mut left, lsp_status);
    push_str(&mut left, " ");
    proof {
        assert(left@ =~= status_left(buffer@, lsp_status@));
    }
    let mut right = if message.is_empty() {
        let mut r = "theme: ".to_owned();
        push_str(&mut r, theme);
        r
    } else {
        message.to_owned()
    };
    push_str(&mut right, " ");
    proof {
        assert(right@ =~= status_right(message@, theme@));
    }
    let ll = utf8_len_of(left.as_str());
    let rl = utf8_len_of(right.as_str());
    let w = width as usize;
    let mut text = left;
    if ll < w && rl < w - ll {
        let fill = repeat_char(' ', w - ll - rl);
        push_str(&mut text, fill.as_str());
        push_str(&mut text, right.as_str());
    }
    proof {
        assert(text@ =~= status_text(status_left(buffer@, lsp_status@), status_right(message@, theme@), w as nat));
    }
    let t = match truncate_at(text.as_str(), w) {
        Some(t) => t,
        None => return false,
    };
    put(out, Draw::MoveTo(0, row));
    put(out, Draw::ResetColor);
    put(out, Draw::Attr(Attr::Reverse));
    put(out, Draw::Print(pad(t.as_str(), w)));
    put(out, Draw::ResetColor);
    put(out, Draw::Attr(Attr::Reset));
    proof {
        assert(draws(out@) =~= d0 + status_draws(buffer@, lsp_status@, message@, theme@, width, row)->0);
    }
    true
}

/// The search bar's text.
pub open spec fn search_bar_text(s: SearchView) -> Seq<char> {
    " Find: "@ + s.query + "  ["@ + decimal_text(
        if s.matches.len() == 0 {
            0nat
        } else {
            (s.current + 1) as nat
        },
    ) + "/"@ + decimal_text(s.matches.len()) + "]  Enter/Esc closes, Ctrl+G next, Ctrl+Shift+G previous "@
}

/// The search bar on row `row`.
pub open spec fn search_bar_draws(s: SearchView, width: u16, row: u16) -> Seq<DrawView> {
    seq![
        DrawView::MoveTo(0, row),
        DrawView::ResetColor,
        DrawView::Bg(FIND_BG),
        DrawView::Fg(FIND_FG),
        DrawView::Print(padded(search_bar_text(s), width as nat)),
        DrawView::ResetColor,
        DrawView::Attr(Attr::Reset),
    ]
}

/// Where the cursor stands in the search bar: after the query.
pub open spec fn search_bar_cursor(s: SearchView, width: u16, row: u16) -> (u16, u16) {
    ((min_int(7 + s.query.len() as int, max_int(width - 1, 0))) as u16, row)
}

fn draw_search(out: &mut Vec<Draw>, search: &SearchState, width: u16, row: u16) -> (r: (u16, u16))
    requires
        search.wf(),
    ensures
        draws(final(out)@) == draws(old(out)@) + search_bar_draws(search@, width, row),
        r == search_bar_cursor(search@, width, row),
{
    let ghost d0 = draws(out@);
    let mut text = " Find: ".to_owned();
    push_str(&mut text, search.query_text());
    push_str(&mut text, "  [");
    let ci = decimal_string(search.current_index());
    push_str(&mut text, ci.as_str());
    push_str(&mut text, "/");
    let cn = decimal_string(search.count());
    push_str(&mut text, cn.as_str());
    push_str(&mut text, "]  Enter/Esc closes, Ctrl+G next, Ctrl+Shift+G previous ");
    proof {
        assert(text@ =~= search_bar_text(search@));
    }
    let qn = chars_of(search.query_text()).len();
    let limit: usize = if width > 0 {
        (width - 1) as usize
    } else {
        0
    };
    let x: usize = if qn <= limit && 7 <= limit - qn {
        7 + qn
    } else {
        limit
    };
    put(out, Draw::MoveTo(0, row));
    put(out, Draw::ResetColor);
    put(out, Draw::Bg(FIND_BG));
    put(out, Draw::Fg(FIND_FG));
    put(out, Draw::Print(pad(text.as_str(), width as usize)));
    put(out, Draw::ResetColor);
    put(out, Draw::Attr(Attr::Reset));
    proof {
        assert(draws(out@) =~= d0 + search_bar_draws(search@, width, row));
    }
    (x as u16, row)
}

/// The entries of a dropdown from `from` on.
pub open spec fn dropdown_rows(items: Seq<Seq<char>>, x: u16, width: nat, selected: int, from: nat) -> Seq<DrawView>
    decreases items.len() - from,
{
    if from >= items.len() {
        Seq::empty()
    } else {
        seq![DrawView::MoveTo((x + 2) as u16, (2 + from) as u16), DrawView::ResetColor] + (if from
            == selected {
            seq![DrawView::Attr(Attr::Reverse)]
        } else {
            Seq::empty()
        }) + seq![
            DrawView::Print(padded(items[from as int], (width - 4) as nat)),
            DrawView::ResetColor,
            DrawView::Attr(Attr::Reset),
        ] + dropdown_rows(items, x, width, selected, from + 1)
    }
}

/// An open dropdown under the menu bar at column `x`.
pub open spec fn dropdown_draws(title: Seq<char>, items: Seq<Seq<char>>, x: u16, selected: int) -> Seq<DrawView> {
    let width = crate::editor::max_len(items, title.len()) + 4;
    box_draws(x as nat, 1, width, items.len() + 2, title) + dropdown_rows(items, x, width, selected, 0)
}

fn draw_menu_dropdown(out: &mut Vec<Draw>, title: &str, items: &[&str], x: u16, selected: usize)
    requires
        x <= 0x8000,
        items@.len() <= 0x8000,
        title@.len() <= 0x8000,
        forall|i: int| 0 <= i < items@.len() ==> (#[trigger] items@[i])@.len() <= 0x8000,
    ensures
        draws(final(out)@) == draws(old(out)@) + dropdown_draws(
            title@,
            items@.map_values(|s: &str| s@),
            x,
            selected as int,
        ),
{
    let ghost d0 = draws(out@);
    let ghost views = items@.map_values(|s: &str| s@);
    let mut m: usize = chars_of(title).len();
    let mut i: usize = 0;
    proof {
        assert(views.take(0) =~= Seq::<Seq<char>>::empty());
    }
    while i < items.len()
        invariant
            views == items@.map_values(|s: &str| s@),
            i <= items@.len(),
            m == crate::editor::max_len(views.take(i as int), title@.len()),
            m <= 0x8000,
            items@.len() <= 0x8000,
            title@.len() <= 0x8000,
            forall|k: int| 0 <= k < items@.len() ==> (#[trigger] items@[k])@.len() <= 0x8000,
        decreases items@.len() - i,
    {
        proof {
            assert(views.take(i + 1).drop_last() =~= views.take(i as int));
        }
        let n = chars_of(items[i]).len();
        if n > m {
            m = n;
        }
        i = i + 1;
    }
    proof {
        assert(views.take(views.len() as int) =~= views);
    }
    let width = m + 4;
    let height = items.len() + 2;
    draw_box(out, x as usize, 1, width, height, title);
    let ghost d1 = draws(out@);
    let mut idx: usize = 0;
    proof {
        assert(draws(out@) + dropdown_rows(views, x, width as nat, selected as int, 0) == d1
            + dropdown_rows(views, x, width as nat, selected as int, 0));
    }
    while idx < items.len()
        invariant
            views == items@.map_values(|s: &str| s@),
            idx <= items@.len(),
            items@.len() <= 0x8000,
            x <= 0x8000,
            width >= 4,
            draws(out@) + dropdown_rows(views, x, width as nat, selected as int, idx as nat) == d1
                + dropdown_rows(views, x, width as nat, selected as int, 0),
        decreases items@.len() - idx,
    {
        let ghost before = draws(out@);
        put(out, Draw::MoveTo(x + 2, (2 + idx) as u16));
        put(out, Draw::ResetColor);
        if idx == selected {
            put(out, Draw::Attr(Attr::Reverse));
        }
        put(out, Draw::Print(pad(items[idx], width - 4)));
        put(out, Draw::ResetColor);
        put(out, Draw::Attr(Attr::Reset));
        proof {
            let r = dropdown_rows(views, x, width as nat, selected as int, idx as nat);
            let r2 = dropdown_rows(views, x, width as nat, selected as int, (idx + 1) as nat);
            assert(views[idx as int] == items@[idx as int]@);
            assert(draws(out@) + r2 =~= before + r);
        }
        idx = idx + 1;
    }
    proof {
        assert(dropdown_rows(views, x, width as nat, selected as int, idx as nat) =~= Seq::<
            DrawView,
        >::empty());
        assert(draws(out@) =~= d0 + dropdown_draws(title@, views, x, selected as int));
    }
}

/// Where the picker's frame stands: column, row, width and height; `None`
/// where the terminal is too small for it.
pub open spec fn picker_box(width: u16, height: u16) -> Option<(nat, nat, nat, nat)> {
    let bw = clamp(width * 4 / 5, 34, width as int);
    let bh = clamp(height * 3 / 5, 9, max_int(max_int(height - 2, 0), 9));
    if width < 34 || bh > height {
        None
    } else {
        Some((((width - bw) / 2) as nat, ((height - bh) / 2) as nat, bw as nat, bh as nat))
    }
}

pub open spec fn picker_help() -> Seq<char> {
    " Enter opens match · Ctrl/Alt+Enter creates typed path · Esc closes "@
}

/// The picker's listed files from screen row `i` on, `visible` rows in all,
/// starting at entry `skip`.
pub open spec fn picker_rows(p: PickerView, x: nat, y: nat, bw: nat, skip: nat, visible: nat, i: nat) -> Seq<DrawView>
    decreases visible - i,
{
    if i >= visible || skip + i >= p.filtered.len() {
        Seq::empty()
    } else {
        let row = skip + i;
        seq![DrawView::MoveTo((x + 2) as u16, (y + 4 + i) as u16), DrawView::ResetColor] + (if row
            == p.selected {
            seq![DrawView::Attr(Attr::Reverse)]
        } else {
            Seq::empty()
        }) + seq![
            DrawView::Print(padded(" "@ + p.files[p.filtered[row as int]], (bw - 4) as nat)),
            DrawView::ResetColor,
        ] + picker_rows(p, x, y, bw, skip, visible, i + 1)
    }
}

/// The file picker overlay; `None` where the terminal is too small for it.
pub open spec fn picker_draws(p: PickerView, width: u16, height: u16) -> Option<Seq<DrawView>> {
    match picker_box(width, height) {
        None => None,
        Some((x, y, bw, bh)) => {
            let visible = max_int(bh - 6, 0) as nat;
            let skip = max_int(p.selected - max_int(visible - 1, 0), 0) as nat;
            Some(
                box_draws(x, y, bw, bh, " Open / Create "@) + picker_header(x, y, bw, p.cwd, p.query)
                    + picker_rows(p, x, y, bw, skip, visible, 0) + picker_footer(x, y, bw, bh),
            )
        },
    }
}

fn picker_geometry(width: u16, height: u16) -> (r: Option<(usize, usize, usize, usize)>)
    ensures
        match picker_box(width, height) {
            Some((x, y, bw, bh)) => r == Some((x as usize, y as usize, bw as usize, bh as usize)),
            None => r is None,
        },
        r matches Some((x, y, bw, bh)) ==> x <= 0x10000 && y <= 0x10000 && 34 <= bw <= 0x10000
            && 9 <= bh <= 0x10000,
{
    let w = width as usize;
    let h = height as usize;
    if w < 34 {
        return None;
    }
    let bw0 = w * 4 / 5;
    let box_w = if bw0 < 34 {
        34
    } else if bw0 > w {
        w
    } else {
        bw0
    };
    let hi = if h >= 2 && h - 2 > 9 {
        h - 2
    } else {
        9
    };
    let bh0 = h * 3 / 5;
    let box_h = if bh0 < 9 {
        9
    } else if bh0 > hi {
        hi
    } else {
        bh0
    };
    if box_h > h {
        return None;
    }
    Some(((w - box_w) / 2, (h - box_h) / 2, box_w, box_h))
}

/// The picker's directory and query lines.
pub open spec fn picker_header(x: nat, y: nat, bw: nat, cwd: Seq<char>, query: Seq<char>) -> Seq<DrawView> {
    seq![
        DrawView::MoveTo((x + 2) as u16, (y + 1) as u16),
        DrawView::ResetColor,
        DrawView::Fg(TITLE_FG),
        DrawView::Attr(Attr::Bold),
        DrawView::Print(padded(" CWD: "@ + cwd + " "@, (bw - 4) as nat)),
        DrawView::Attr(Attr::Reset),
        DrawView::MoveTo((x + 2) as u16, (y + 2) as u16),
        DrawView::Attr(Attr::Reverse),
        DrawView::Print(padded("> "@ + query, (bw - 4) as nat)),
        DrawView::ResetColor,
        DrawView::Attr(Attr::Reset),
    ]
}

fn draw_picker_header(out: &mut Vec<Draw>, x: usize, y: usize, bw: usize, cwd: &str, query: &str)
    requires
        x <= 0x10000,
        y <= 0x10000,
        bw >= 4,
    ensures
        draws(final(out)@) == draws(old(out)@) + picker_header(x as nat, y as nat, bw as nat, cwd@, query@),
{
    let ghost d0 = draws(out@);
    let mut title = " CWD: ".to_owned();
    push_str(&mut title, cwd);
    push_str(&mut title, " ");
    let mut q = "> ".to_owned();
    push_str(&mut q, query);
    put(out, Draw::MoveTo((x + 2) as u16, (y + 1) as u16));
    put(out, Draw::ResetColor);
    put(out, Draw::Fg(TITLE_FG));
    put(out, Draw::Attr(Attr::Bold));
    put(out, Draw::Print(pad(title.as_str(), bw - 4)));
    put(out, Draw::Attr(Attr::Reset));
    put(out, Draw::MoveTo((x + 2) as u16, (y + 2) as u16));
    put(out, Draw::Attr(Attr::Reverse));
    put(out, Draw::Print(pad(q.as_str(), bw - 4)));
    put(out, Draw::ResetColor);
    put(out, Draw::Attr(Attr::Reset));
    proof {
        assert(draws(out@) =~= d0 + picker_header(x as nat, y as nat, bw as nat, cwd@, query@));
    }
}

fn draw_picker_rows(out: &mut Vec<Draw>, picker: &Picker, x: usize, y: usize, bw: usize, skip: usize, visible: usize)
    requires
        picker.wf(),
        x <= 0x10000,
        y <= 0x10000,
        bw >= 4,
        visible <= 0x10000,
    ensures
        draws(final(out)@) == draws(old(out)@) + picker_rows(
            picker@,
            x as nat,
            y as nat,
            bw as nat,
            skip as nat,
            visible as nat,
            0,
        ),
{
    let selected = picker.selected();
    let results = picker.results();
    let ghost d1 = draws(out@);
    let ghost pv = picker@;
    let mut i: usize = 0;
    while i < visible && skip < results.len() && i < results.len() - skip
        invariant
            pv == picker@,
            results@.len() == pv.filtered.len(),
            forall|k: int|
                0 <= k < results@.len() ==> (#[trigger] results@[k]).0 == k && results@[k].1@
                    == pv.files[pv.filtered[k]],
            selected == pv.selected,
            x <= 0x10000,
            y <= 0x10000,
            bw >= 4,
            visible <= 0x10000,
            i <= visible,
            draws(out@) + picker_rows(pv, x as nat, y as nat, bw as nat, skip as nat, visible as nat, i as nat)
                == d1 + picker_rows(pv, x as nat, y as nat, bw as nat, skip as nat, visible as nat, 0),
        decreases visible - i,
    {
        let ghost before = draws(out@);
        let row = skip + i;
        put(out, Draw::MoveTo((x + 2) as u16, (y + 4 + i) as u16));
        put(out, Draw::ResetColor);
        if results[row].0 == selected {
            put(out, Draw::Attr(Attr::Reverse));
        }
        let mut line = " ".to_owned();
        push_str(&mut line, results[row].1.as_str());
        put(out, Draw::Print(pad(line.as_str(), bw - 4)));
        put(out, Draw::ResetColor);
        proof {
            let r = picker_rows(pv, x as nat, y as nat, bw as nat, skip as nat, visible as nat, i as nat);
            let r2 = picker_rows(pv, x as nat, y as nat, bw as nat, skip as nat, visible as nat, (i + 1) as nat);
            assert(results@[row as int].0 == row);
            assert(draws(out@) + r2 =~= before + r);
        }
        i = i + 1;
    }
    proof {
        assert(picker_rows(pv, x as nat, y as nat, bw as nat, skip as nat, visible as nat, i as nat) =~= Seq::<
            DrawView,
        >::empty());
        assert(draws(out@) =~= d1 + picker_rows(pv, x as nat, y as nat, bw as nat, skip as nat, visible as nat, 0));
    }
}

/// The picker's help line.
pub open spec fn picker_footer(x: nat, y: nat, bw: nat, bh: nat) -> Seq<DrawView> {
    seq![
        DrawView::MoveTo((x + 2) as u16, (y + bh - 2) as u16),
        DrawView::ResetColor,
        DrawView::Fg(MUTED_FG),
        DrawView::Print(padded(picker_help(), (bw - 4) as nat)),
        DrawView::ResetColor,
    ]
}

fn draw_picker(out: &mut Vec<Draw>, picker: &Picker, width: u16, height: u16) -> (ok: bool)
    requires
        picker.wf(),
    ensures
        match picker_draws(picker@, width, height) {
            Some(d) => ok && draws(final(out)@) == draws(old(out)@) + d,
            None => !ok,
        },
{
    let ghost d0 = draws(out@);
    let (x, y, box_w, box_h) = match picker_geometry(width, height) {
        Some(g) => g,
        None => return false,
    };
    draw_box(out, x, y, box_w, box_h, " Open / Create ");
    let ghost d1 = draws(out@);
    draw_picker_header(out, x, y, box_w, picker.cwd(), picker.query_text());
    let ghost d2 = draws(out@);
    let visible = if box_h > 6 {
        box_h - 6
    } else {
        0
    };
    let selected = picker.selected();
    let back = if visible > 1 {
        visible - 1
    } else {
        0
    };
    let skip = if selected > back {
        selected - back
    } else {
        0
    };
    draw_picker_rows(out, picker, x, y, box_w, skip, visible);
    let ghost d3 = draws(out@);
    put(out, Draw::MoveTo((x + 2) as u16, (y + box_h - 2) as u16));
    put(out, Draw::ResetColor);
    put(out, Draw::Fg(MUTED_FG));
    put(out, Draw::Print(pad(" Enter opens match · Ctrl/Alt+Enter creates typed path · Esc closes ", box_w - 4)));
    put(out, Draw::ResetColor);
    proof {
        assert(draws(out@) =~= d3 + picker_footer(x as nat, y as nat, box_w as nat, box_h as nat));
        assert(draws(out@) =~= d0 + picker_draws(picker@, width, height)->0);
    }
    true
}

/// Where the code-action frame stands; `None` where the terminal is too
/// small for it.
pub open spec fn code_actions_box(width: u16, height: u16, count: nat) -> Option<(nat, nat, nat, nat)> {
    let bw = clamp(width * 3 / 5, 34, width as int);
    let bh = max_int(clamp(count as int + 6, 7, (height / 2) as int), 7);
    if width < 34 || height / 2 < 7 {
        None
    } else {
        Some((((width - bw) / 2) as nat, ((height - bh) / 2) as nat, bw as nat, bh as nat))
    }
}

/// The code actions listed from entry `i` on, up to `n`.
pub open spec fn code_action_rows(items: Seq<Seq<char>>, x: nat, y: nat, bw: nat, selected: int, i: nat, n: nat) -> Seq<DrawView>
    decreases n - i,
{
    if i >= n {
        Seq::empty()
    } else {
        seq![DrawView::MoveTo((x + 2) as u16, (y + 3 + i) as u16), DrawView::ResetColor] + (if i
            == selected {
            seq![DrawView::Attr(Attr::Reverse)]
        } else {
            Seq::empty()
        }) + seq![
            DrawView::Print(padded(" "@ + items[i as int], (bw - 4) as nat)),
            DrawView::ResetColor,
        ] + code_action_rows(items, x, y, bw, selected, i + 1, n)
    }
}

/// The code-action overlay; `None` where the terminal is too small for it.
pub open spec fn code_actions_draws(
    message: Seq<char>,
    items: Seq<Seq<char>>,
    selected: int,
    loading: bool,
    width: u16,
    height: u16,
) -> Option<Seq<DrawView>> {
    match code_actions_box(width, height, items.len()) {
        None => None,
        Some((x, y, bw, bh)) => {
            Some(
                box_draws(x, y, bw, bh, " Code Actions "@) + code_actions_header(x, y, bw, message)
                    + if loading {
                    code_actions_note(x, y, bw, " Loading…"@)
                } else if items.len() == 0 {
                    code_actions_note(x, y, bw, " No actions available"@)
                } else {
                    code_action_rows(
                        items,
                        x,
                        y,
                        bw,
                        selected,
                        0,
                        min_int(items.len() as int, max_int(bh - 5, 0)) as nat,
                    )
                },
            )
        },
    }
}

fn code_actions_geometry(width: u16, height: u16, count: usize) -> (r: Option<(usize, usize, usize, usize)>)
    ensures
        match code_actions_box(width, height, count as nat) {
            Some((x, y, bw, bh)) => r == Some((x as usize, y as usize, bw as usize, bh as usize)),
            None => r is None,
        },
        r matches Some((x, y, bw, bh)) ==> x <= 0x10000 && y <= 0x10000 && 34 <= bw <= 0x10000
            && 7 <= bh <= 0x10000,
{
    let w = width as usize;
    let h = height as usize;
    if w < 34 || h / 2 < 7 {
        return None;
    }
    let bw0 = w * 3 / 5;
    let box_w = if bw0 < 34 {
        34
    } else if bw0 > w {
        w
    } else {
        bw0
    };
    let n6 = if count <= usize::MAX - 6 {
        count + 6
    } else {
        usize::MAX
    };
    let bh0 = if n6 < 7 {
        7
    } else if n6 > h / 2 {
        h / 2
    } else {
        n6
    };
    let box_h = if bh0 > 7 {
        bh0
    } else {
        7
    };
    Some(((w - box_w) / 2, (h - box_h) / 2, box_w, box_h))
}

/// The code-action overlay's message line.
pub open spec fn code_actions_header(x: nat, y: nat, bw: nat, message: Seq<char>) -> Seq<DrawView> {
    seq![
        DrawView::MoveTo((x + 2) as u16, (y + 1) as u16),
        DrawView::ResetColor,
        DrawView::Fg(TITLE_FG),
        DrawView::Attr(Attr::Bold),
        DrawView::Print(padded(message, (bw - 4) as nat)),
        DrawView::ResetColor,
        DrawView::Attr(Attr::Reset),
    ]
}

/// A one-line note in the code-action overlay.
pub open spec fn code_actions_note(x: nat, y: nat, bw: nat, t: Seq<char>) -> Seq<DrawView> {
    seq![
        DrawView::MoveTo((x + 2) as u16, (y + 3) as u16),
        DrawView::ResetColor,
        DrawView::Print(padded(t, (bw - 4) as nat)),
        DrawView::ResetColor,
    ]
}

fn draw_code_action_rows(out: &mut Vec<Draw>, items: &[String], x: usize, y: usize, bw: usize, selected: usize, n: usize)
    requires
        n <= items@.len(),
        n <= 0x10000,
        x <= 0x10000,
        y <= 0x10000,
        bw >= 4,
    ensures
        draws(final(out)@) == draws(old(out)@) + code_action_rows(
            items@.map_values(|t: String| t@),
            x as nat,
            y as nat,
            bw as nat,
            selected as int,
            0,
            n as nat,
        ),
{
    let ghost d1 = draws(out@);
    let ghost iv = items@.map_values(|t: String| t@);
    let mut idx: usize = 0;
    while idx < n
        invariant
            iv == items@.map_values(|t: String| t@),
            n <= items@.len(),
            n <= 0x10000,
            x <= 0x10000,
            y <= 0x10000,
            bw >= 4,
            idx <= n,
            draws(out@) + code_action_rows(iv, x as nat, y as nat, bw as nat, selected as int, idx as nat, n as nat)
                == d1 + code_action_rows(iv, x as nat, y as nat, bw as nat, selected as int, 0, n as nat),
        decreases n - idx,
    {
        let ghost before = draws(out@);
        put(out, Draw::MoveTo((x + 2) as u16, (y + 3 + idx) as u16));
        put(out, Draw::ResetColor);
        if idx == selected {
            put(out, Draw::Attr(Attr::Reverse));
        }
        let mut line = " ".to_owned();
        push_str(&mut line, items[idx].as_str());
        put(out, Draw::Print(pad(line.as_str(), bw - 4)));
        put(out, Draw::ResetColor);
        proof {
            let r = code_action_rows(iv, x as nat, y as nat, bw as nat, selected as int, idx as nat, n as nat);
            let r2 = code_action_rows(iv, x as nat, y as nat, bw as nat, selected as int, (idx + 1) as nat, n as nat);
            assert(draws(out@) + r2 =~= before + r);
        }
        idx = idx + 1;
    }
    proof {
        assert(code_action_rows(iv, x as nat, y as nat, bw as nat, selected as int, idx as nat, n as nat) =~= Seq::<
            DrawView,
        >::empty());
        assert(draws(out@) =~= d1 + code_action_rows(iv, x as nat, y as nat, bw as nat, selected as int, 0, n as nat));
    }
}

fn draw_code_actions(
    out: &mut Vec<Draw>,
    message: &str,
    items: &[String],
    selected: usize,
    loading: bool,
    width: u16,
    height: u16,
) -> (ok: bool)
    ensures
        match code_actions_draws(
            message@,
            items@.map_values(|t: String| t@),
            selected as int,
            loading,
            width,
            height,
        ) {
            Some(d) => ok && draws(final(out)@) == draws(old(out)@) + d,
            None => !ok,
        },
{
    let ghost d0 = draws(out@);
    let (x, y, box_w, box_h) = match code_actions_geometry(width, height, items.len()) {
        Some(g) => g,
        None => return false,
    };
    draw_box(out, x, y, box_w, box_h, " Code Actions ");
    let ghost d1 = draws(out@);
    put(out, Draw::MoveTo((x + 2) as u16, (y + 1) as u16));
    put(out, Draw::ResetColor);
    put(out, Draw::Fg(TITLE_FG));
    put(out, Draw::Attr(Attr::Bold));
    put(out, Draw::Print(pad(message, box_w - 4)));
    put(out, Draw::ResetColor);
    put(out, Draw::Attr(Attr::Reset));
    let ghost d2 = draws(out@);
    proof {
        assert(d2 =~= d1 + code_actions_header(x as nat, y as nat, box_w as nat, message@));
    }
    if loading || items.len() == 0 {
        put(out, Draw::MoveTo((x + 2) as u16, (y + 3) as u16));
        put(out, Draw::ResetColor);
        let text = if loading {
            " Loading…"
        } else {
            " No actions available"
        };
        put(out, Draw::Print(pad(text, box_w - 4)));
        put(out, Draw::ResetColor);
        proof {
            assert(draws(out@) =~= d2 + code_actions_note(x as nat, y as nat, box_w as nat, text@));
        }
    } else {
        let limit = if box_h > 5 {
            box_h - 5
        } else {
            0
        };
        let n = if items.len() < limit {
            items.len()
        } else {
            limit
        };
        draw_code_action_rows(out, items, x, y, box_w, selected, n);
    }
    proof {
        assert(draws(out@) =~= d0 + code_actions_draws(
            message@,
            items@.map_values(|t: String| t@),
            selected as int,
            loading,
            width,
            height,
        )->0);
    }
    true
}

/// The first match containing `abs`, if any.
pub open spec fn first_match_at(m: Seq<(int, int)>, abs: int) -> Option<int>
    decreases m.len(),
{
    if m.len() == 0 {
        None
    } else {
        match first_match_at(m.drop_last(), abs) {
            Some(i) => Some(i),
            None => if m.last().0 <= abs < m.last().1 {
                Some(m.len() - 1)
            } else {
                None
            },
        }
    }
}

/// The colour of a search match at `abs`: bright for the current match.
pub open spec fn search_color_at(s: SearchView, abs: int) -> Option<Color> {
    match first_match_at(s.matches, abs) {
        Some(i) => Some(
            if s.matches[i] == s.matches[s.current] {
                Color::Yellow
            } else {
                Color::DarkYellow
            },
        ),
        None => None,
    }
}

/// The colour of a search match at byte offset `abs`, if one covers it.
pub fn search_color(search: &SearchState, abs: usize) -> (r: Option<Color>)
    requires
        search.wf(),
    ensures
        r == search_color_at(search@, abs as int),
{
    let ranges = search.visible_matches();
    let current = search.current_match();
    let ghost m = search@.matches;
    let mut i: usize = 0;
    proof {
        assert(m.take(0) =~= Seq::<(int, int)>::empty());
    }
    while i < ranges.len()
        invariant
            search.wf(),
            m == search@.matches,
            m.len() == 0 ==> current is None,
            m.len() > 0 ==> (current matches Some(x) && (x.start as int, x.end as int) == m[search@.current]),
            ranges@.map_values(|x: std::ops::Range<usize>| (x.start as int, x.end as int)) == m,
            i <= ranges@.len(),
            first_match_at(m.take(i as int), abs as int) is None,
        decreases ranges@.len() - i,
    {
        proof {
            assert(m.take(i + 1).drop_last() =~= m.take(i as int));
            assert(m[i as int] == (ranges@[i as int].start as int, ranges@[i as int].end as int));
        }
        if ranges[i].start <= abs && abs < ranges[i].end {
            let bright = match current {
                Some(c) => c.start == ranges[i].start && c.end == ranges[i].end,
                None => false,
            };
            proof {
                lemma_first_match_prefix(m, i as int + 1, abs as int);
            }
            return Some(
                if bright {
                    Color::Yellow
                } else {
                    Color::DarkYellow
                },
            );
        }
        i = i + 1;
    }
    proof {
        assert(m.take(i as int) =~= m);
    }
    None
}

/// A match found in a prefix is the first match of the whole.
pub proof fn lemma_first_match_prefix(m: Seq<(int, int)>, k: int, abs: int)
    requires
        0 <= k <= m.len(),
        first_match_at(m.take(k), abs) is Some,
    ensures
        first_match_at(m, abs) == first_match_at(m.take(k), abs),
    decreases m.len() - k,
{
    if k < m.len() {
        assert(m.take(k + 1).drop_last() =~= m.take(k));
        lemma_first_match_prefix(m, k + 1, abs);
    } else {
        assert(m.take(k) =~= m);
    }
}

/// What drawing one line needs to know.
pub struct LineCtx {
    pub line_idx: int,
    pub line_start: int,
    pub line_len: int,
    pub gutter: int,
    pub max_cols: int,
    pub left_col: int,
    pub top_line: int,
    pub y_offset: int,
    pub selection: Option<(nat, nat)>,
    pub search: SearchView,
    pub diagnostics: Seq<DiagView>,
}

/// How a character is shown: a tab as four spaces.
pub open spec fn display_of(c: char) -> Seq<char> {
    if c == '\t' {
        seq![' ', ' ', ' ', ' ']
    } else {
        seq![c]
    }
}

pub open spec fn cols_of(c: char) -> nat {
    if c == '\t' {
        4
    } else {
        1
    }
}

/// Whether a diagnostic marks the character at byte `byte_col` of the line.
pub open spec fn char_marked(ctx: LineCtx, byte_col: int) -> bool {
    exists|i: int|
        0 <= i < ctx.diagnostics.len() && marks(
            #[trigger] ctx.diagnostics[i],
            ctx.line_idx,
            byte_col,
            ctx.line_len,
        )
}

/// Whether the character at byte offset `abs` is selected or matched.
pub open spec fn char_reversed(ctx: LineCtx, abs: int) -> bool {
    (match ctx.selection {
        Some((a, b)) => a <= abs < b,
        None => false,
    }) || search_color_at(ctx.search, abs) is Some
}

/// The colour and underline of a character.
pub open spec fn style_draws(marked: bool, fg: Option<Color>) -> Seq<DrawView> {
    if marked {
        seq![DrawView::Attr(Attr::Underlined), DrawView::Fg(Color::Red)]
    } else {
        seq![DrawView::Attr(Attr::NoUnderline)] + match fg {
            Some(col) => seq![DrawView::Fg(col)],
            None => Seq::empty(),
        }
    }
}

pub open spec fn reverse_draws(on: bool) -> Seq<DrawView> {
    if on {
        seq![DrawView::Attr(Attr::Reverse)]
    } else {
        Seq::empty()
    }
}

/// A character printed at (`x`, `y`), the style reset after it.
pub open spec fn glyph_draws(x: u16, y: u16, c: char) -> Seq<DrawView> {
    seq![
        DrawView::MoveTo(x, y),
        DrawView::Print(display_of(c)),
        DrawView::ResetColor,
        DrawView::Attr(Attr::Reset),
    ]
}

/// One character of a line, at byte `byte_col` of the line and display
/// column `visual`: drawn when on screen, in its segment's colour, red and
/// underlined under a diagnostic, reversed when selected or matched.
pub open spec fn char_draws(ctx: LineCtx, c: char, fg: Option<Color>, byte_col: int, visual: int) -> Seq<DrawView> {
    let sx = ctx.gutter + max_int(visual - ctx.left_col, 0);
    if visual + cols_of(c) > ctx.left_col && sx < ctx.max_cols {
        style_draws(char_marked(ctx, byte_col), fg) + reverse_draws(
            char_reversed(ctx, ctx.line_start + byte_col),
        ) + glyph_draws(
            sx as u16,
            (ctx.y_offset + (max_int(ctx.line_idx - ctx.top_line, 0) as u16)) as u16,
            c,
        )
    } else {
        Seq::empty()
    }
}

/// The bytes and display columns a run of characters takes.
pub open spec fn advance(cs: Seq<char>) -> (nat, nat)
    decreases cs.len(),
{
    if cs.len() == 0 {
        (0, 0)
    } else {
        let (b, v) = advance(cs.drop_first());
        (char_width(cs[0]) + b, cols_of(cs[0]) + v)
    }
}

/// The characters of a segment, from byte `byte_col` and column `visual`.
pub open spec fn segment_draws(ctx: LineCtx, cs: Seq<char>, fg: Option<Color>, byte_col: int, visual: int) -> Seq<DrawView>
    decreases cs.len(),
{
    if cs.len() == 0 {
        Seq::empty()
    } else {
        char_draws(ctx, cs[0], fg, byte_col, visual) + segment_draws(
            ctx,
            cs.drop_first(),
            fg,
            byte_col + char_width(cs[0]),
            visual + cols_of(cs[0]),
        )
    }
}

/// A line's segments: drawing stops after the segment that reaches the
/// right edge.
pub open spec fn line_draws(ctx: LineCtx, segs: Seq<(Seq<char>, Option<Color>)>, byte_col: int, visual: int) -> Seq<DrawView>
    decreases segs.len(),
{
    if segs.len() == 0 {
        Seq::empty()
    } else {
        let d = segment_draws(ctx, segs[0].0, segs[0].1, byte_col, visual);
        let (b, v) = advance(segs[0].0);
        if ctx.gutter + max_int(visual + v - ctx.left_col, 0) >= ctx.max_cols {
            d
        } else {
            d + line_draws(ctx, segs.drop_first(), byte_col + b, visual + v)
        }
    }
}

/// The total bytes and columns of a line's segments.
pub open spec fn segments_advance(segs: Seq<(Seq<char>, Option<Color>)>) -> (nat, nat)
    decreases segs.len(),
{
    if segs.len() == 0 {
        (0, 0)
    } else {
        let (b, v) = advance(segs[0].0);
        let (b2, v2) = segments_advance(segs.drop_first());
        (b + b2, v + v2)
    }
}

/// The bytes and columns of a segment, or `None` when they pass `limit`.
fn segment_advance(cs: &Vec<char>, limit: usize) -> (r: Option<(usize, usize)>)
    ensures
        match r {
            Some((b, v)) => advance(cs@) == (b as nat, v as nat) && b <= limit && v <= limit,
            None => advance(cs@).0 > limit || advance(cs@).1 > limit,
        },
{
    let mut b: usize = 0;
    let mut v: usize = 0;
    let mut i: usize = cs.len();
    proof {
        assert(cs@.skip(cs@.len() as int) =~= Seq::<char>::empty());
    }
    while i > 0
        invariant
            i <= cs@.len(),
            advance(cs@.skip(i as int)) == (b as nat, v as nat),
            b <= limit,
            v <= limit,
        decreases i,
    {
        let c = cs[i - 1];
        proof {
            assert(cs@.skip(i - 1).drop_first() =~= cs@.skip(i as int));
            assert(cs@.skip(i - 1)[0] == c);
            lemma_char_width(c);
        }
        let w = char_len_utf8(c);
        let cw: usize = if c == '\t' {
            4
        } else {
            1
        };
        if w > limit || cw > limit || b > limit - w || v > limit - cw {
            proof {
                lemma_advance_suffix(cs@, i - 1);
            }
            return None;
        }
        b = b + w;
        v = v + cw;
        i = i - 1;
    }
    proof {
        assert(cs@.skip(0) =~= cs@);
    }
    Some((b, v))
}

/// A suffix advances no further than the whole.
pub proof fn lemma_advance_suffix(cs: Seq<char>, k: int)
    requires
        0 <= k <= cs.len(),
    ensures
        advance(cs.skip(k)).0 <= advance(cs).0,
        advance(cs.skip(k)).1 <= advance(cs).1,
    decreases k,
{
    if k > 0 {
        assert(cs.skip(k) =~= cs.drop_first().skip(k - 1));
        lemma_advance_suffix(cs.drop_first(), k - 1);
    } else {
        assert(cs.skip(0) =~= cs);
    }
}

/// The context for drawing line `line_idx` of a buffer.
pub open spec fn line_ctx(
    b: BufferView,
    search: SearchView,
    ds: Seq<DiagView>,
    line_idx: int,
    gutter: int,
    max_cols: int,
    left_col: int,
    top_line: int,
    y_offset: int,
) -> LineCtx {
    LineCtx {
        line_idx,
        line_start: b.line_start(line_idx),
        line_len: max_int(b.line_end(line_idx) - b.line_start(line_idx), 0),
        gutter,
        max_cols,
        left_col,
        top_line,
        y_offset,
        selection: b.selected_range(),
        search,
        diagnostics: ds,
    }
}

fn draw_char(
    out: &mut Vec<Draw>,
    selection: Option<(usize, usize)>,
    search: &SearchState,
    diagnostics: &DiagnosticStore,
    line_idx: usize,
    line_start: usize,
    line_len: usize,
    gutter: usize,
    max_cols: usize,
    left_col: usize,
    top_line: usize,
    y_offset: u16,
    c: char,
    fg: Option<Color>,
    byte_col: usize,
    visual: usize,
    Ghost(ctx): Ghost<LineCtx>,
)
    requires
        search.wf(),
        ctx == (LineCtx {
            line_idx: line_idx as int,
            line_start: line_start as int,
            line_len: line_len as int,
            gutter: gutter as int,
            max_cols: max_cols as int,
            left_col: left_col as int,
            top_line: top_line as int,
            y_offset: y_offset as int,
            selection: match selection {
                Some((a, b)) => Some((a as nat, b as nat)),
                None => None,
            },
            search: search@,
            diagnostics: diagnostics@,
        }),
        top_line <= line_idx,
        line_idx - top_line < 65534,
        y_offset <= 1,
        line_start + byte_col <= usize::MAX,
        gutter + visual + cols_of(c) <= usize::MAX,
    ensures
        draws(final(out)@) == draws(old(out)@) + char_draws(ctx, c, fg, byte_col as int, visual as int),
{
    let ghost d0 = draws(out@);
    let cols: usize = if c == '\t' {
        4
    } else {
        1
    };
    if visual + cols > left_col {
        let sx = gutter + if visual > left_col {
            visual - left_col
        } else {
            0
        };
        if sx < max_cols {
            let abs = line_start + byte_col;
            let selected = match selection {
                Some((a, b)) => a <= abs && abs < b,
                None => false,
            };
            let hit = search_color(search, abs).is_some();
            let marked = diagnostics.highlights_position(line_idx, byte_col, line_len);
            proof {
                if marked {
                    let i = choose|i: int|
                        0 <= i < diagnostics@.len() && marks(
                            #[trigger] diagnostics@[i],
                            line_idx as int,
                            byte_col as int,
                            line_len as int,
                        );
                    assert(marks(ctx.diagnostics[i], ctx.line_idx, byte_col as int, ctx.line_len));
                }
                if char_marked(ctx, byte_col as int) {
                    let i = choose|i: int|
                        0 <= i < ctx.diagnostics.len() && marks(
                            #[trigger] ctx.diagnostics[i],
                            ctx.line_idx,
                            byte_col as int,
                            ctx.line_len,
                        );
                    assert(marks(diagnostics@[i], line_idx as int, byte_col as int, line_len as int));
                }
                assert(marked == char_marked(ctx, byte_col as int));
                assert((selected || hit) == char_reversed(ctx, ctx.line_start + byte_col));
            }
            put_style(out, marked, fg);
            put_reverse(out, selected || hit);
            let row = (line_idx - top_line) as u16;
            put_glyph(out, sx as u16, y_offset + row, c);
            proof {
                assert(draws(out@) =~= d0 + char_draws(ctx, c, fg, byte_col as int, visual as int));
            }
            return;
        }
    }
    proof {
        assert(draws(out@) =~= d0 + char_draws(ctx, c, fg, byte_col as int, visual as int));
    }
}

fn put_style(out: &mut Vec<Draw>, marked: bool, fg: Option<Color>)
    ensures
        draws(final(out)@) == draws(old(out)@) + style_draws(marked, fg),
{
    let ghost d0 = draws(out@);
    if marked {
        put(out, Draw::Attr(Attr::Underlined));
        put(out, Draw::Fg(Color::Red));
    } else {
        put(out, Draw::Attr(Attr::NoUnderline));
        match fg {
            Some(col) => put(out, Draw::Fg(col)),
            None => {},
        }
    }
    proof {
        assert(draws(out@) =~= d0 + style_draws(marked, fg));
    }
}

fn put_reverse(out: &mut Vec<Draw>, on: bool)
    ensures
        draws(final(out)@) == draws(old(out)@) + reverse_draws(on),
{
    let ghost d0 = draws(out@);
    if on {
        put(out, Draw::Attr(Attr::Reverse));
    }
    proof {
        assert(draws(out@) =~= d0 + reverse_draws(on));
    }
}

fn put_glyph(out: &mut Vec<Draw>, x: u16, y: u16, c: char)
    ensures
        draws(final(out)@) == draws(old(out)@) + glyph_draws(x, y, c),
{
    let ghost d0 = draws(out@);
    let mut display = String::new();
    if c == '\t' {
        push_str(&mut display, "    ");
        proof {
            reveal_strlit("    ");
        }
    } else {
        push_char(&mut display, c);
    }
    proof {
        assert(display@ =~= display_of(c));
    }
    put(out, Draw::MoveTo(x, y));
    put(out, Draw::Print(display));
    put(out, Draw::ResetColor);
    put(out, Draw::Attr(Attr::Reset));
    proof {
        assert(draws(out@) =~= d0 + glyph_draws(x, y, c));
    }
}

fn draw_segment(
    out: &mut Vec<Draw>,
    selection: Option<(usize, usize)>,
    search: &SearchState,
    diagnostics: &DiagnosticStore,
    line_idx: usize,
    line_start: usize,
    line_len: usize,
    gutter: usize,
    max_cols: usize,
    left_col: usize,
    top_line: usize,
    y_offset: u16,
    segment: &StyledSegment,
    byte_col: &mut usize,
    visual: &mut usize,
    Ghost(ctx): Ghost<LineCtx>,
)
    requires
        search.wf(),
        ctx == (LineCtx {
            line_idx: line_idx as int,
            line_start: line_start as int,
            line_len: line_len as int,
            gutter: gutter as int,
            max_cols: max_cols as int,
            left_col: left_col as int,
            top_line: top_line as int,
            y_offset: y_offset as int,
            selection: match selection {
                Some((a, b)) => Some((a as nat, b as nat)),
                None => None,
            },
            search: search@,
            diagnostics: diagnostics@,
        }),
        top_line <= line_idx,
        line_idx - top_line < 65534,
        y_offset <= 1,
        line_start + *old(byte_col) + advance(segment.text@).0 <= usize::MAX,
        gutter + *old(visual) + advance(segment.text@).1 <= usize::MAX,
    ensures
        draws(final(out)@) == draws(old(out)@) + segment_draws(
            ctx,
            segment.text@,
            segment.fg,
            *old(byte_col) as int,
            *old(visual) as int,
        ),
        *final(byte_col) == *old(byte_col) + advance(segment.text@).0,
        *final(visual) == *old(visual) + advance(segment.text@).1,
{
    let ghost d0 = draws(out@);
    let ghost bc0 = *byte_col;
    let ghost v0 = *visual;
    let cs = chars_of(segment.text.as_str());
    let mut i: usize = 0;
    proof {
        assert(cs@.skip(0) =~= cs@);
    }
    while i < cs.len()
        invariant
            search.wf(),
            cs@ == segment.text@,
            i <= cs@.len(),
            top_line <= line_idx,
            line_idx - top_line < 65534,
            y_offset <= 1,
            ctx == (LineCtx {
                line_idx: line_idx as int,
                line_start: line_start as int,
                line_len: line_len as int,
                gutter: gutter as int,
                max_cols: max_cols as int,
                left_col: left_col as int,
                top_line: top_line as int,
                y_offset: y_offset as int,
                selection: match selection {
                    Some((a, b)) => Some((a as nat, b as nat)),
                    None => None,
                },
                search: search@,
                diagnostics: diagnostics@,
            }),
            *byte_col + advance(cs@.skip(i as int)).0 == bc0 + advance(cs@).0,
            *visual + advance(cs@.skip(i as int)).1 == v0 + advance(cs@).1,
            line_start + bc0 + advance(cs@).0 <= usize::MAX,
            gutter + v0 + advance(cs@).1 <= usize::MAX,
            draws(out@) + segment_draws(ctx, cs@.skip(i as int), segment.fg, *byte_col as int, *visual as int)
                == d0 + segment_draws(ctx, cs@, segment.fg, bc0 as int, v0 as int),
        decreases cs@.len() - i,
    {
        let ghost before = draws(out@);
        let ghost rest = cs@.skip(i as int);
        let c = cs[i];
        proof {
            assert(rest[0] == c);
            assert(rest.drop_first() =~= cs@.skip(i + 1));
            lemma_char_width(c);
        }
        let w = char_len_utf8(c);
        let cols: usize = if c == '\t' {
            4
        } else {
            1
        };
        draw_char(
            out,
            selection,
            search,
            diagnostics,
            line_idx,
            line_start,
            line_len,
            gutter,
            max_cols,
            left_col,
            top_line,
            y_offset,
            c,
            segment.fg,
            *byte_col,
            *visual,
            Ghost(ctx),
        );
        *visual = *visual + cols;
        *byte_col = *byte_col + w;
        proof {
            assert(draws(out@) + segment_draws(ctx, cs@.skip(i + 1), segment.fg, *byte_col as int, *visual as int)
                =~= before + segment_draws(ctx, rest, segment.fg, (*byte_col - w) as int, (*visual - cols) as int));
        }
        i = i + 1;
    }
    proof {
        assert(cs@.skip(i as int) =~= Seq::<char>::empty());
        assert(draws(out@) + Seq::<DrawView>::empty() =~= draws(out@));
    }
}

/// The bytes and columns of a run of segments, from segment `k` on.
proof fn lemma_segments_advance_skip(segs: Seq<(Seq<char>, Option<Color>)>, k: int)
    requires
        0 <= k < segs.len(),
    ensures
        segments_advance(segs.skip(k)).0 == advance(segs[k].0).0 + segments_advance(segs.skip(k + 1)).0,
        segments_advance(segs.skip(k)).1 == advance(segs[k].0).1 + segments_advance(segs.skip(k + 1)).1,
{
    assert(segs.skip(k).drop_first() =~= segs.skip(k + 1));
    assert(segs.skip(k)[0] == segs[k]);
}

/// One line of text after the gutter, segment by segment, stopping after
/// the segment that reaches the right edge.
fn draw_line(
    out: &mut Vec<Draw>,
    buffer: &Buffer,
    search: &SearchState,
    diagnostics: &DiagnosticStore,
    segments: &Vec<StyledSegment>,
    line_idx: usize,
    gutter: u16,
    width: u16,
    left_col: usize,
    top_line: usize,
    y_offset: u16,
)
    requires
        buffer.wf(),
        search.wf(),
        top_line <= line_idx,
        line_idx - top_line < 65534,
        y_offset <= 1,
        buffer@.line_start(line_idx as int) + segments_advance(segment_views(segments@)).0 <= usize::MAX,
        gutter + segments_advance(segment_views(segments@)).1 <= usize::MAX,
    ensures
        draws(final(out)@) == draws(old(out)@) + line_draws(
            line_ctx(
                buffer@,
                search@,
                diagnostics@,
                line_idx as int,
                gutter as int,
                width as int,
                left_col as int,
                top_line as int,
                y_offset as int,
            ),
            segment_views(segments@),
            0,
            0,
        ),
{
    let ghost d0 = draws(out@);
    let ghost segs = segment_views(segments@);
    let line_start = buffer.line_start(line_idx);
    let line_end = buffer.line_end(line_idx);
    let line_len = line_end.saturating_sub(line_start);
    let selection: Option<(usize, usize)> = match buffer.selected_range() {
        Some(r) => Some((r.start, r.end)),
        None => None,
    };
    let ghost ctx = line_ctx(
        buffer@,
        search@,
        diagnostics@,
        line_idx as int,
        gutter as int,
        width as int,
        left_col as int,
        top_line as int,
        y_offset as int,
    );
    let max_cols = width as usize;
    let g = gutter as usize;
    let mut byte_col: usize = 0;
    let mut visual: usize = 0;
    let mut k: usize = 0;
    let mut done = false;
    proof {
        assert(segs.skip(0) =~= segs);
    }
    while k < segments.len() && !done
        invariant
            search.wf(),
            k <= segments@.len(),
            segs == segment_views(segments@),
            segs.len() == segments@.len(),
            top_line <= line_idx,
            line_idx - top_line < 65534,
            y_offset <= 1,
            max_cols == width as usize,
            g == gutter as usize,
            ctx == (LineCtx {
                line_idx: line_idx as int,
                line_start: line_start as int,
                line_len: line_len as int,
                gutter: g as int,
                max_cols: max_cols as int,
                left_col: left_col as int,
                top_line: top_line as int,
                y_offset: y_offset as int,
                selection: match selection {
                    Some((a, b)) => Some((a as nat, b as nat)),
                    None => None,
                },
                search: search@,
                diagnostics: diagnostics@,
            }),
            byte_col + segments_advance(segs.skip(k as int)).0 == segments_advance(segs).0,
            visual + segments_advance(segs.skip(k as int)).1 == segments_advance(segs).1,
            line_start + segments_advance(segs).0 <= usize::MAX,
            g + segments_advance(segs).1 <= usize::MAX,
            !done ==> draws(out@) + line_draws(ctx, segs.skip(k as int), byte_col as int, visual as int)
                == d0 + line_draws(ctx, segs, 0, 0),
            done ==> draws(out@) == d0 + line_draws(ctx, segs, 0, 0),
        decreases segments@.len() - k,
    {
        let ghost before = draws(out@);
        let ghost bc = byte_col as int;
        let ghost vc = visual as int;
        proof {
            lemma_segments_advance_skip(segs, k as int);
            assert(segs[k as int] == segment_view(segments@[k as int]));
        }
        let segment = &segments[k];
        draw_segment(
            out,
            selection,
            search,
            diagnostics,
            line_idx,
            line_start,
            line_len,
            g,
            max_cols,
            left_col,
            top_line,
            y_offset,
            segment,
            &mut byte_col,
            &mut visual,
            Ghost(ctx),
        );
        let shown = if visual > left_col {
            visual - left_col
        } else {
            0
        };
        proof {
            assert(segs.skip(k as int)[0] == segs[k as int]);
            assert(segs.skip(k as int).drop_first() =~= segs.skip(k + 1));
        }
        if g + shown >= max_cols {
            done = true;
        }
        k = k + 1;
    }
    proof {
        if !done {
            assert(segs.skip(k as int) =~= Seq::<(Seq<char>, Option<Color>)>::empty());
            assert(draws(out@) + Seq::<DrawView>::empty() =~= draws(out@));
        }
    }
}

/// A suffix of a run of segments advances no further than the whole run.
proof fn lemma_segments_advance_suffix(segs: Seq<(Seq<char>, Option<Color>)>, k: int)
    requires
        0 <= k <= segs.len(),
    ensures
        segments_advance(segs.skip(k)).0 <= segments_advance(segs).0,
        segments_advance(segs.skip(k)).1 <= segments_advance(segs).1,
    decreases k,
{
    if k > 0 {
        assert(segs.skip(k) =~= segs.drop_first().skip(k - 1));
        lemma_segments_advance_suffix(segs.drop_first(), k - 1);
    } else {
        assert(segs.skip(0) =~= segs);
    }
}

/// Whether the bytes of a line's segments fit in `byte_room` and their
/// columns in `col_room`.
fn segments_fit(segments: &Vec<StyledSegment>, byte_room: usize, col_room: usize) -> (r: bool)
    ensures
        r == (segments_advance(segment_views(segments@)).0 <= byte_room && segments_advance(
            segment_views(segments@),
        ).1 <= col_room),
{
    let ghost segs = segment_views(segments@);
    let mut b: usize = 0;
    let mut v: usize = 0;
    let mut k: usize = segments.len();
    proof {
        assert(segs.skip(segs.len() as int) =~= Seq::<(Seq<char>, Option<Color>)>::empty());
    }
    while k > 0
        invariant
            k <= segs.len(),
            segs == segment_views(segments@),
            segs.len() == segments@.len(),
            segments_advance(segs.skip(k as int)) == (b as nat, v as nat),
            b <= byte_room,
            v <= col_room,
        decreases k,
    {
        proof {
            lemma_segments_advance_skip(segs, k - 1);
            assert(segs[k - 1] == segment_view(segments@[k - 1]));
        }
        let cs = chars_of(segments[k - 1].text.as_str());
        match segment_advance(&cs, usize::MAX) {
            None => {
                proof {
                    lemma_segments_advance_suffix(segs, k - 1);
                }
                return false;
            },
            Some((sb, sv)) => {
                if sb > byte_room - b || sv > col_room - v {
                    proof {
                        lemma_segments_advance_suffix(segs, k - 1);
                    }
                    return false;
                }
                b = b + sb;
                v = v + sv;
            },
        }
        k = k - 1;
    }
    proof {
        assert(segs.skip(0) =~= segs);
    }
    true
}

/// The display width of `s`, or `None` where it passes `limit`.
fn visual_col_within(s: &str, limit: usize) -> (r: Option<usize>)
    ensures
        match r {
            Some(w) => w == visual_width(s@) && w <= limit,
            None => visual_width(s@) > limit,
        },
{
    let cs = chars_of(s);
    let mut w: usize = 0;
    let mut i: usize = 0;
    proof {
        assert(cs@.take(0) =~= Seq::<char>::empty());
    }
    while i < cs.len()
        invariant
            cs@ == s@,
            i <= cs@.len(),
            w == visual_width(cs@.take(i as int)),
            w <= limit,
        decreases cs@.len() - i,
    {
        proof {
            assert(cs@.take(i + 1).drop_last() =~= cs@.take(i as int));
        }
        let c: usize = if cs[i] == '\t' {
            4
        } else {
            1
        };
        if c > limit - w {
            proof {
                lemma_visual_width_prefix(cs@, i + 1);
            }
            return None;
        }
        w = w + c;
        i = i + 1;
    }
    proof {
        assert(cs@.take(cs@.len() as int) =~= cs@);
    }
    Some(w)
}

/// What is open over the text.
#[allow(inconsistent_fields)]
pub enum OverlayInfo<'a> {
    Nothing,
    Search,
    Picker(&'a Picker),
    Menu { title: &'a str, items: &'a [&'a str], x: u16, selected: usize },
    CodeActions { message: &'a str, items: &'a [String], selected: usize, loading: bool },
}

/// Everything a frame is drawn from beside the viewport: the buffer and its
/// highlighted lines (entry `i` holds the segments of line `i`; a line
/// without an entry shows no text), the search, the diagnostics, the overlay
/// and the status texts.
pub struct RenderInfo<'a> {
    pub buffer: &'a Buffer,
    pub search: &'a SearchState,
    pub theme_name: &'a str,
    pub diagnostics: &'a DiagnosticStore,
    pub overlay: OverlayInfo<'a>,
    pub status_message: &'a str,
    pub lsp_status: &'a str,
    pub highlighted: &'a [Vec<StyledSegment>],
}

/// The mathematical form of an overlay.
pub enum OverlayView {
    Nothing,
    Search,
    Picker(PickerView),
    Menu { title: Seq<char>, items: Seq<Seq<char>>, x: u16, selected: int },
    CodeActions { message: Seq<char>, items: Seq<Seq<char>>, selected: int, loading: bool },
}

/// The mathematical form of what a frame is drawn from.
pub struct RenderView {
    pub buffer: BufferView,
    pub search: SearchView,
    pub theme_name: Seq<char>,
    pub diagnostics: Seq<DiagView>,
    pub overlay: OverlayView,
    pub status_message: Seq<char>,
    pub lsp_status: Seq<char>,
    pub highlighted: Seq<Seq<(Seq<char>, Option<Color>)>>,
}

impl<'a> View for RenderInfo<'a> {
    type V = RenderView;

    open spec fn view(&self) -> RenderView {
        RenderView {
            buffer: self.buffer@,
            search: self.search@,
            theme_name: self.theme_name@,
            diagnostics: self.diagnostics@,
            overlay: match self.overlay {
                OverlayInfo::Nothing => OverlayView::Nothing,
                OverlayInfo::Search => OverlayView::Search,
                OverlayInfo::Picker(p) => OverlayView::Picker(p@),
                OverlayInfo::Menu { title, items, x, selected } => OverlayView::Menu {
                    title: title@,
                    items: items@.map_values(|t: &str| t@),
                    x,
                    selected: selected as int,
                },
                OverlayInfo::CodeActions { message, items, selected, loading } => OverlayView::CodeActions {
                    message: message@,
                    items: items@.map_values(|t: String| t@),
                    selected: selected as int,
                    loading,
                },
            },
            status_message: self.status_message@,
            lsp_status: self.lsp_status@,
            highlighted: highlight_views(self.highlighted@),
        }
    }
}

pub open spec fn highlight_views(hl: Seq<Vec<StyledSegment>>) -> Seq<Seq<(Seq<char>, Option<Color>)>> {
    hl.map_values(|v: Vec<StyledSegment>| segment_views(v@))
}

/// The highlighted segments of line `line`; none for a line not highlighted.
pub open spec fn line_segs(hl: Seq<Seq<(Seq<char>, Option<Color>)>>, line: int) -> Seq<(Seq<char>, Option<Color>)> {
    if 0 <= line < hl.len() {
        hl[line]
    } else {
        Seq::empty()
    }
}

/// The text rows from screen row `i` on, `rows` in all, for a viewport whose
/// first line is `top` and first column `left`.
pub open spec fn rows_draws(info: RenderView, top: int, left: int, gutter: u16, width: u16, i: nat, rows: nat) -> Seq<DrawView>
    decreases rows - i,
{
    if i >= rows {
        Seq::empty()
    } else {
        let b = info.buffer;
        let line = top + i;
        seq![DrawView::MoveTo(0, (i + 1) as u16), DrawView::ResetColor] + gutter_draws(
            info.diagnostics,
            b.line_count(),
            line,
            gutter,
        ) + (if line < b.line_count() {
            line_draws(
                line_ctx(b, info.search, info.diagnostics, line, gutter as int, width as int, left, top, 1),
                line_segs(info.highlighted, line),
                0,
                0,
            )
        } else {
            Seq::empty()
        }) + seq![DrawView::ResetColor, DrawView::Attr(Attr::Reset)] + rows_draws(
            info,
            top,
            left,
            gutter,
            width,
            i + 1,
            rows,
        )
    }
}

/// Whether the offsets and columns of screen row `i` fit in a machine word.
pub open spec fn row_fits(info: RenderView, top: int, i: int, gutter: u16) -> bool {
    let line = top + i;
    let segs = line_segs(info.highlighted, line);
    line < info.buffer.line_count() ==> {
        &&& info.buffer.line_start(line) + segments_advance(segs).0 <= usize::MAX
        &&& gutter + segments_advance(segs).1 <= usize::MAX
    }
}

/// Whether the line numbers and offsets of all text rows fit in a machine
/// word.
pub open spec fn rows_fit(info: RenderView, top: int, gutter: u16, rows: nat) -> bool {
    &&& top + rows <= usize::MAX + 1
    &&& forall|i: int| 0 <= i < rows ==> #[trigger] row_fits(info, top, i, gutter)
}

fn draw_rows(
    out: &mut Vec<Draw>,
    info: &RenderInfo,
    top: usize,
    left: usize,
    gutter: u16,
    width: u16,
    rows: usize,
) -> (ok: bool)
    requires
        info.buffer.wf(),
        info.search.wf(),
        gutter >= 1,
        rows <= 65533,
    ensures
        ok == rows_fit(info@, top as int, gutter, rows as nat),
        ok ==> draws(final(out)@) == draws(old(out)@) + rows_draws(
            info@,
            top as int,
            left as int,
            gutter,
            width,
            0,
            rows as nat,
        ),
{
    let ghost d0 = draws(out@);
    let ghost inf = info@;
    let ghost hl = highlight_views(info.highlighted@);
    let lc = info.buffer.line_count();
    let empty: Vec<StyledSegment> = Vec::new();
    let mut i: usize = 0;
    while i < rows
        invariant
            info.buffer.wf(),
            info.search.wf(),
            inf == info@,
            hl == highlight_views(info.highlighted@),
            lc == info.buffer@.line_count(),
            gutter >= 1,
            rows <= 65533,
            i <= rows,
            empty@ == Seq::<StyledSegment>::empty(),
            top + i <= usize::MAX + 1,
            forall|j: int| 0 <= j < i ==> #[trigger] row_fits(inf, top as int, j, gutter),
            draws(out@) + rows_draws(inf, top as int, left as int, gutter, width, i as nat, rows as nat)
                == d0 + rows_draws(inf, top as int, left as int, gutter, width, 0, rows as nat),
        decreases rows - i,
    {
        let ghost before = draws(out@);
        if top > usize::MAX - i {
            return false;
        }
        let line = top + i;
        let segments: &Vec<StyledSegment> = if line < info.highlighted.len() {
            &info.highlighted[line]
        } else {
            &empty
        };
        proof {
            assert(segment_views(segments@) == line_segs(hl, line as int)) by {
                if line < info.highlighted@.len() {
                    assert(hl[line as int] == segment_views(info.highlighted@[line as int]@));
                } else {
                    assert(segment_views(empty@) =~= Seq::<(Seq<char>, Option<Color>)>::empty());
                }
            }
        }
        if line < lc {
            let start = info.buffer.line_start(line);
            if !segments_fit(segments, usize::MAX - start, usize::MAX - gutter as usize) {
                proof {
                    assert(!row_fits(inf, top as int, i as int, gutter));
                }
                return false;
            }
        }
        proof {
            assert(row_fits(inf, top as int, i as int, gutter));
        }
        let y = editor_y(i);
        put(out, Draw::MoveTo(0, y));
        put(out, Draw::ResetColor);
        draw_gutter(out, info.buffer, info.diagnostics, line, gutter);
        if line < lc {
            draw_line(
                out,
                info.buffer,
                info.search,
                info.diagnostics,
                segments,
                line,
                gutter,
                width,
                left,
                top,
                1,
            );
        }
        put(out, Draw::ResetColor);
        put(out, Draw::Attr(Attr::Reset));
        proof {
            let rest = rows_draws(inf, top as int, left as int, gutter, width, (i + 1) as nat, rows as nat);
            assert(draws(out@) + rest =~= before + rows_draws(
                inf,
                top as int,
                left as int,
                gutter,
                width,
                i as nat,
                rows as nat,
            ));
        }
        i = i + 1;
    }
    proof {
        assert(draws(out@) + Seq::<DrawView>::empty() =~= draws(out@));
    }
    true
}

/// The row of the status line: the last.
pub open spec fn status_row(height: u16) -> u16 {
    max_int(height - 1, 0) as u16
}

/// Both parts, where both could be drawn.
pub open spec fn both(a: Option<Seq<DrawView>>, b: Option<Seq<DrawView>>) -> Option<Seq<DrawView>> {
    match (a, b) {
        (Some(x), Some(y)) => Some(x + y),
        _ => None,
    }
}

/// Whether a dropdown's title, items and place are within what it is drawn
/// for.
pub open spec fn dropdown_fits(title: Seq<char>, items: Seq<Seq<char>>, x: u16) -> bool {
    &&& x <= 0x8000
    &&& items.len() <= 0x8000
    &&& title.len() <= 0x8000
    &&& forall|i: int| 0 <= i < items.len() ==> (#[trigger] items[i]).len() <= 0x8000
}

/// The bottom row and what is open over the text; `None` where it cannot be
/// drawn.
pub open spec fn overlay_draws(info: RenderView, width: u16, height: u16) -> Option<Seq<DrawView>> {
    let row = status_row(height);
    let status = status_draws(
        info.buffer,
        info.lsp_status,
        info.status_message,
        info.theme_name,
        width,
        row,
    );
    match info.overlay {
        OverlayView::Nothing => status,
        OverlayView::Search => Some(search_bar_draws(info.search, width, row)),
        OverlayView::Picker(p) => both(status, picker_draws(p, width, height)),
        OverlayView::Menu { title, items, x, selected } => {
            if dropdown_fits(title, items, x) {
                both(status, Some(dropdown_draws(title, items, x, selected)))
            } else {
                None
            }
        },
        OverlayView::CodeActions { message, items, selected, loading } => both(
            status,
            code_actions_draws(message, items, selected, loading, width, height),
        ),
    }
}

/// The text of the cursor's line before the cursor; empty where the column
/// falls inside a character.
pub open spec fn cursor_prefix(b: BufferView) -> Seq<char> {
    let line = b.line_of_cursor();
    match truncated(b.slice(b.line_start(line), b.line_end(line)), b.col_of_cursor() as nat) {
        Some(p) => p,
        None => Seq::empty(),
    }
}

/// Where the terminal cursor goes, and the end of the frame: after the query
/// in the search bar; else on the buffer's cursor when that is on screen,
/// and at the start of the bottom row when it is not. `None` where the
/// cursor's column does not fit in a machine word.
pub open spec fn cursor_draws(info: RenderView, top: int, left: int, gutter: u16, width: u16, height: u16) -> Option<Seq<DrawView>> {
    let row = status_row(height);
    match info.overlay {
        OverlayView::Search => {
            let (x, y) = search_bar_cursor(info.search, width, row);
            Some(seq![DrawView::MoveTo(x, y), DrawView::Show, DrawView::EndSync])
        },
        _ => {
            let b = info.buffer;
            let vw = visual_width(cursor_prefix(b));
            if gutter + vw > usize::MAX {
                None
            } else {
                let x = (gutter + max_int(vw - left, 0)) as u16;
                let y = (min_int(max_int(b.line_of_cursor() - top, 0) + 1, usize::MAX as int)) as u16;
                let at = if y < row && x < width {
                    DrawView::MoveTo(x, y)
                } else {
                    DrawView::MoveTo(0, row)
                };
                Some(seq![at, DrawView::Show, DrawView::EndSync])
            }
        },
    }
}

/// A whole frame for a viewport whose first line is `top` and first column
/// `left`; `None` where some part of it cannot be drawn.
pub open spec fn frame_draws(info: RenderView, top: int, left: int, width: u16, height: u16) -> Option<Seq<DrawView>> {
    let gutter = gutter_width_of(info.buffer.line_count());
    let rows = max_int(height - 2, 0) as nat;
    if !rows_fit(info, top, gutter, rows) {
        None
    } else {
        match (overlay_draws(info, width, height), cursor_draws(info, top, left, gutter, width, height)) {
            (Some(o), Some(c)) => Some(
                seq![DrawView::BeginSync, DrawView::Hide, DrawView::ResetColor, DrawView::ClearAll]
                    + menu_bar_draws(width) + rows_draws(info, top, left, gutter, width, 0, rows) + o + c,
            ),
            _ => None,
        }
    }
}

/// Whether a dropdown can be drawn.
fn dropdown_fits_exec(title: &str, items: &[&str], x: u16) -> (r: bool)
    ensures
        r == dropdown_fits(title@, items@.map_values(|t: &str| t@), x),
{
    let ghost texts = items@.map_values(|t: &str| t@);
    if x > 0x8000 || items.len() > 0x8000 || chars_of(title).len() > 0x8000 {
        return false;
    }
    let mut i: usize = 0;
    while i < items.len()
        invariant
            i <= items@.len(),
            texts == items@.map_values(|t: &str| t@),
            forall|j: int| 0 <= j < i ==> (#[trigger] texts[j]).len() <= 0x8000,
        decreases items@.len() - i,
    {
        if chars_of(items[i]).len() > 0x8000 {
            proof {
                assert(texts[i as int] == items@[i as int]@);
            }
            return false;
        }
        i = i + 1;
    }
    true
}

fn draw_overlay(out: &mut Vec<Draw>, info: &RenderInfo, width: u16, height: u16) -> (r: (bool, Option<(u16, u16)>))
    requires
        info.buffer.wf(),
        info.search.wf(),
        info.overlay matches OverlayInfo::Picker(p) ==> p.wf(),
    ensures
        match overlay_draws(info@, width, height) {
            Some(d) => r.0 && draws(final(out)@) == draws(old(out)@) + d,
            None => !r.0,
        },
        r.1 == (match info.overlay {
            OverlayInfo::Search => Some(search_bar_cursor(info.search@, width, status_row(height))),
            _ => None,
        }),
{
    let ghost d0 = draws(out@);
    let row = height.saturating_sub(1);
    match &info.overlay {
        OverlayInfo::Nothing => {
            let ok = draw_status(out, info.buffer, info.lsp_status, info.status_message, info.theme_name, width, row);
            (ok, None)
        },
        OverlayInfo::Search => {
            let c = draw_search(out, info.search, width, row);
            (true, Some(c))
        },
        OverlayInfo::Picker(p) => {
            if !draw_status(out, info.buffer, info.lsp_status, info.status_message, info.theme_name, width, row) {
                return (false, None);
            }
            let ghost d1 = draws(out@);
            let ok = draw_picker(out, p, width, height);
            proof {
                if ok {
                    assert(draws(out@) =~= d0 + overlay_draws(info@, width, height)->0);
                }
            }
            (ok, None)
        },
        OverlayInfo::Menu { title, items, x, selected } => {
            if !dropdown_fits_exec(title, items, *x) {
                return (false, None);
            }
            if !draw_status(out, info.buffer, info.lsp_status, info.status_message, info.theme_name, width, row) {
                return (false, None);
            }
            proof {
                let texts = items@.map_values(|t: &str| t@);
                assert forall|i: int| 0 <= i < items@.len() implies (#[trigger] items@[i])@.len() <= 0x8000 by {
                    assert(texts[i] == items@[i]@);
                }
            }
            draw_menu_dropdown(out, title, items, *x, *selected);
            proof {
                assert(draws(out@) =~= d0 + overlay_draws(info@, width, height)->0);
            }
            (true, None)
        },
        OverlayInfo::CodeActions { message, items, selected, loading } => {
            if !draw_status(out, info.buffer, info.lsp_status, info.status_message, info.theme_name, width, row) {
                return (false, None);
            }
            let ok = draw_code_actions(out, message, items, *selected, *loading, width, height);
            proof {
                if ok {
                    assert(draws(out@) =~= d0 + overlay_draws(info@, width, height)->0);
                }
            }
            (ok, None)
        },
    }
}

fn draw_cursor(
    out: &mut Vec<Draw>,
    info: &RenderInfo,
    top: usize,
    left: usize,
    gutter: u16,
    width: u16,
    height: u16,
    overlay_cursor: Option<(u16, u16)>,
) -> (ok: bool)
    requires
        info.buffer.wf(),
        overlay_cursor == (match info.overlay {
            OverlayInfo::Search => Some(search_bar_cursor(info.search@, width, status_row(height))),
            _ => None,
        }),
    ensures
        match cursor_draws(info@, top as int, left as int, gutter, width, height) {
            Some(d) => ok && draws(final(out)@) == draws(old(out)@) + d,
            None => !ok,
        },
{
    let ghost d0 = draws(out@);
    match overlay_cursor {
        Some((x, y)) => {
            put(out, Draw::MoveTo(x, y));
            put(out, Draw::Show);
            put(out, Draw::EndSync);
            proof {
                assert(draws(out@) =~= d0 + cursor_draws(info@, top as int, left as int, gutter, width, height)->0);
            }
            true
        },
        None => {
            let (line, col) = info.buffer.line_col();
            let cursor_y = editor_y(line.saturating_sub(top));
            let text = info.buffer.line_text(line);
            let prefix = match truncate_at(text.as_str(), col) {
                Some(p) => p,
                None => String::new(),
            };
            proof {
                assert(prefix@ == cursor_prefix(info.buffer@));
            }
            let vw = match visual_col_within(prefix.as_str(), usize::MAX - gutter as usize) {
                Some(w) => w,
                None => return false,
            };
            let cursor_x = (gutter as usize + vw.saturating_sub(left)) as u16;
            let row = height.saturating_sub(1);
            if cursor_y < row && cursor_x < width {
                put(out, Draw::MoveTo(cursor_x, cursor_y));
            } else {
                put(out, Draw::MoveTo(0, row));
            }
            put(out, Draw::Show);
            put(out, Draw::EndSync);
            proof {
                assert(draws(out@) =~= d0 + cursor_draws(info@, top as int, left as int, gutter, width, height)->0);
            }
            true
        },
    }
}

impl Viewport {
    /// Scrolls the cursor into view and draws a frame for a terminal of
    /// `width` columns and `height` rows: the menu bar, the text rows with
    /// their gutter, the status line or search bar, the overlay, and the
    /// cursor. The flag is false where some part cannot be drawn (a terminal
    /// too small for an open overlay, a status line that would be cut inside
    /// a character, offsets past a machine word).
    pub fn render(&mut self, info: &RenderInfo, width: u16, height: u16) -> (r: (Vec<Draw>, bool))
        requires
            info.buffer.wf(),
            info.search.wf(),
            info.overlay matches OverlayInfo::Picker(p) ==> p.wf(),
        ensures
            final(self)@.preferred_col == old(self)@.preferred_col,
            final(self)@.top_line == scrolled_to(
                old(self)@.top_line,
                info.buffer@.line_of_cursor(),
                max_int(height - 2, 0),
            ),
            final(self)@.left_col == scrolled_to(
                old(self)@.left_col,
                info.buffer@.col_of_cursor(),
                max_int(max_int(width - (gutter_width_of(info.buffer@.line_count()) + 1), 0), 1),
            ),
            match frame_draws(info@, final(self)@.top_line, final(self)@.left_col, width, height) {
                Some(d) => r.1 && draws(r.0@) == d,
                None => !r.1,
            },
    {
        self.ensure_cursor_visible(info.buffer, height, width);
        let top = self.top_line;
        let left = self.left_col;
        let mut out: Vec<Draw> = Vec::new();
        put(&mut out, Draw::BeginSync);
        put(&mut out, Draw::Hide);
        put(&mut out, Draw::ResetColor);
        put(&mut out, Draw::ClearAll);
        draw_menu(&mut out, width);
        let ghost d1 = draws(out@);
        let gutter = gutter_width(info.buffer);
        let rows = text_height(height);
        if !draw_rows(&mut out, info, top, left, gutter, width, rows) {
            return (out, false);
        }
        let ghost d2 = draws(out@);
        let (ok, overlay_cursor) = draw_overlay(&mut out, info, width, height);
        if !ok {
            return (out, false);
        }
        let ghost d3 = draws(out@);
        if !draw_cursor(&mut out, info, top, left, gutter, width, height, overlay_cursor) {
            return (out, false);
        }
        proof {
            assert(draws(out@) =~= frame_draws(info@, top as int, left as int, width, height)->0);
        }
        (out, true)
    }
}

} // verus!
