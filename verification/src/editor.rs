//! The editor: its modes, and what each action does to the buffer, the
//! overlays and the language-server session.  Work outside the process
//! (files, the clipboard, starting a server, listing the project's files) is
//! asked for as effects, which the caller performs and reports back before
//! the next action.

use vstd::prelude::*;
use crate::buffer::{
    Buffer, BufferView, min_int, max_int, prev_char_offset, next_char_offset, prev_word_offset,
    next_word_offset,
};
use crate::text::{
    chars_of, push_char, push_str, trim, trimmed, utf8_len, utf8_len_of, is_char_offset,
    decimal_text, decimal_string, lemma_utf8_len_at_least,
};
use crate::input::{Action, Direction, MoveKind, MouseEvent, MouseEventKind, MouseButton};
use crate::search::{SearchState, SearchView};
use crate::picker::{Picker, PickerView, clamp, is_ranking, string_views};
use crate::paths::{path_extension, joined_path};
use crate::config::{Config, ConfigView, LspServerConfig, ServerView};
use crate::json::{JsonValue, JsonData};
use crate::lsp::{LspClient, ClientView, ServerMessage, file_uri, file_uri_text, LspEvent, EventView, command_name, message_view, event_views};
use crate::lsp::actions::{
    CodeActionItem, item_view, apply_workspace_edit, workspace_edits, is_edit_order, apply_edits,
};
use crate::lsp::diagnostics::{
    DiagnosticStore, DiagView, DiagnosticEntry, diags_where, at_spec, on_line_spec, views,
};
use crate::view::{
    Viewport, ViewportView, gutter_width, gutter_width_of, Draw, draws, frame_draws, OverlayInfo,
    OverlayView, RenderInfo, RenderView, highlight_views, scrolled_to,
};
use crate::syntax::StyledSegment;

verus! {

/// How the Tab key indents.
#[derive(Clone, Copy, Debug, PartialEq, Eq, Structural)]
pub struct IndentStyle {
    pub use_tabs: bool,
    pub width: usize,
}

impl Default for IndentStyle {
    fn default() -> (s: IndentStyle)
        ensures
            s == (IndentStyle { use_tabs: false, width: 4 }),
    {
        IndentStyle { use_tabs: false, width: 4 }
    }
}

/// The number of leading characters of `cs` equal to `c`.
pub open spec fn leading_run(cs: Seq<char>, c: char) -> nat
    decreases cs.len(),
{
    if cs.len() > 0 && cs[0] == c {
        1 + leading_run(cs.drop_first(), c)
    } else {
        0
    }
}

/// The lines of a buffer's text, without their newlines.
pub open spec fn buffer_lines(b: BufferView) -> Seq<Seq<char>> {
    Seq::new(b.line_count(), |i: int| b.slice(b.line_start(i), b.line_end(i)))
}

/// A line that is not blank and starts with a tab.
pub open spec fn is_tab_line(l: Seq<char>) -> bool {
    trimmed(l).len() > 0 && leading_run(l, '\t') > 0
}

/// A line that is not blank and starts with a space.
pub open spec fn is_space_line(l: Seq<char>) -> bool {
    trimmed(l).len() > 0 && leading_run(l, '\t') == 0 && leading_run(l, ' ') > 0
}

/// How many lines start with a tab.
pub open spec fn tab_line_count(ls: Seq<Seq<char>>) -> nat
    decreases ls.len(),
{
    if ls.len() == 0 {
        0
    } else {
        tab_line_count(ls.drop_last()) + if is_tab_line(ls.last()) { 1nat } else { 0nat }
    }
}

/// The lengths of the leading runs of spaces, line by line.
pub open spec fn space_runs(ls: Seq<Seq<char>>) -> Seq<nat>
    decreases ls.len(),
{
    if ls.len() == 0 {
        Seq::empty()
    } else if is_space_line(ls.last()) {
        space_runs(ls.drop_last()).push(leading_run(ls.last(), ' '))
    } else {
        space_runs(ls.drop_last())
    }
}

/// How well runs of spaces fit an indentation width: two points for a run
/// of exactly the width, one for a run that is a multiple of it.
pub open spec fn width_score(runs: Seq<nat>, w: nat) -> nat
    decreases runs.len(),
{
    if runs.len() == 0 {
        0
    } else {
        width_score(runs.drop_last(), w) + (if runs.last() == w { 2nat } else { 0nat }) + (if runs.last()
            % w == 0 {
            1nat
        } else {
            0nat
        })
    }
}

/// The indentation the lines use: tabs when more lines start with a tab than
/// with a space, else the best-scoring of the widths 2, 4 and 8 (4 on a tie
/// with it, else the first best).
pub open spec fn indent_style_of(ls: Seq<Seq<char>>) -> IndentStyle {
    let runs = space_runs(ls);
    if tab_line_count(ls) > runs.len() {
        IndentStyle { use_tabs: true, width: 4 }
    } else {
        let s2 = width_score(runs, 2);
        let s4 = width_score(runs, 4);
        let s8 = width_score(runs, 8);
        let b2: (nat, usize) = if s2 > 0 { (s2, 2usize) } else { (0nat, 4usize) };
        let b4: (nat, usize) = if s4 >= b2.0 { (s4, 4usize) } else { b2 };
        let b8: (nat, usize) = if s8 > b4.0 { (s8, 8usize) } else { b4 };
        IndentStyle { use_tabs: false, width: b8.1 }
    }
}

proof fn lemma_space_runs_len(ls: Seq<Seq<char>>)
    ensures
        space_runs(ls).len() <= ls.len(),
        tab_line_count(ls) <= ls.len(),
    decreases ls.len(),
{
    if ls.len() > 0 {
        lemma_space_runs_len(ls.drop_last());
    }
}

proof fn lemma_width_score_bound(runs: Seq<nat>, w: nat)
    ensures
        width_score(runs, w) <= 3 * runs.len(),
    decreases runs.len(),
{
    if runs.len() > 0 {
        lemma_width_score_bound(runs.drop_last(), w);
    }
}

/// The number of leading characters of `s` equal to `c`.
fn count_leading(cs: &Vec<char>, c: char) -> (n: usize)
    ensures
        n == leading_run(cs@, c),
{
    let mut i: usize = 0;
    while i < cs.len() && cs[i] == c
        invariant
            i <= cs@.len(),
            forall|k: int| 0 <= k < i ==> cs@[k] == c,
        decreases cs@.len() - i,
    {
        i = i + 1;
    }
    proof {
        lemma_leading_run_prefix(cs@, c, i as int);
    }
    i
}

proof fn lemma_leading_run_prefix(cs: Seq<char>, c: char, i: int)
    requires
        0 <= i <= cs.len(),
        forall|k: int| 0 <= k < i ==> cs[k] == c,
        i == cs.len() || cs[i] != c,
    ensures
        leading_run(cs, c) == i,
    decreases i,
{
    if i > 0 {
        lemma_leading_run_prefix(cs.drop_first(), c, i - 1);
    }
}

fn score_for(runs: &Vec<usize>, w: usize) -> (s: u128)
    requires
        w > 0,
    ensures
        s == width_score(runs@.map_values(|r: usize| r as nat), w as nat),
{
    let ghost rs = runs@.map_values(|r: usize| r as nat);
    let mut s: u128 = 0;
    let mut i: usize = 0;
    proof {
        assert(rs.take(0) =~= Seq::<nat>::empty());
    }
    while i < runs.len()
        invariant
            w > 0,
            rs == runs@.map_values(|r: usize| r as nat),
            i <= runs@.len(),
            s == width_score(rs.take(i as int), w as nat),
            s <= 3 * i,
        decreases runs@.len() - i,
    {
        proof {
            assert(rs.take(i + 1).drop_last() =~= rs.take(i as int));
            assert(rs.take(i + 1).last() == runs@[i as int] as nat);
        }
        let r = runs[i];
        if r == w {
            s = s + 2;
        }
        if r % w == 0 {
            s = s + 1;
        }
        i = i + 1;
    }
    proof {
        assert(rs.take(runs@.len() as int) =~= rs);
    }
    s
}

/// The indentation a buffer's lines use.
pub fn detect_indent_style(buffer: &Buffer) -> (s: IndentStyle)
    requires
        buffer.wf(),
    ensures
        s == indent_style_of(buffer_lines(buffer@)),
{
    let ghost ls = buffer_lines(buffer@);
    let n = buffer.line_count();
    let mut tab_lines: usize = 0;
    let mut runs: Vec<usize> = Vec::new();
    let mut idx: usize = 0;
    proof {
        assert(ls.take(0) =~= Seq::<Seq<char>>::empty());
        assert(runs@.map_values(|r: usize| r as nat) =~= Seq::<nat>::empty());
    }
    while idx < n
        invariant
            buffer.wf(),
            n == buffer@.line_count(),
            ls == buffer_lines(buffer@),
            ls.len() == n,
            idx <= n,
            tab_lines == tab_line_count(ls.take(idx as int)),
            runs@.map_values(|r: usize| r as nat) == space_runs(ls.take(idx as int)),
            tab_lines <= idx,
            runs@.len() <= idx,
        decreases n - idx,
    {
        proof {
            assert(ls.take(idx + 1).drop_last() =~= ls.take(idx as int));
            assert(ls.take(idx + 1).last() == ls[idx as int]);
            lemma_space_runs_len(ls.take(idx as int));
        }
        let line = buffer.line_text(idx);
        let t = trim(line.as_str());
        let cs = chars_of(line.as_str());
        if t.as_str().is_empty() {
            proof {
                assert(t@.len() == 0);
            }
        } else {
            let spaces = count_leading(&cs, ' ');
            let tabs = count_leading(&cs, '\t');
            if tabs > 0 {
                tab_lines = tab_lines + 1;
            } else if spaces > 0 {
                let ghost before = runs@.map_values(|r: usize| r as nat);
                runs.push(spaces);
                proof {
                    assert(runs@.map_values(|r: usize| r as nat) =~= before.push(spaces as nat));
                }
            }
        }
        idx = idx + 1;
    }
    proof {
        assert(ls.take(n as int) =~= ls);
    }
    if tab_lines > runs.len() {
        return IndentStyle { use_tabs: true, width: 4 };
    }
    let s2 = score_for(&runs, 2);
    let s4 = score_for(&runs, 4);
    let s8 = score_for(&runs, 8);
    let mut best: (u128, usize) = (0, 4);
    if s2 > best.0 || (s2 == best.0 && 2usize == 4) {
        best = (s2, 2);
    }
    if s4 > best.0 || (s4 == best.0 && 4usize == 4) {
        best = (s4, 4);
    }
    if s8 > best.0 || (s8 == best.0 && 8usize == 4) {
        best = (s8, 8);
    }
    IndentStyle { use_tabs: false, width: best.1 }
}

/// The menus of the menu bar.
#[derive(Clone, Copy, Debug, PartialEq, Eq, Structural)]
pub enum MenuKind {
    File,
    Search,
    Navigate,
    Lsp,
    Help,
}

pub open spec fn menu_title(m: MenuKind) -> Seq<char> {
    match m {
        MenuKind::File => "File"@,
        MenuKind::Search => "Search"@,
        MenuKind::Navigate => "Navigate"@,
        MenuKind::Lsp => "LSP"@,
        MenuKind::Help => "Help"@,
    }
}

pub open spec fn menu_items(m: MenuKind) -> Seq<Seq<char>> {
    match m {
        MenuKind::File => seq!["Save   Ctrl+S"@, "Open…  Ctrl+P"@, "Quit   Ctrl+Q"@],
        MenuKind::Search => seq!["Find   Ctrl+F"@, "Next   Ctrl+G"@, "Prev   Ctrl+Shift+G"@],
        MenuKind::Navigate => seq!["Top"@, "Bottom"@],
        MenuKind::Lsp => seq!["Code actions  Ctrl+."@, "Restart LSP"@],
        MenuKind::Help => seq!["Show shortcuts"@],
    }
}

pub open spec fn menu_x(m: MenuKind) -> u16 {
    match m {
        MenuKind::File => 1,
        MenuKind::Search => 8,
        MenuKind::Navigate => 17,
        MenuKind::Lsp => 28,
        MenuKind::Help => 34,
    }
}

/// The longest length among `items`, at least `floor`.
pub open spec fn max_len(items: Seq<Seq<char>>, floor: nat) -> nat
    decreases items.len(),
{
    if items.len() == 0 {
        floor
    } else {
        let m = max_len(items.drop_last(), floor);
        if items.last().len() > m {
            items.last().len()
        } else {
            m
        }
    }
}

/// A dropdown's width: its longest item or title, and two columns each side.
pub open spec fn menu_width(m: MenuKind) -> nat {
    max_len(menu_items(m), menu_title(m).len()) + 4
}

proof fn lemma_menu_item_lengths(m: MenuKind)
    ensures
        forall|i: int| 0 <= i < menu_items(m).len() ==> (#[trigger] menu_items(m)[i]).len() <= 32,
        menu_title(m).len() <= 32,
{
    reveal_strlit("Save   Ctrl+S");
    reveal_strlit("Open…  Ctrl+P");
    reveal_strlit("Quit   Ctrl+Q");
    reveal_strlit("Find   Ctrl+F");
    reveal_strlit("Next   Ctrl+G");
    reveal_strlit("Prev   Ctrl+Shift+G");
    reveal_strlit("Top");
    reveal_strlit("Bottom");
    reveal_strlit("Code actions  Ctrl+.");
    reveal_strlit("Restart LSP");
    reveal_strlit("Show shortcuts");
    reveal_strlit("File");
    reveal_strlit("Search");
    reveal_strlit("Navigate");
    reveal_strlit("LSP");
    reveal_strlit("Help");
}

impl MenuKind {
    pub fn title(self) -> (r: &'static str)
        ensures
            r@ == menu_title(self),
    {
        match self {
            MenuKind::File => "File",
            MenuKind::Search => "Search",
            MenuKind::Navigate => "Navigate",
            MenuKind::Lsp => "LSP",
            MenuKind::Help => "Help",
        }
    }

    pub fn items(self) -> (r: Vec<&'static str>)
        ensures
            r@.map_values(|s: &str| s@) == menu_items(self),
    {
        let r = match self {
            MenuKind::File => vec!["Save   Ctrl+S", "Open…  Ctrl+P", "Quit   Ctrl+Q"],
            MenuKind::Search => vec!["Find   Ctrl+F", "Next   Ctrl+G", "Prev   Ctrl+Shift+G"],
            MenuKind::Navigate => vec!["Top", "Bottom"],
            MenuKind::Lsp => vec!["Code actions  Ctrl+.", "Restart LSP"],
            MenuKind::Help => vec!["Show shortcuts"],
        };
        proof {
            assert(r@.map_values(|s: &str| s@) =~= menu_items(self));
        }
        r
    }

    pub fn x(self) -> (r: u16)
        ensures
            r == menu_x(self),
    {
        match self {
            MenuKind::File => 1,
            MenuKind::Search => 8,
            MenuKind::Navigate => 17,
            MenuKind::Lsp => 28,
            MenuKind::Help => 34,
        }
    }

    pub fn width(self) -> (r: usize)
        ensures
            r == menu_width(self),
    {
        let items = self.items();
        let ghost views = items@.map_values(|s: &str| s@);
        let title = chars_of(self.title());
        let mut m: usize = title.len();
        let mut i: usize = 0;
        proof {
            assert(views.take(0) =~= Seq::<Seq<char>>::empty());
            lemma_menu_item_lengths(self);
        }
        while i < items.len()
            invariant
                views == items@.map_values(|s: &str| s@),
                views == menu_items(self),
                title@ == menu_title(self),
                i <= items@.len(),
                m == max_len(views.take(i as int), title@.len()),
                m <= 32,
            decreases items@.len() - i,
        {
            proof {
                assert(views.take(i + 1).drop_last() =~= views.take(i as int));
                lemma_menu_item_lengths(self);
                assert(views[i as int].len() <= 32);
            }
            let cs = chars_of(items[i]);
            if cs.len() > m {
                m = cs.len();
            }
            i = i + 1;
        }
        proof {
            assert(views.take(views.len() as int) =~= views);
        }
        m + 4
    }
}

/// The menu whose title is at a column of the menu bar (the top row).
pub open spec fn menu_at(column: u16, row: u16) -> Option<MenuKind> {
    if row != 0 {
        None
    } else if 1 <= column < 7 {
        Some(MenuKind::File)
    } else if 8 <= column < 16 {
        Some(MenuKind::Search)
    } else if 17 <= column < 27 {
        Some(MenuKind::Navigate)
    } else if 28 <= column < 33 {
        Some(MenuKind::Lsp)
    } else if 34 <= column < 40 {
        Some(MenuKind::Help)
    } else {
        None
    }
}

/// The menu whose title is at a column of the menu bar.
pub fn menu_at_column(column: u16, row: u16) -> (r: Option<MenuKind>)
    ensures
        r == menu_at(column, row),
{
    if row != 0 {
        return None;
    }
    if 1 <= column && column < 7 {
        Some(MenuKind::File)
    } else if 8 <= column && column < 16 {
        Some(MenuKind::Search)
    } else if 17 <= column && column < 27 {
        Some(MenuKind::Navigate)
    } else if 28 <= column && column < 33 {
        Some(MenuKind::Lsp)
    } else if 34 <= column && column < 40 {
        Some(MenuKind::Help)
    } else {
        None
    }
}


/// What the editor is doing.
#[derive(Debug)]
pub enum Mode {
    Normal,
    Search,
    Picker,
    Menu { menu: MenuKind, selected: usize },
    CodeActions { message: String, items: Vec<CodeActionItem>, selected: usize, loading: bool },
}

/// The mathematical form of a mode.
pub enum ModeView {
    Normal,
    Search,
    Picker,
    Menu { menu: MenuKind, selected: int },
    CodeActions {
        message: Seq<char>,
        items: Seq<(Seq<char>, Option<JsonData>, Option<JsonData>)>,
        selected: int,
        loading: bool,
    },
}

pub open spec fn mode_view(m: Mode) -> ModeView {
    match m {
        Mode::Normal => ModeView::Normal,
        Mode::Search => ModeView::Search,
        Mode::Picker => ModeView::Picker,
        Mode::Menu { menu, selected } => ModeView::Menu { menu, selected: selected as int },
        Mode::CodeActions { message, items, selected, loading } => ModeView::CodeActions {
            message: message@,
            items: items@.map_values(|a: CodeActionItem| item_view(a)),
            selected: selected as int,
            loading,
        },
    }
}

/// Work the editor asks its caller to do; each is reported back before the
/// next action.
#[derive(Debug)]
pub enum Effect {
    /// Write `text` to the file at `path`, creating its directory; report
    /// with `save_finished`.
    Save { path: String, text: String },
    /// Read the file at `path` (a missing file reads as empty); report with
    /// `open_finished`.
    Open { path: String },
    /// Create an empty file at `path`, creating its directory; report with
    /// `create_finished`.
    Create { path: String },
    /// Stop the running language server, if any, and start the given one;
    /// report with `attach_lsp` or `lsp_failed`.
    RestartLsp(Option<LspServerConfig>),
    /// List the project's files if the list is stale, and call `open_picker`.
    OpenPicker,
    /// Put text on the system clipboard; report with `clipboard_written`.
    WriteClipboard { text: String, report: bool },
}

/// The mathematical form of an effect.
pub enum EffectView {
    Save { path: Seq<char>, text: Seq<char> },
    Open { path: Seq<char> },
    Create { path: Seq<char> },
    RestartLsp(Option<ServerView>),
    OpenPicker,
    WriteClipboard { text: Seq<char>, report: bool },
}

pub open spec fn effect_view(e: Effect) -> EffectView {
    match e {
        Effect::Save { path, text } => EffectView::Save { path: path@, text: text@ },
        Effect::Open { path } => EffectView::Open { path: path@ },
        Effect::Create { path } => EffectView::Create { path: path@ },
        Effect::RestartLsp(c) => EffectView::RestartLsp(
            match c {
                Some(x) => Some(x@),
                None => None,
            },
        ),
        Effect::OpenPicker => EffectView::OpenPicker,
        Effect::WriteClipboard { text, report } => EffectView::WriteClipboard { text: text@, report },
    }
}

pub open spec fn effect_views(es: Seq<Effect>) -> Seq<EffectView> {
    es.map_values(|e: Effect| effect_view(e))
}

/// The text of an optional string.
pub open spec fn opt_view(s: Option<String>) -> Option<Seq<char>> {
    match s {
        Some(t) => Some(t@),
        None => None,
    }
}

/// The mathematical form of the editor.
pub struct AppView {
    pub buffer: BufferView,
    pub viewport: ViewportView,
    pub search: SearchView,
    pub picker: PickerView,
    pub config: ConfigView,
    pub lsp: Option<ClientView>,
    pub diagnostics: Seq<DiagView>,
    pub clipboard_available: bool,
    pub indent: IndentStyle,
    pub cwd: Seq<char>,
    pub mode: ModeView,
    pub running: bool,
    pub status: Seq<char>,
    pub quit_armed: bool,
    pub effects: Seq<EffectView>,
}

/// `\r\n` and lone `\r` turned into `\n`.
pub open spec fn crlf_normalized(cs: Seq<char>) -> Seq<char>
    decreases cs.len(),
{
    if cs.len() == 0 {
        Seq::empty()
    } else if cs[0] == '\r' && cs.len() > 1 && cs[1] == '\n' {
        seq!['\n'] + crlf_normalized(cs.skip(2))
    } else if cs[0] == '\r' {
        seq!['\n'] + crlf_normalized(cs.drop_first())
    } else {
        seq![cs[0]] + crlf_normalized(cs.drop_first())
    }
}

/// The characters of `cs` other than line breaks.
pub open spec fn without_newlines(cs: Seq<char>) -> Seq<char>
    decreases cs.len(),
{
    if cs.len() == 0 {
        Seq::empty()
    } else if cs.last() != '\n' && cs.last() != '\r' {
        without_newlines(cs.drop_last()).push(cs.last())
    } else {
        without_newlines(cs.drop_last())
    }
}

/// Once typing a prefix fails, typing the whole fails.
pub proof fn lemma_typing_fails_on(s: SearchView, cs: Seq<char>, k: int, b: BufferView)
    requires
        0 <= k <= cs.len(),
        !search_typed(s, without_newlines(cs.take(k)), b).1,
    ensures
        !search_typed(s, without_newlines(cs), b).1,
    decreases cs.len() - k,
{
    if k == cs.len() {
        assert(cs.take(k) =~= cs);
    } else {
        assert(cs.take(k + 1).drop_last() =~= cs.take(k));
        assert(cs.take(k + 1).last() == cs[k]);
        if cs[k] != '\n' && cs[k] != '\r' {
            lemma_search_typed_fails_on(s, without_newlines(cs.take(k)), cs[k], b);
        }
        lemma_typing_fails_on(s, cs, k + 1, b);
    }
}

/// Once a search in a run of typing fails, the run fails.
pub proof fn lemma_search_typed_fails_on(s: SearchView, cs: Seq<char>, c: char, b: BufferView)
    requires
        !search_typed(s, cs, b).1,
    ensures
        !search_typed(s, cs.push(c), b).1,
{
    assert(cs.push(c).drop_last() =~= cs);
}

/// The leading spaces and tabs of a line.
pub open spec fn indent_prefix(cs: Seq<char>) -> Seq<char>
    decreases cs.len(),
{
    if cs.len() > 0 && (cs[0] == ' ' || cs[0] == '\t') {
        seq![cs[0]] + indent_prefix(cs.drop_first())
    } else {
        Seq::empty()
    }
}

/// What the Tab key types.
pub open spec fn indent_text(s: IndentStyle) -> Seq<char> {
    if s.use_tabs {
        seq!['\t']
    } else {
        Seq::new(s.width as nat, |i: int| ' ')
    }
}

/// The server configured for a file, by its extension.
pub open spec fn server_for(c: ConfigView, path: Seq<char>) -> Option<ServerView> {
    match path_extension(path) {
        Some(e) => if c.lsp.dom().contains(e) {
            Some(c.lsp[e])
        } else {
            None
        },
        None => None,
    }
}

/// A buffer freshly read from a file.
pub open spec fn fresh_buffer(content: Seq<u8>, path: Option<Seq<char>>) -> BufferView {
    BufferView {
        content,
        cursor: 0,
        anchor: None,
        undo: Seq::empty(),
        redo: Seq::empty(),
        path,
        modified: false,
        version: 0,
    }
}

/// The search moved to its next match.
pub open spec fn search_next(s: SearchView, b: BufferView) -> (SearchView, BufferView) {
    if s.matches.len() == 0 {
        (s, b)
    } else {
        let c = (s.current + 1) % (s.matches.len() as int);
        (SearchView { current: c, ..s }, b.with_cursor(s.matches[c].0, false))
    }
}

/// The search moved to its previous match.
pub open spec fn search_previous(s: SearchView, b: BufferView) -> (SearchView, BufferView) {
    if s.matches.len() == 0 {
        (s, b)
    } else {
        let c = if s.current == 0 {
            s.matches.len() - 1
        } else {
            s.current - 1
        };
        (SearchView { current: c, ..s }, b.with_cursor(s.matches[c].0, false))
    }
}

/// The cursor put on the current match.
pub open spec fn search_jump(s: SearchView, b: BufferView) -> BufferView {
    if s.matches.len() == 0 {
        b
    } else {
        b.with_cursor(s.matches[s.current].0, false)
    }
}

/// The search after typing each character in turn; false where one of the
/// searches would resume inside a character.
pub open spec fn search_typed(s: SearchView, cs: Seq<char>, b: BufferView) -> (SearchView, bool)
    decreases cs.len(),
{
    if cs.len() == 0 {
        (s, true)
    } else {
        let (s1, ok1) = search_typed(s, cs.drop_last(), b);
        let s2 = SearchView { query: s1.query.push(cs.last()), ..s1 };
        (s2.recomputed(b.text(), b.cursor as int), ok1 && s2.search_completes(b.text()))
    }
}

/// The picker after typing a character.
pub open spec fn picker_pushed(p: PickerView, q: PickerView, ch: char) -> bool {
    &&& q.query == p.query.push(ch)
    &&& q.files == p.files
    &&& q.active == p.active
    &&& q.cwd == p.cwd
    &&& q.refiltered_from(p.selected)
}

/// One typed character: a line break leaves the picker as it is, any other
/// character is added to the query, which lists the matches again.
pub open spec fn picker_typed_char(p: PickerView, c: char, q: PickerView) -> bool {
    if c == '\n' || c == '\r' {
        q == p
    } else {
        picker_pushed(p, q, c)
    }
}

/// The picker after typing the characters of `cs` one by one: there is a
/// picker after each character, each one step from the one before.
pub open spec fn picker_typed(p: PickerView, cs: Seq<char>, q: PickerView) -> bool {
    exists|steps: Seq<PickerView>|
        {
            &&& steps.len() == cs.len() + 1
            &&& steps[0] == p
            &&& steps.last() == q
            &&& forall|k: int|
                0 <= k < cs.len() ==> picker_typed_char(#[trigger] steps[k], cs[k], steps[k + 1])
        }
}

/// The picker after removing the query's last character.
pub open spec fn picker_popped(p: PickerView, q: PickerView) -> bool {
    &&& q.query == if p.query.len() > 0 {
        p.query.drop_last()
    } else {
        p.query
    }
    &&& q.files == p.files
    &&& q.active == p.active
    &&& q.cwd == p.cwd
    &&& q.refiltered_from(p.selected)
}

/// The picker with its selection moved by `delta`.
pub open spec fn picker_moved(p: PickerView, delta: int) -> PickerView {
    PickerView {
        selected: if p.filtered.len() == 0 {
            0
        } else {
            clamp(p.selected + delta, 0, p.filtered.len() - 1)
        },
        ..p
    }
}

/// The diagnostics offered for code actions at a position: those that
/// contain it, else those on its line.
pub open spec fn diags_at(d: Seq<DiagView>, line: int, col: int) -> Seq<DiagView> {
    if diags_where(d, at_spec(line, col)).len() > 0 {
        diags_where(d, at_spec(line, col))
    } else {
        diags_where(d, on_line_spec(line))
    }
}

/// The buffer after the edits of a workspace edit, applied in an order that
/// `apply_workspace_edit` allows.
pub open spec fn edited_by(b: BufferView, uri: Seq<char>, edit: JsonData, nb: BufferView) -> bool {
    exists|perm: Seq<int>|
        is_edit_order(perm, workspace_edits(b, uri, edit)) && nb == apply_edits(
            b,
            workspace_edits(b, uri, edit),
            perm,
        )
}

impl AppView {
    pub open spec fn say(self, s: Seq<char>) -> AppView {
        AppView { status: s, ..self }
    }

    pub open spec fn emit(self, e: EffectView) -> AppView {
        AppView { effects: self.effects.push(e), ..self }
    }

    /// The URI of the open file: the one its language-server session was
    /// started with, else the `file:` URI of the buffer's path (empty for a
    /// buffer with no path).
    pub open spec fn document_uri(self) -> Seq<char> {
        match self.lsp {
            Some(c) => c.uri,
            None => match self.buffer.path {
                Some(p) => file_uri_text(p),
                None => Seq::empty(),
            },
        }
    }

    pub open spec fn in_mode(self, m: ModeView) -> AppView {
        AppView { mode: m, ..self }
    }

    pub open spec fn with_buffer(self, b: BufferView) -> AppView {
        AppView { buffer: b, ..self }
    }

    /// After an edit: search again and tell the server about the new text.
    pub open spec fn after_edit(self) -> (AppView, bool) {
        (
            AppView {
                search: self.search.recomputed(self.buffer.text(), self.buffer.cursor as int),
                lsp: match self.lsp {
                    Some(c) => Some(c.after_did_change(self.buffer)),
                    None => None,
                },
                ..self
            },
            self.search.search_completes(self.buffer.text()),
        )
    }

    pub open spec fn mutated(self, b: BufferView) -> (AppView, bool) {
        self.with_buffer(b).after_edit()
    }

    /// Ctrl+S: ask for the buffer to be written, or say why it cannot be.
    pub open spec fn save_requested(self) -> AppView {
        match self.buffer.path {
            Some(p) => self.emit(EffectView::Save { path: p, text: self.buffer.text() }),
            None => self.say("Save failed: no file path; use Ctrl+P and Ctrl+Enter to create one"@),
        }
    }

    /// Ctrl+Q: quit, unless there are unsaved changes and this is the first
    /// press.
    pub open spec fn quitted(self) -> AppView {
        if self.buffer.modified && !self.quit_armed {
            AppView {
                quit_armed: true,
                status: "Unsaved changes; press Ctrl+Q again to quit without saving"@,
                ..self
            }
        } else {
            AppView { running: false, ..self }
        }
    }

    pub open spec fn clipboard_set(self, text: Seq<char>, report: bool) -> AppView {
        if self.clipboard_available {
            self.emit(EffectView::WriteClipboard { text, report })
        } else {
            self.say("System clipboard unavailable"@)
        }
    }

    pub open spec fn cut(self) -> (AppView, bool) {
        match self.buffer.selected_range() {
            Some((a, b)) => self.with_buffer(
                self.buffer.with_replaced_range(a as int, b as int, Seq::empty()),
            ).clipboard_set(self.buffer.slice(a as int, b as int), true).after_edit(),
            None => (self, true),
        }
    }

    pub open spec fn copied(self) -> AppView {
        match self.buffer.selected_range() {
            Some((a, b)) => self.clipboard_set(self.buffer.slice(a as int, b as int), false).say(
                "Copied"@,
            ),
            None => self,
        }
    }

    /// Typing `text`; false where the buffer has no room for it.
    pub open spec fn inserted(self, text: Seq<char>) -> (AppView, bool) {
        if text.len() == 0 || self.buffer.fits(utf8_len(text) as int) {
            self.mutated(self.buffer.after_insert(text))
        } else {
            (self, false)
        }
    }

    pub open spec fn pasted(self, clip: Option<Seq<char>>) -> (AppView, bool) {
        match clip {
            Some(t) => self.inserted(crlf_normalized(t)),
            None => (self, true),
        }
    }

    /// Enter: a newline, then the current line's indentation.
    pub open spec fn newline_text(self) -> Seq<char> {
        let l = self.buffer.line_of_cursor();
        seq!['\n'] + indent_prefix(self.buffer.slice(self.buffer.line_start(l), self.buffer.line_end(l)))
    }

    pub open spec fn undone(self) -> (AppView, bool) {
        if self.buffer.undo_fits() {
            self.mutated(self.buffer.after_undo())
        } else {
            (self, false)
        }
    }

    pub open spec fn redone(self) -> (AppView, bool) {
        if self.buffer.redo_fits() {
            self.mutated(self.buffer.after_redo())
        } else {
            (self, false)
        }
    }

    pub open spec fn deleted_backward(self) -> (AppView, bool) {
        if self.buffer.can_delete_backward() {
            self.mutated(self.buffer.after_delete_backward())
        } else {
            (self, false)
        }
    }

    pub open spec fn deleted_forward(self) -> (AppView, bool) {
        if self.buffer.can_delete_forward() {
            self.mutated(self.buffer.after_delete_forward())
        } else {
            (self, false)
        }
    }

    /// Moving the cursor; false where a character-wise move starts inside a
    /// character.
    pub open spec fn moved(self, kind: MoveKind, selecting: bool) -> (AppView, bool) {
        let b = self.buffer;
        let line = b.line_of_cursor();
        let col = b.col_of_cursor();
        let last = b.line_count() - 1;
        let cleared = ViewportView { preferred_col: None, ..self.viewport };
        let pref = match self.viewport.preferred_col {
            Some(p) => p,
            None => col,
        };
        let kept = ViewportView { preferred_col: Some(pref), ..self.viewport };
        let p = min_int(b.cursor as int, b.len() as int);
        let pt = min_int(b.cursor as int, b.text_len() as int);
        let go = |t: int, v: ViewportView|
            AppView { buffer: b.with_cursor(t, selecting), viewport: v, ..self };
        match kind {
            MoveKind::Char(Direction::Left) => if is_char_offset(b.text(), p) {
                (go(prev_char_offset(b.text(), p), cleared), true)
            } else {
                (self, false)
            },
            MoveKind::Char(Direction::Right) => if p >= b.text_len() || is_char_offset(b.text(), p) {
                (go(next_char_offset(b.text(), p), cleared), true)
            } else {
                (self, false)
            },
            MoveKind::Word(Direction::Left) => if is_char_offset(b.text(), pt) {
                (go(prev_word_offset(b.text(), pt), cleared), true)
            } else {
                (self, false)
            },
            MoveKind::Word(Direction::Right) => if is_char_offset(b.text(), pt) {
                (go(next_word_offset(b.text(), pt), cleared), true)
            } else {
                (self, false)
            },
            MoveKind::Char(Direction::Up) => (
                go(b.offset_for_line_col(max_int(line - 1, 0), pref), kept),
                true,
            ),
            MoveKind::Char(Direction::Down) => (
                go(b.offset_for_line_col(min_int(line + 1, last), pref), kept),
                true,
            ),
            MoveKind::LineStart => (go(b.line_start(line), cleared), true),
            MoveKind::LineEnd => (go(b.line_end(line), cleared), true),
            MoveKind::PageUp => (go(b.offset_for_line_col(max_int(line - 20, 0), pref), kept), true),
            MoveKind::PageDown => (
                go(b.offset_for_line_col(min_int(line + 20, last), pref), kept),
                true,
            ),
            MoveKind::Word(_) => (go(b.cursor as int, cleared), true),
        }
    }

    /// The offset of the character under the mouse.
    pub open spec fn mouse_offset(self, column: u16, row: u16) -> int {
        let b = self.buffer;
        let gutter = gutter_width_of(b.line_count()) as int;
        let line = min_int(self.viewport.top_line + max_int(row - 1, 0), max_int(b.line_count() - 1, 0));
        let col = max_int(column - gutter, 0) + self.viewport.left_col;
        b.offset_for_line_col(line, col)
    }

    /// Scrolling by `delta` lines; the cursor follows onto the screen.
    pub open spec fn scrolled(self, delta: int, height: Option<u16>) -> AppView {
        let b = self.buffer;
        let visible = max_int(
            match height {
                Some(h) => max_int(h - 2, 0),
                None => 22,
            },
            1,
        );
        let max_top = max_int(b.line_count() - 1, 0);
        let top = if delta < 0 {
            max_int(self.viewport.top_line + delta, 0)
        } else {
            min_int(self.viewport.top_line + delta, max_top)
        };
        let v = AppView { viewport: ViewportView { top_line: top, ..self.viewport }, ..self };
        let line = b.line_of_cursor();
        let col = b.col_of_cursor();
        if line < top {
            v.with_buffer(b.with_cursor(b.offset_for_line_col(top, col), false))
        } else if line >= top + visible {
            let bottom = min_int(top + visible - 1, b.line_count() - 1);
            v.with_buffer(b.with_cursor(b.offset_for_line_col(bottom, col), false))
        } else {
            v
        }
    }

    /// A mouse event in the text: a click on a menu title opens the menu.
    pub open spec fn mouse(self, m: MouseEvent, height: Option<u16>) -> AppView {
        if m.kind == MouseEventKind::Down(MouseButton::Left) && menu_at(m.column, m.row) is Some {
            self.in_mode(ModeView::Menu { menu: menu_at(m.column, m.row)->0, selected: 0 })
        } else {
            match m.kind {
                MouseEventKind::ScrollUp => self.scrolled(-3, height),
                MouseEventKind::ScrollDown => self.scrolled(3, height),
                MouseEventKind::Down(MouseButton::Left) => self.with_buffer(
                    self.buffer.with_cursor(self.mouse_offset(m.column, m.row), false),
                ),
                MouseEventKind::Drag(MouseButton::Left) => self.with_buffer(
                    self.buffer.with_cursor(self.mouse_offset(m.column, m.row), true),
                ),
                _ => self,
            }
        }
    }

    /// Restarting the language server for the buffer's file.
    pub open spec fn lsp_restarted(self) -> AppView {
        let s = AppView { lsp: None, ..self };
        match self.buffer.path {
            None => s.say("No file path; LSP off"@).emit(EffectView::RestartLsp(None)),
            Some(p) => s.emit(EffectView::RestartLsp(server_for(self.config, p))),
        }
    }

    /// Opening the code-action overlay, asking the server when there is one.
    pub open spec fn code_actions_opened(self) -> (AppView, bool) {
        let b = self.buffer;
        let ds = diags_at(self.diagnostics, b.line_of_cursor(), b.col_of_cursor());
        let message = if ds.len() > 0 {
            ds[0].message
        } else {
            "No diagnostic at cursor; requesting contextual actions"@
        };
        let s = self.in_mode(
            ModeView::CodeActions {
                message,
                items: Seq::empty(),
                selected: 0,
                loading: self.lsp is Some,
            },
        );
        match self.lsp {
            Some(c) => (
                AppView { lsp: Some(c.after_code_action_request(b, ds)), ..s },
                !c.ready() || c.next_id < i64::MAX,
            ),
            None => (s, true),
        }
    }

    pub open spec fn open_path_requested(self, path: Seq<char>) -> AppView {
        if self.buffer.modified {
            self.say("Save or quit current file before opening another"@)
        } else {
            self.emit(EffectView::Open { path })
        }
    }

    pub open spec fn create_path_requested(self, path: Seq<char>) -> AppView {
        if self.buffer.modified {
            self.say("Save or quit current file before creating another"@)
        } else {
            self.emit(EffectView::Create { path })
        }
    }
}

impl AppView {
    /// An action in the normal mode.
    pub open spec fn normal_step(self, action: Action, clip: Option<Seq<char>>, height: Option<u16>) -> (AppView, bool) {
        let b = self.buffer;
        match action {
            Action::Save => (self.save_requested(), true),
            Action::Quit => (self.quitted(), true),
            Action::Find => (
                AppView {
                    search: (SearchView { active: true, ..self.search }).recomputed(
                        b.text(),
                        b.cursor as int,
                    ),
                    mode: ModeView::Search,
                    ..self
                },
                self.search.search_completes(b.text()),
            ),
            Action::FindNext => {
                let s = self.search.recomputed(b.text(), b.cursor as int);
                let (s2, b2) = search_next(s, b);
                (AppView { search: s2, buffer: b2, ..self }, self.search.search_completes(b.text()))
            },
            Action::FindPrevious => {
                let s = self.search.recomputed(b.text(), b.cursor as int);
                let (s2, b2) = search_previous(s, b);
                (AppView { search: s2, buffer: b2, ..self }, self.search.search_completes(b.text()))
            },
            Action::Picker => (self.emit(EffectView::OpenPicker), true),
            Action::ShowCodeActions => self.code_actions_opened(),
            Action::Undo => self.undone(),
            Action::Redo => self.redone(),
            Action::Cut => self.cut(),
            Action::Copy => (self.copied(), true),
            Action::Paste => self.pasted(clip),
            Action::SelectAll => (
                self.with_buffer(BufferView { anchor: Some(0), cursor: b.len(), ..b }),
                true,
            ),
            Action::Move { kind, selecting } => self.moved(kind, selecting),
            Action::Insert(ch) => self.inserted(seq![ch]),
            Action::Tab => self.inserted(indent_text(self.indent)),
            Action::Enter => self.inserted(self.newline_text()),
            Action::Backspace => self.deleted_backward(),
            Action::Delete => self.deleted_forward(),
            Action::Mouse(m) => (self.mouse(m, height), true),
            _ => (self, true),
        }
    }

    /// An action while the search bar is open.
    pub open spec fn search_step(self, action: Action, clip: Option<Seq<char>>, height: Option<u16>) -> (AppView, bool) {
        let b = self.buffer;
        match action {
            Action::Escape | Action::Enter => (
                AppView {
                    search: SearchView { active: false, ..self.search },
                    mode: ModeView::Normal,
                    ..self
                },
                true,
            ),
            Action::FindNext => {
                let (s2, b2) = search_next(self.search, b);
                (AppView { search: s2, buffer: b2, ..self }, true)
            },
            Action::FindPrevious => {
                let (s2, b2) = search_previous(self.search, b);
                (AppView { search: s2, buffer: b2, ..self }, true)
            },
            Action::Backspace => {
                let q = if self.search.query.len() > 0 {
                    self.search.query.drop_last()
                } else {
                    self.search.query
                };
                let s = SearchView { query: q, ..self.search };
                (
                    AppView { search: s.recomputed(b.text(), b.cursor as int), ..self },
                    s.search_completes(b.text()),
                )
            },
            Action::Insert(ch) => {
                let (s, ok) = search_typed(self.search, seq![ch], b);
                (AppView { search: s, buffer: search_jump(s, b), ..self }, ok)
            },
            Action::Paste => match clip {
                Some(t) => {
                    let (s, ok) = search_typed(self.search, without_newlines(t), b);
                    (AppView { search: s, buffer: search_jump(s, b), ..self }, ok)
                },
                None => (self, true),
            },
            Action::Mouse(m) => (self.mouse(m, height), true),
            _ => self.normal_step(action, clip, height),
        }
    }

    /// Moving the dropdown's selection.
    pub open spec fn menu_moved(self, delta: int) -> AppView {
        match self.mode {
            ModeView::Menu { menu, selected } => self.in_mode(
                ModeView::Menu {
                    menu,
                    selected: clamp(selected + delta, 0, menu_items(menu).len() - 1),
                },
            ),
            _ => self,
        }
    }

    /// Running the selected menu entry.
    pub open spec fn menu_activated(self) -> (AppView, bool) {
        match self.mode {
            ModeView::Menu { menu, selected } => {
                let s = self.in_mode(ModeView::Normal);
                let b = s.buffer;
                match menu {
                    MenuKind::File => if selected == 0 {
                        (s.save_requested(), true)
                    } else if selected == 1 {
                        (s.emit(EffectView::OpenPicker), true)
                    } else if selected == 2 {
                        (s.quitted(), true)
                    } else {
                        (s, true)
                    },
                    MenuKind::Search => if selected == 0 {
                        (
                            AppView {
                                search: (SearchView { active: true, ..s.search }).recomputed(
                                    b.text(),
                                    b.cursor as int,
                                ),
                                mode: ModeView::Search,
                                ..s
                            },
                            s.search.search_completes(b.text()),
                        )
                    } else if selected == 1 || selected == 2 {
                        let r = s.search.recomputed(b.text(), b.cursor as int);
                        let (s2, b2) = if selected == 1 {
                            search_next(r, b)
                        } else {
                            search_previous(r, b)
                        };
                        (AppView { search: s2, buffer: b2, ..s }, s.search.search_completes(b.text()))
                    } else {
                        (s, true)
                    },
                    MenuKind::Navigate => if selected == 0 {
                        (s.with_buffer(b.with_cursor(0, false)), true)
                    } else if selected == 1 {
                        (s.with_buffer(b.with_cursor(b.len() as int, false)), true)
                    } else {
                        (s, true)
                    },
                    MenuKind::Lsp => if selected == 0 {
                        s.code_actions_opened()
                    } else if selected == 1 {
                        (s.lsp_restarted(), true)
                    } else {
                        (s, true)
                    },
                    MenuKind::Help => if selected == 0 {
                        (
                            s.say(
                                "Keys: Ctrl+S save · Ctrl+P picker · Ctrl+F find · Ctrl+. code actions · Ctrl+Q quit"@,
                            ),
                            true,
                        )
                    } else {
                        (s, true)
                    },
                }
            },
            _ => (self, true),
        }
    }

    /// A mouse event while a dropdown is open: a click on a menu title opens
    /// that menu, one on an entry runs it, one elsewhere closes the menu.
    pub open spec fn menu_mouse(self, m: MouseEvent) -> (AppView, bool) {
        if m.kind != MouseEventKind::Down(MouseButton::Left) {
            (self, true)
        } else if menu_at(m.column, m.row) is Some {
            (self.in_mode(ModeView::Menu { menu: menu_at(m.column, m.row)->0, selected: 0 }), true)
        } else {
            match self.mode {
                ModeView::Menu { menu, selected } => {
                    let x = menu_x(menu) as int;
                    let in_x = x <= m.column && m.column < min_int(x + (menu_width(menu) as u16), 65535);
                    if in_x && 2 <= m.row && m.row < 2 + menu_items(menu).len() {
                        self.in_mode(ModeView::Menu { menu, selected: m.row - 2 }).menu_activated()
                    } else {
                        (self.in_mode(ModeView::Normal), true)
                    }
                },
                _ => (self, true),
            }
        }
    }

    /// An action while a dropdown is open.
    pub open spec fn menu_step(self, action: Action) -> (AppView, bool) {
        match action {
            Action::Escape => (self.in_mode(ModeView::Normal), true),
            Action::Move { kind: MoveKind::Char(Direction::Up), .. } => (self.menu_moved(-1), true),
            Action::Move { kind: MoveKind::Char(Direction::Down), .. } => (self.menu_moved(1), true),
            Action::Enter => self.menu_activated(),
            Action::Mouse(m) => self.menu_mouse(m),
            _ => (self, true),
        }
    }

    /// Moving the code-action overlay's selection.
    pub open spec fn code_action_moved(self, delta: int) -> AppView {
        match self.mode {
            ModeView::CodeActions { message, items, selected, loading } => self.in_mode(
                ModeView::CodeActions {
                    message,
                    items,
                    selected: if items.len() == 0 {
                        0
                    } else {
                        clamp(selected + delta, 0, items.len() - 1)
                    },
                    loading,
                },
            ),
            _ => self,
        }
    }

    /// After applying a code action's edit (or not), running its command and
    /// closing the overlay.
    pub open spec fn code_action_finished(self, command: Option<JsonData>, next: AppView, ok: bool) -> bool {
        let (lsp, lsp_ok) = match (command, self.lsp) {
            (Some(cmd), Some(c)) => (
                Some(c.after_execute(cmd)),
                command_name(cmd) is None || c.next_id < i64::MAX,
            ),
            _ => (self.lsp, true),
        };
        &&& ok == lsp_ok
        &&& ok ==> next == AppView { lsp, mode: ModeView::Normal, ..self }
    }

    /// Enter in the code-action overlay: apply the selected action's edit,
    /// run its command and close the overlay; nothing while loading.
    pub open spec fn code_action_applied(self, next: AppView, ok: bool) -> bool {
        match self.mode {
            ModeView::CodeActions { items, selected, loading, .. } => if loading || selected < 0
                || selected >= items.len() {
                next == self && ok
            } else {
                let s = self.in_mode(ModeView::Normal);
                let item = items[selected];
                match item.1 {
                    Some(e) => exists|nb: BufferView|
                        #![trigger edited_by(self.buffer, self.document_uri(), e, nb)]
                        edited_by(self.buffer, self.document_uri(), e, nb) && {
                            let (s1, ok1) = s.with_buffer(nb).after_edit();
                            let s2 = s1.say(
                                "Applied "@ + decimal_text(
                                    workspace_edits(self.buffer, self.document_uri(), e).len(),
                                )
                                    + " edit(s)"@,
                            );
                            if ok1 {
                                s2.code_action_finished(item.2, next, ok)
                            } else {
                                !ok
                            }
                        },
                    None => s.code_action_finished(item.2, next, ok),
                }
            },
            _ => next == self && ok,
        }
    }

    /// An action while the code-action overlay is open.
    pub open spec fn code_actions_step(self, action: Action, next: AppView, ok: bool) -> bool {
        match action {
            Action::Escape => next == self.in_mode(ModeView::Normal) && ok,
            Action::Move { kind: MoveKind::Char(Direction::Up), .. } => next == self.code_action_moved(-1) && ok,
            Action::Move { kind: MoveKind::Char(Direction::Down), .. } => next == self.code_action_moved(1)
                && ok,
            Action::Enter => self.code_action_applied(next, ok),
            Action::Mouse(m) => ok && next == match m.kind {
                MouseEventKind::ScrollUp => self.code_action_moved(-3),
                MouseEventKind::ScrollDown => self.code_action_moved(3),
                _ => self,
            },
            _ => next == self && ok,
        }
    }

    /// An action while the file picker is open.
    pub open spec fn picker_step(self, action: Action, clip: Option<Seq<char>>, next: AppView, ok: bool) -> bool {
        let p = self.picker;
        let closed = PickerView { active: false, ..p };
        let same_but_picker = |q: PickerView| next == AppView { picker: q, ..self };
        match action {
            Action::Escape => ok && next == AppView { picker: closed, mode: ModeView::Normal, ..self },
            Action::Backspace => ok && picker_popped(p, next.picker) && same_but_picker(next.picker),
            Action::Insert(ch) => ok && picker_pushed(p, next.picker, ch) && same_but_picker(next.picker),
            Action::Move { kind: MoveKind::Char(Direction::Up), .. } => ok && next == AppView {
                picker: picker_moved(p, -1),
                ..self
            },
            Action::Move { kind: MoveKind::Char(Direction::Down), .. } => ok && next == AppView {
                picker: picker_moved(p, 1),
                ..self
            },
            Action::Move { kind: MoveKind::PageUp, .. } => ok && next == AppView {
                picker: picker_moved(p, -10),
                ..self
            },
            Action::Move { kind: MoveKind::PageDown, .. } => ok && next == AppView {
                picker: picker_moved(p, 10),
                ..self
            },
            Action::Enter => ok && next == if p.filtered.len() > 0 {
                AppView { picker: closed, mode: ModeView::Normal, ..self }.open_path_requested(
                    joined_path(p.cwd, p.files[p.filtered[p.selected]]),
                )
            } else {
                self
            },
            Action::Create => ok && next == if trimmed(p.query).len() > 0 {
                AppView { picker: closed, mode: ModeView::Normal, ..self }.create_path_requested(
                    joined_path(p.cwd, trimmed(p.query)),
                )
            } else {
                self
            },
            Action::Paste => ok && match clip {
                Some(t) => {
                    &&& same_but_picker(next.picker)
                    &&& next.picker.query == p.query + without_newlines(t)
                    &&& next.picker.files == p.files
                    &&& next.picker.active == p.active
                    &&& next.picker.cwd == p.cwd
                    &&& is_ranking(next.picker.filtered, next.picker.files, trimmed(next.picker.query))
                    &&& picker_typed(p, t, next.picker)
                },
                None => next == self,
            },
            Action::Mouse(m) => ok && next == match m.kind {
                MouseEventKind::ScrollUp => AppView { picker: picker_moved(p, -3), ..self },
                MouseEventKind::ScrollDown => AppView { picker: picker_moved(p, 3), ..self },
                _ => self,
            },
            _ => ok && next == self,
        }
    }

    /// One action, in whatever mode the editor is: `ok` is false where the
    /// action cannot be carried out without a fault (a move or deletion
    /// starting inside a character, a search resuming inside one, a buffer
    /// with no room, a session out of request ids).
    pub open spec fn step(self, action: Action, clip: Option<Seq<char>>, height: Option<u16>, next: AppView, ok: bool) -> bool {
        let s = match action {
            Action::Nothing | Action::Quit => self,
            _ => AppView { quit_armed: false, ..self },
        };
        match s.mode {
            ModeView::Search => {
                let (t, k) = s.search_step(action, clip, height);
                ok == k && (ok ==> next == t)
            },
            ModeView::Picker => s.picker_step(action, clip, next, ok),
            ModeView::Menu { .. } => {
                let (t, k) = s.menu_step(action);
                ok == k && (ok ==> next == t)
            },
            ModeView::CodeActions { .. } => s.code_actions_step(action, next, ok),
            ModeView::Normal => {
                let (t, k) = s.normal_step(action, clip, height);
                ok == k && (ok ==> next == t)
            },
        }
    }
}


/// `\r\n` and lone `\r` turned into `\n`.
pub fn normalize_newlines(text: &str) -> (r: String)
    ensures
        r@ == crlf_normalized(text@),
{
    let cs = chars_of(text);
    let mut out = String::new();
    let mut i: usize = 0;
    proof {
        assert(cs@.skip(0) =~= cs@);
        assert(Seq::<char>::empty() + crlf_normalized(cs@) =~= crlf_normalized(cs@));
    }
    while i < cs.len()
        invariant
            cs@ == text@,
            i <= cs@.len(),
            out@ + crlf_normalized(cs@.skip(i as int)) == crlf_normalized(cs@),
        decreases cs@.len() - i,
    {
        let ghost rest = cs@.skip(i as int);
        proof {
            assert(rest[0] == cs@[i as int]);
        }
        if cs[i] == '\r' && i + 1 < cs.len() && cs[i + 1] == '\n' {
            proof {
                assert(rest[1] == cs@[i + 1]);
                assert(rest.skip(2) =~= cs@.skip(i + 2));
                assert(out@.push('\n') + crlf_normalized(cs@.skip(i + 2)) =~= out@ + crlf_normalized(
                    rest,
                ));
            }
            push_char(&mut out, '\n');
            i = i + 2;
        } else if cs[i] == '\r' {
            proof {
                assert(rest.drop_first() =~= cs@.skip(i + 1));
                assert(out@.push('\n') + crlf_normalized(cs@.skip(i + 1)) =~= out@ + crlf_normalized(
                    rest,
                ));
            }
            push_char(&mut out, '\n');
            i = i + 1;
        } else {
            proof {
                assert(rest.drop_first() =~= cs@.skip(i + 1));
                assert(out@.push(cs@[i as int]) + crlf_normalized(cs@.skip(i + 1)) =~= out@
                    + crlf_normalized(rest));
            }
            push_char(&mut out, cs[i]);
            i = i + 1;
        }
    }
    proof {
        assert(cs@.skip(i as int) =~= Seq::<char>::empty());
        assert(out@ + Seq::<char>::empty() =~= out@);
    }
    out
}

/// The leading spaces and tabs of a line.
fn leading_indent(line: &str) -> (r: String)
    ensures
        r@ == indent_prefix(line@),
{
    let cs = chars_of(line);
    let mut out = String::new();
    let mut i: usize = 0;
    proof {
        assert(cs@.skip(0) =~= cs@);
        assert(Seq::<char>::empty() + indent_prefix(cs@) =~= indent_prefix(cs@));
    }
    while i < cs.len() && (cs[i] == ' ' || cs[i] == '\t')
        invariant
            cs@ == line@,
            i <= cs@.len(),
            out@ + indent_prefix(cs@.skip(i as int)) == indent_prefix(cs@),
        decreases cs@.len() - i,
    {
        proof {
            let rest = cs@.skip(i as int);
            assert(rest[0] == cs@[i as int]);
            assert(rest.drop_first() =~= cs@.skip(i + 1));
            assert(out@.push(cs@[i as int]) + indent_prefix(cs@.skip(i + 1)) =~= out@
                + indent_prefix(rest));
        }
        push_char(&mut out, cs[i]);
        i = i + 1;
    }
    proof {
        let rest = cs@.skip(i as int);
        if i < cs@.len() {
            assert(rest[0] == cs@[i as int]);
        }
        assert(indent_prefix(rest) =~= Seq::<char>::empty());
        assert(out@ + Seq::<char>::empty() =~= out@);
    }
    out
}

/// The editor.
#[derive(Debug)]
pub struct App {
    buffer: Buffer,
    view: Viewport,
    search: SearchState,
    picker: Picker,
    config: Config,
    lsp: Option<LspClient>,
    diagnostics: DiagnosticStore,
    clipboard_available: bool,
    indent: IndentStyle,
    cwd: String,
    mode: Mode,
    running: bool,
    status: String,
    quit_armed: bool,
    effects: Vec<Effect>,
}

impl View for App {
    type V = AppView;

    closed spec fn view(&self) -> AppView {
        AppView {
            buffer: self.buffer@,
            viewport: self.view@,
            search: self.search@,
            picker: self.picker@,
            config: self.config@,
            lsp: match self.lsp {
                Some(c) => Some(c@),
                None => None,
            },
            diagnostics: self.diagnostics@,
            clipboard_available: self.clipboard_available,
            indent: self.indent,
            cwd: self.cwd@,
            mode: mode_view(self.mode),
            running: self.running,
            status: self.status@,
            quit_armed: self.quit_armed,
            effects: effect_views(self.effects@),
        }
    }
}

impl App {
    /// The editor's invariant: its parts keep theirs.
    pub closed spec fn wf(&self) -> bool {
        &&& self.buffer.wf()
        &&& self.search.wf()
        &&& self.picker.wf()
    }

    fn emit(&mut self, e: Effect)
        ensures
            final(self)@ == old(self)@.emit(effect_view(e)),
            final(self).wf() == old(self).wf(),
    {
        let ghost before = self.effects@;
        self.effects.push(e);
        proof {
            assert(effect_views(self.effects@) =~= effect_views(before).push(effect_view(e)));
        }
    }

    fn after_edit(&mut self) -> (ok: bool)
        requires
            old(self).wf(),
        ensures
            final(self).wf(),
            (final(self)@, ok) == old(self)@.after_edit(),
    {
        let ok = self.search.recompute(&self.buffer);
        match self.lsp.take() {
            Some(mut c) => {
                c.notify_did_change(&self.buffer);
                self.lsp = Some(c);
            },
            None => {},
        }
        ok
    }

    fn save(&mut self)
        requires
            old(self).wf(),
        ensures
            final(self).wf(),
            final(self)@ == old(self)@.save_requested(),
    {
        match self.buffer.path() {
            Some(p) => {
                let path = p.to_owned();
                let text = self.buffer.text();
                self.emit(Effect::Save { path, text });
            },
            None => {
                self.status = "Save failed: no file path; use Ctrl+P and Ctrl+Enter to create one".to_owned();
            },
        }
    }

    fn quit(&mut self)
        ensures
            final(self)@ == old(self)@.quitted(),
            final(self).wf() == old(self).wf(),
    {
        if self.buffer.is_modified() && !self.quit_armed {
            self.quit_armed = true;
            self.status = "Unsaved changes; press Ctrl+Q again to quit without saving".to_owned();
            return;
        }
        self.running = false;
    }

    fn set_clipboard_text(&mut self, text: String, report: bool)
        ensures
            final(self)@ == old(self)@.clipboard_set(text@, report),
            final(self).wf() == old(self).wf(),
    {
        if self.clipboard_available {
            self.emit(Effect::WriteClipboard { text, report });
        } else {
            self.status = "System clipboard unavailable".to_owned();
        }
    }

    fn cut(&mut self) -> (ok: bool)
        requires
            old(self).wf(),
        ensures
            final(self).wf(),
            (final(self)@, ok) == old(self)@.cut(),
    {
        match self.buffer.cut_selection() {
            Some(text) => {
                self.set_clipboard_text(text, true);
                self.after_edit()
            },
            None => true,
        }
    }

    fn copy(&mut self)
        requires
            old(self).wf(),
        ensures
            final(self).wf(),
            final(self)@ == old(self)@.copied(),
    {
        match self.buffer.selected_text() {
            Some(text) => {
                self.set_clipboard_text(text, false);
                self.status = "Copied".to_owned();
            },
            None => {},
        }
    }

    fn insert_text(&mut self, text: &str) -> (ok: bool)
        requires
            old(self).wf(),
        ensures
            final(self).wf(),
            ok == old(self)@.inserted(text@).1,
            ok ==> final(self)@ == old(self)@.inserted(text@).0,
    {
        let n = utf8_len_of(text);
        proof {
            lemma_utf8_len_at_least(text@);
        }
        if n == 0 {
            return self.after_edit();
        }
        if !self.buffer.fits_extra(n) {
            return false;
        }
        self.buffer.insert_str(text);
        self.after_edit()
    }

    fn paste(&mut self, clip: Option<String>) -> (ok: bool)
        requires
            old(self).wf(),
        ensures
            final(self).wf(),
            ok == old(self)@.pasted(
                match clip {
                    Some(t) => Some(t@),
                    None => None,
                },
            ).1,
            ok ==> final(self)@ == old(self)@.pasted(
                match clip {
                    Some(t) => Some(t@),
                    None => None,
                },
            ).0,
    {
        match clip {
            Some(text) => {
                let normalized = normalize_newlines(text.as_str());
                self.insert_text(normalized.as_str())
            },
            None => true,
        }
    }

    fn insert_indent(&mut self) -> (ok: bool)
        requires
            old(self).wf(),
        ensures
            final(self).wf(),
            ok == old(self)@.inserted(indent_text(old(self)@.indent)).1,
            ok ==> final(self)@ == old(self)@.inserted(indent_text(old(self)@.indent)).0,
    {
        let mut indent = String::new();
        if self.indent.use_tabs {
            push_char(&mut indent, '\t');
            proof {
                assert(indent@ =~= seq!['\t']);
            }
        } else {
            let mut k: usize = 0;
            while k < self.indent.width
                invariant
                    k <= self.indent.width,
                    indent@ == Seq::new(k as nat, |i: int| ' '),
                decreases self.indent.width - k,
            {
                push_char(&mut indent, ' ');
                proof {
                    assert(indent@ =~= Seq::new((k + 1) as nat, |i: int| ' '));
                }
                k = k + 1;
            }
        }
        self.insert_text(indent.as_str())
    }

    fn insert_newline_with_indent(&mut self) -> (ok: bool)
        requires
            old(self).wf(),
        ensures
            final(self).wf(),
            ok == old(self)@.inserted(old(self)@.newline_text()).1,
            ok ==> final(self)@ == old(self)@.inserted(old(self)@.newline_text()).0,
    {
        let (line, _) = self.buffer.line_col();
        let line_text = self.buffer.line_text(line);
        let lead = leading_indent(line_text.as_str());
        let mut inserted = String::new();
        push_char(&mut inserted, '\n');
        push_str(&mut inserted, lead.as_str());
        proof {
            assert(inserted@ =~= old(self)@.newline_text());
        }
        self.insert_text(inserted.as_str())
    }

    fn move_cursor(&mut self, kind: MoveKind, selecting: bool) -> (ok: bool)
        requires
            old(self).wf(),
        ensures
            final(self).wf(),
            ok == old(self)@.moved(kind, selecting).1,
            ok ==> final(self)@ == old(self)@.moved(kind, selecting).0,
    {
        let (line, col) = self.buffer.line_col();
        let cursor = self.buffer.cursor();
        let count = self.buffer.line_count();
        let last = count - 1;
        let target: usize = match kind {
            MoveKind::Char(Direction::Left) => {
                self.view.clear_preferred_col();
                match self.buffer.try_prev_char_boundary(cursor) {
                    Some(t) => t,
                    None => return false,
                }
            },
            MoveKind::Char(Direction::Right) => {
                self.view.clear_preferred_col();
                match self.buffer.try_next_char_boundary(cursor) {
                    Some(t) => t,
                    None => return false,
                }
            },
            MoveKind::Word(Direction::Left) => {
                self.view.clear_preferred_col();
                match self.buffer.try_prev_word_boundary(cursor) {
                    Some(t) => t,
                    None => return false,
                }
            },
            MoveKind::Word(Direction::Right) => {
                self.view.clear_preferred_col();
                match self.buffer.try_next_word_boundary(cursor) {
                    Some(t) => t,
                    None => return false,
                }
            },
            MoveKind::Char(Direction::Up) => {
                let preferred = self.view.take_preferred_col(&self.buffer);
                let l = if line > 0 {
                    line - 1
                } else {
                    0
                };
                self.buffer.offset_for_line_col(l, preferred)
            },
            MoveKind::Char(Direction::Down) => {
                let preferred = self.view.take_preferred_col(&self.buffer);
                let l = if line < last {
                    line + 1
                } else {
                    last
                };
                self.buffer.offset_for_line_col(l, preferred)
            },
            MoveKind::LineStart => {
                self.view.clear_preferred_col();
                self.buffer.line_start(line)
            },
            MoveKind::LineEnd => {
                self.view.clear_preferred_col();
                self.buffer.line_end(line)
            },
            MoveKind::PageUp => {
                let preferred = self.view.take_preferred_col(&self.buffer);
                let l = if line > 20 {
                    line - 20
                } else {
                    0
                };
                self.buffer.offset_for_line_col(l, preferred)
            },
            MoveKind::PageDown => {
                let preferred = self.view.take_preferred_col(&self.buffer);
                let l = if last - line > 20 {
                    line + 20
                } else {
                    last
                };
                self.buffer.offset_for_line_col(l, preferred)
            },
            MoveKind::Word(_) => cursor,
        };
        self.buffer.set_cursor(target, selecting);
        match kind {
            MoveKind::Char(Direction::Up) | MoveKind::Char(Direction::Down) | MoveKind::PageUp
            | MoveKind::PageDown => {},
            _ => self.view.clear_preferred_col(),
        }
        true
    }

    fn offset_for_mouse(&self, column: u16, row: u16) -> (r: usize)
        requires
            self.wf(),
        ensures
            r == self@.mouse_offset(column, row),
    {
        let gutter = gutter_width(&self.buffer) as usize;
        let text_row: usize = if row > 0 {
            (row - 1) as usize
        } else {
            0
        };
        let count = self.buffer.line_count();
        let last = count - 1;
        let top = self.view.first_line();
        let line = if top >= last || text_row >= last - top {
            last
        } else {
            top + text_row
        };
        let c0: usize = if (column as usize) > gutter {
            column as usize - gutter
        } else {
            0
        };
        let left = self.view.first_col();
        let col = if c0 <= usize::MAX - left {
            c0 + left
        } else {
            usize::MAX
        };
        let _start = self.buffer.line_start(line);
        let _end = self.buffer.line_end(line);
        self.buffer.offset_for_line_col(line, col)
    }

    fn scroll_view(&mut self, delta: isize, height: Option<u16>)
        requires
            old(self).wf(),
        ensures
            final(self).wf(),
            final(self)@ == old(self)@.scrolled(delta as int, height),
    {
        let visible0: usize = match height {
            Some(h) => if h > 2 {
                (h - 2) as usize
            } else {
                0
            },
            None => 22,
        };
        let visible: usize = if visible0 > 1 {
            visible0
        } else {
            1
        };
        let count = self.buffer.line_count();
        let max_top = count - 1;
        let top0 = self.view.first_line();
        let t: i128 = top0 as i128 + delta as i128;
        let top: usize = if delta < 0 {
            if t < 0 {
                0
            } else {
                t as usize
            }
        } else {
            if t > max_top as i128 {
                max_top
            } else {
                t as usize
            }
        };
        self.view.set_first_line(top);
        let (line, col) = self.buffer.line_col();
        if line < top {
            let target = self.buffer.offset_for_line_col(top, col);
            self.buffer.set_cursor(target, false);
        } else if line - top >= visible {
            let b: u128 = top as u128 + visible as u128 - 1;
            let bottom: usize = if b > max_top as u128 {
                max_top
            } else {
                b as usize
            };
            let target = self.buffer.offset_for_line_col(bottom, col);
            self.buffer.set_cursor(target, false);
        }
    }

    fn handle_mouse(&mut self, mouse: MouseEvent, height: Option<u16>)
        requires
            old(self).wf(),
        ensures
            final(self).wf(),
            final(self)@ == old(self)@.mouse(mouse, height),
    {
        let left_down = match mouse.kind {
            MouseEventKind::Down(MouseButton::Left) => true,
            _ => false,
        };
        if left_down {
            if let Some(menu) = menu_at_column(mouse.column, mouse.row) {
                self.mode = Mode::Menu { menu, selected: 0 };
                return;
            }
        }
        match mouse.kind {
            MouseEventKind::ScrollUp => self.scroll_view(-3, height),
            MouseEventKind::ScrollDown => self.scroll_view(3, height),
            MouseEventKind::Down(MouseButton::Left) => {
                let offset = self.offset_for_mouse(mouse.column, mouse.row);
                self.buffer.set_cursor(offset, false);
            },
            MouseEventKind::Drag(MouseButton::Left) => {
                let offset = self.offset_for_mouse(mouse.column, mouse.row);
                self.buffer.set_cursor(offset, true);
            },
            _ => {},
        }
    }

    fn start_lsp(&mut self)
        requires
            old(self).wf(),
        ensures
            final(self).wf(),
            final(self)@ == old(self)@.lsp_restarted(),
    {
        self.lsp = None;
        match self.buffer.path() {
            None => {
                self.status = "No file path; LSP off".to_owned();
                self.emit(Effect::RestartLsp(None));
            },
            Some(p) => {
                let config = self.config.lsp_for_path(p);
                self.emit(Effect::RestartLsp(config));
            },
        }
    }

    fn open_code_actions(&mut self) -> (ok: bool)
        requires
            old(self).wf(),
        ensures
            final(self).wf(),
            ok == old(self)@.code_actions_opened().1,
            ok ==> final(self)@ == old(self)@.code_actions_opened().0,
    {
        let (line, col) = self.buffer.line_col();
        let diagnostics = self.diagnostics.at_position(line, col);
        let message = if diagnostics.len() > 0 {
            diagnostics[0].message.clone()
        } else {
            "No diagnostic at cursor; requesting contextual actions".to_owned()
        };
        let loading = self.lsp.is_some();
        let items: Vec<CodeActionItem> = Vec::new();
        proof {
            assert(items@.map_values(|a: CodeActionItem| item_view(a)) =~= Seq::<
                (Seq<char>, Option<JsonData>, Option<JsonData>),
            >::empty());
        }
        self.mode = Mode::CodeActions { message, items, selected: 0, loading };
        match self.lsp.take() {
            Some(mut c) => {
                if c.is_ready() && !c.has_ids_left() {
                    self.lsp = Some(c);
                    return false;
                }
                c.request_code_actions(&self.buffer, diagnostics);
                self.lsp = Some(c);
                true
            },
            None => true,
        }
    }

    fn move_menu_selection(&mut self, delta: isize)
        ensures
            final(self)@ == old(self)@.menu_moved(delta as int),
            final(self).wf() == old(self).wf(),
    {
        match self.mode {
            Mode::Menu { menu, selected } => {
                let len = menu.items().len();
                proof {
                    lemma_menu_item_lengths(menu);
                }
                let t: i128 = selected as i128 + delta as i128;
                let hi: i128 = len as i128 - 1;
                let s: usize = if t < 0 {
                    0
                } else if t > hi {
                    (len - 1) as usize
                } else {
                    t as usize
                };
                self.mode = Mode::Menu { menu, selected: s };
            },
            _ => {},
        }
    }

    fn move_code_action_selection(&mut self, delta: isize)
        ensures
            final(self)@ == old(self)@.code_action_moved(delta as int),
            final(self).wf() == old(self).wf(),
    {
        let mut mode = Mode::Normal;
        std::mem::swap(&mut mode, &mut self.mode);
        match mode {
            Mode::CodeActions { message, items, selected, loading } => {
                let s: usize = if items.len() == 0 {
                    0
                } else {
                    let t: i128 = selected as i128 + delta as i128;
                    let hi: i128 = items.len() as i128 - 1;
                    if t < 0 {
                        0
                    } else if t > hi {
                        items.len() - 1
                    } else {
                        t as usize
                    }
                };
                self.mode = Mode::CodeActions { message, items, selected: s, loading };
            },
            other => {
                self.mode = other;
            },
        }
    }

    fn open_search(&mut self) -> (ok: bool)
        requires
            old(self).wf(),
        ensures
            final(self).wf(),
            ok == old(self)@.search.search_completes(old(self)@.buffer.text()),
            final(self)@ == (AppView {
                search: (SearchView { active: true, ..old(self)@.search }).recomputed(
                    old(self)@.buffer.text(),
                    old(self)@.buffer.cursor as int,
                ),
                mode: ModeView::Search,
                ..old(self)@
            }),
    {
        let ok = self.search.open(&self.buffer);
        self.mode = Mode::Search;
        ok
    }

    fn find_next(&mut self, forward: bool) -> (ok: bool)
        requires
            old(self).wf(),
        ensures
            final(self).wf(),
            ok == old(self)@.search.search_completes(old(self)@.buffer.text()),
            ({
                let b = old(self)@.buffer;
                let s = old(self)@.search.recomputed(b.text(), b.cursor as int);
                let (s2, b2) = if forward {
                    search_next(s, b)
                } else {
                    search_previous(s, b)
                };
                final(self)@ == AppView { search: s2, buffer: b2, ..old(self)@ }
            }),
    {
        let ok = self.search.recompute(&self.buffer);
        if forward {
            self.search.next(&mut self.buffer);
        } else {
            self.search.previous(&mut self.buffer);
        }
        ok
    }

    fn activate_selected_menu_item(&mut self) -> (ok: bool)
        requires
            old(self).wf(),
        ensures
            final(self).wf(),
            ok == old(self)@.menu_activated().1,
            ok ==> final(self)@ == old(self)@.menu_activated().0,
    {
        let (menu, selected) = match self.mode {
            Mode::Menu { menu, selected } => (menu, selected),
            _ => return true,
        };
        self.mode = Mode::Normal;
        match menu {
            MenuKind::File => {
                if selected == 0 {
                    self.save();
                } else if selected == 1 {
                    self.emit(Effect::OpenPicker);
                } else if selected == 2 {
                    self.quit();
                }
                true
            },
            MenuKind::Search => {
                if selected == 0 {
                    self.open_search()
                } else if selected == 1 {
                    self.find_next(true)
                } else if selected == 2 {
                    self.find_next(false)
                } else {
                    true
                }
            },
            MenuKind::Navigate => {
                if selected == 0 {
                    self.buffer.set_cursor(0, false);
                } else if selected == 1 {
                    let len = self.buffer.len();
                    self.buffer.set_cursor(len, false);
                }
                true
            },
            MenuKind::Lsp => {
                if selected == 0 {
                    self.open_code_actions()
                } else {
                    if selected == 1 {
                        self.start_lsp();
                    }
                    true
                }
            },
            MenuKind::Help => {
                if selected == 0 {
                    self.status = "Keys: Ctrl+S save · Ctrl+P picker · Ctrl+F find · Ctrl+. code actions · Ctrl+Q quit".to_owned();
                }
                true
            },
        }
    }

    fn handle_menu_mouse(&mut self, mouse: MouseEvent) -> (ok: bool)
        requires
            old(self).wf(),
        ensures
            final(self).wf(),
            ok == old(self)@.menu_mouse(mouse).1,
            ok ==> final(self)@ == old(self)@.menu_mouse(mouse).0,
    {
        match mouse.kind {
            MouseEventKind::Down(MouseButton::Left) => {},
            _ => return true,
        }
        if let Some(menu) = menu_at_column(mouse.column, mouse.row) {
            self.mode = Mode::Menu { menu, selected: 0 };
            return true;
        }
        let menu = match self.mode {
            Mode::Menu { menu, .. } => menu,
            _ => return true,
        };
        let row = mouse.row as usize;
        let column = mouse.column;
        proof {
            lemma_menu_item_lengths(menu);
        }
        let width = menu.width() as u16;
        let x = menu.x();
        let in_menu_x = x <= column && column < x.saturating_add(width);
        let count = menu.items().len();
        if in_menu_x && row >= 2 && row < 2 + count {
            self.mode = Mode::Menu { menu, selected: row - 2 };
            self.activate_selected_menu_item()
        } else {
            self.mode = Mode::Normal;
            true
        }
    }

    /// The URI of the open file (see `AppView::document_uri`).
    fn document_uri(&self) -> (r: String)
        requires
            self.wf(),
        ensures
            r@ == self@.document_uri(),
    {
        match &self.lsp {
            Some(c) => c.uri().to_owned(),
            None => match self.buffer.path() {
                Some(p) => file_uri(p),
                None => String::new(),
            },
        }
    }

    fn apply_selected_code_action(&mut self) -> (ok: bool)
        requires
            old(self).wf(),
        ensures
            final(self).wf(),
            old(self)@.code_action_applied(final(self)@, ok),
    {
        let applicable = match &self.mode {
            Mode::CodeActions { items, selected, loading, .. } => !*loading && *selected < items.len(),
            _ => false,
        };
        if !applicable {
            return true;
        }
        let ghost v0 = self@;
        let mut mode = Mode::Normal;
        std::mem::swap(&mut mode, &mut self.mode);
        let (mut items, selected) = match mode {
            Mode::CodeActions { items, selected, .. } => (items, selected),
            _ => {
                return true;
            },
        };
        let ghost iv = items@.map_values(|a: CodeActionItem| item_view(a));
        let action = items.swap_remove(selected);
        proof {
            assert(item_view(action) == iv[selected as int]);
        }
        let ghost s0 = self@;
        proof {
            assert(s0 == v0.in_mode(ModeView::Normal));
        }
        match &action.edit {
            Some(edit) => {
                let ghost b0 = self.buffer@;
                let uri = self.document_uri();
                let count = apply_workspace_edit(&mut self.buffer, uri.as_str(), edit);
                let ghost nb = self.buffer@;
                proof {
                    assert(edited_by(v0.buffer, v0.document_uri(), edit.data(), nb));
                    assert(self@ == s0.with_buffer(nb));
                }
                let ok1 = self.after_edit();
                let mut status = "Applied ".to_owned();
                let digits = decimal_string(count);
                push_str(&mut status, digits.as_str());
                push_str(&mut status, " edit(s)");
                self.status = status;
                if !ok1 {
                    return false;
                }
            },
            None => {},
        }
        match &action.command {
            Some(command) => match self.lsp.take() {
                Some(mut c) => {
                    if crate::lsp::names_command(command) && !c.has_ids_left() {
                        self.lsp = Some(c);
                        return false;
                    }
                    c.execute_command(command);
                    self.lsp = Some(c);
                },
                None => {},
            },
            None => {},
        }
        true
    }

    fn open_path(&mut self, path: String)
        ensures
            final(self)@ == old(self)@.open_path_requested(path@),
            final(self).wf() == old(self).wf(),
    {
        if self.buffer.is_modified() {
            self.status = "Save or quit current file before opening another".to_owned();
            return;
        }
        self.emit(Effect::Open { path });
    }

    fn create_path(&mut self, path: String)
        ensures
            final(self)@ == old(self)@.create_path_requested(path@),
            final(self).wf() == old(self).wf(),
    {
        if self.buffer.is_modified() {
            self.status = "Save or quit current file before creating another".to_owned();
            return;
        }
        self.emit(Effect::Create { path });
    }

    fn handle_normal_action(&mut self, action: Action, clip: Option<String>, height: Option<u16>) -> (ok: bool)
        requires
            old(self).wf(),
        ensures
            final(self).wf(),
            ({
                let (t, k) = old(self)@.normal_step(action, opt_view(clip), height);
                ok == k && (ok ==> final(self)@ == t)
            }),
    {
        match action {
            Action::Save => {
                self.save();
                true
            },
            Action::Quit => {
                self.quit();
                true
            },
            Action::Find => self.open_search(),
            Action::FindNext => self.find_next(true),
            Action::FindPrevious => self.find_next(false),
            Action::Picker => {
                self.emit(Effect::OpenPicker);
                true
            },
            Action::ShowCodeActions => self.open_code_actions(),
            Action::Undo => {
                if !self.buffer.undo_room() {
                    return false;
                }
                self.buffer.undo();
                self.after_edit()
            },
            Action::Redo => {
                if !self.buffer.redo_room() {
                    return false;
                }
                self.buffer.redo();
                self.after_edit()
            },
            Action::Cut => self.cut(),
            Action::Copy => {
                self.copy();
                true
            },
            Action::Paste => self.paste(clip),
            Action::SelectAll => {
                self.buffer.select_all();
                true
            },
            Action::Move { kind, selecting } => self.move_cursor(kind, selecting),
            Action::Insert(ch) => {
                let mut text = String::new();
                push_char(&mut text, ch);
                proof {
                    assert(text@ =~= seq![ch]);
                }
                self.insert_text(text.as_str())
            },
            Action::Tab => self.insert_indent(),
            Action::Enter => self.insert_newline_with_indent(),
            Action::Backspace => {
                if !self.buffer.try_delete_backward() {
                    return false;
                }
                self.after_edit()
            },
            Action::Delete => {
                if !self.buffer.try_delete_forward() {
                    return false;
                }
                self.after_edit()
            },
            Action::Mouse(mouse) => {
                self.handle_mouse(mouse, height);
                true
            },
            _ => true,
        }
    }

    fn type_into_search(&mut self, text: &str) -> (ok: bool)
        requires
            old(self).wf(),
        ensures
            final(self).wf(),
            ({
                let (s, k) = search_typed(old(self)@.search, without_newlines(text@), old(self)@.buffer);
                &&& ok == k
                &&& ok ==> final(self)@ == AppView {
                    search: s,
                    buffer: search_jump(s, old(self)@.buffer),
                    ..old(self)@
                }
            }),
    {
        let ghost v0 = self@;
        let cs = chars_of(text);
        let mut i: usize = 0;
        proof {
            assert(cs@.take(0) =~= Seq::<char>::empty());
        }
        while i < cs.len()
            invariant
                self.wf(),
                v0 == old(self)@,
                cs@ == text@,
                i <= cs@.len(),
                search_typed(v0.search, without_newlines(cs@.take(i as int)), v0.buffer).1,
                self@ == (AppView {
                    search: search_typed(v0.search, without_newlines(cs@.take(i as int)), v0.buffer).0,
                    ..v0
                }),
            decreases cs@.len() - i,
        {
            let c = cs[i];
            proof {
                assert(cs@.take(i + 1).drop_last() =~= cs@.take(i as int));
                assert(cs@.take(i + 1).last() == c);
            }
            if c != '\n' && c != '\r' {
                let ghost w = without_newlines(cs@.take(i as int));
                proof {
                    assert(w.push(c).drop_last() =~= w);
                    assert(without_newlines(cs@.take(i + 1)) == w.push(c));
                }
                let ghost before = self.search@;
                proof {
                    assert(before == search_typed(v0.search, w, v0.buffer).0);
                    assert(self.buffer@ == v0.buffer);
                }
                if !self.search.push(c, &self.buffer) {
                    proof {
                        assert(!(SearchView { query: before.query.push(c), ..before }).search_completes(
                            v0.buffer.text(),
                        ));
                        assert(!search_typed(v0.search, w.push(c), v0.buffer).1);
                        lemma_typing_fails_on(v0.search, cs@, i + 1, v0.buffer);
                    }
                    return false;
                }
            }
            i = i + 1;
        }
        proof {
            assert(cs@.take(cs@.len() as int) =~= cs@);
        }
        self.search.jump_to_current(&mut self.buffer);
        true
    }

    fn handle_search_action(&mut self, action: Action, clip: Option<String>, height: Option<u16>) -> (ok: bool)
        requires
            old(self).wf(),
        ensures
            final(self).wf(),
            ({
                let (t, k) = old(self)@.search_step(action, opt_view(clip), height);
                ok == k && (ok ==> final(self)@ == t)
            }),
    {
        match action {
            Action::Escape | Action::Enter => {
                self.search.close();
                self.mode = Mode::Normal;
                proof {
                    assert(self@ == old(self)@.search_step(action, opt_view(clip), height).0);
                }
                true
            },
            Action::FindNext => {
                self.search.next(&mut self.buffer);
                true
            },
            Action::FindPrevious => {
                self.search.previous(&mut self.buffer);
                true
            },
            Action::Backspace => self.search.pop(&self.buffer),
            Action::Insert(ch) => {
                proof {
                    assert(seq![ch].drop_last() =~= Seq::<char>::empty());
                    assert(search_typed(old(self)@.search, Seq::<char>::empty(), old(self)@.buffer) == (
                    old(self)@.search, true));
                }
                if !self.search.push(ch, &self.buffer) {
                    return false;
                }
                self.search.jump_to_current(&mut self.buffer);
                true
            },
            Action::Paste => match clip {
                Some(text) => self.type_into_search(text.as_str()),
                None => true,
            },
            Action::Mouse(mouse) => {
                self.handle_mouse(mouse, height);
                true
            },
            _ => self.handle_normal_action(action, clip, height),
        }
    }

    fn type_into_picker(&mut self, text: &str)
        requires
            old(self).wf(),
        ensures
            final(self).wf(),
            final(self)@ == (AppView { picker: final(self)@.picker, ..old(self)@ }),
            final(self)@.picker.query == old(self)@.picker.query + without_newlines(text@),
            final(self)@.picker.files == old(self)@.picker.files,
            final(self)@.picker.active == old(self)@.picker.active,
            final(self)@.picker.cwd == old(self)@.picker.cwd,
            is_ranking(
                final(self)@.picker.filtered,
                final(self)@.picker.files,
                trimmed(final(self)@.picker.query),
            ),
            picker_typed(old(self)@.picker, text@, final(self)@.picker),
    {
        let ghost v0 = self@;
        let cs = chars_of(text);
        let ghost mut steps: Seq<PickerView> = seq![self@.picker];
        let mut i: usize = 0;
        proof {
            assert(cs@.take(0) =~= Seq::<char>::empty());
            assert(v0.picker.query + Seq::<char>::empty() =~= v0.picker.query);
        }
        while i < cs.len()
            invariant
                self.wf(),
                v0 == old(self)@,
                cs@ == text@,
                i <= cs@.len(),
                self@ == (AppView { picker: self@.picker, ..v0 }),
                self@.picker.query == v0.picker.query + without_newlines(cs@.take(i as int)),
                self@.picker.files == v0.picker.files,
                self@.picker.active == v0.picker.active,
                self@.picker.cwd == v0.picker.cwd,
                steps.len() == i + 1,
                steps[0] == v0.picker,
                steps.last() == self@.picker,
                forall|k: int|
                    0 <= k < i ==> picker_typed_char(#[trigger] steps[k], cs@[k], steps[k + 1]),
            decreases cs@.len() - i,
        {
            let c = cs[i];
            let ghost w = without_newlines(cs@.take(i as int));
            let ghost before = self@.picker;
            proof {
                assert(cs@.take(i + 1).drop_last() =~= cs@.take(i as int));
                assert(cs@.take(i + 1).last() == c);
            }
            if c != '\n' && c != '\r' {
                self.picker.push(c);
                proof {
                    assert(without_newlines(cs@.take(i + 1)) == w.push(c));
                    assert(v0.picker.query + w.push(c) =~= (v0.picker.query + w).push(c));
                }
            } else {
                proof {
                    assert(without_newlines(cs@.take(i + 1)) == w);
                }
            }
            proof {
                assert(picker_typed_char(before, c, self@.picker));
                steps = steps.push(self@.picker);
            }
            i = i + 1;
        }
        proof {
            assert(cs@.take(cs@.len() as int) =~= cs@);
            self.picker.lemma_wf_ranking();
            assert(picker_typed(v0.picker, text@, self@.picker));
        }
    }

    fn handle_picker_action(&mut self, action: Action, clip: Option<String>) -> (ok: bool)
        requires
            old(self).wf(),
        ensures
            final(self).wf(),
            old(self)@.picker_step(action, opt_view(clip), final(self)@, ok),
    {
        match action {
            Action::Escape => {
                self.picker.close();
                self.mode = Mode::Normal;
            },
            Action::Backspace => self.picker.pop(),
            Action::Insert(ch) => self.picker.push(ch),
            Action::Move { kind: MoveKind::Char(Direction::Up), .. } => self.picker.move_selection(-1),
            Action::Move { kind: MoveKind::Char(Direction::Down), .. } => self.picker.move_selection(1),
            Action::Move { kind: MoveKind::PageUp, .. } => self.picker.page(-1),
            Action::Move { kind: MoveKind::PageDown, .. } => self.picker.page(1),
            Action::Enter => {
                if let Some(path) = self.picker.selected_path() {
                    self.open_path(path);
                    self.picker.close();
                    self.mode = Mode::Normal;
                }
            },
            Action::Create => {
                if let Some(path) = self.picker.create_path() {
                    self.create_path(path);
                    self.picker.close();
                    self.mode = Mode::Normal;
                }
            },
            Action::Paste => {
                if let Some(text) = clip {
                    self.type_into_picker(text.as_str());
                }
            },
            Action::Mouse(mouse) => match mouse.kind {
                MouseEventKind::ScrollUp => self.picker.move_selection(-3),
                MouseEventKind::ScrollDown => self.picker.move_selection(3),
                _ => {},
            },
            _ => {},
        }
        true
    }

    fn handle_menu_action(&mut self, action: Action) -> (ok: bool)
        requires
            old(self).wf(),
        ensures
            final(self).wf(),
            ok == old(self)@.menu_step(action).1,
            ok ==> final(self)@ == old(self)@.menu_step(action).0,
    {
        match action {
            Action::Escape => {
                self.mode = Mode::Normal;
                true
            },
            Action::Move { kind: MoveKind::Char(Direction::Up), .. } => {
                self.move_menu_selection(-1);
                true
            },
            Action::Move { kind: MoveKind::Char(Direction::Down), .. } => {
                self.move_menu_selection(1);
                true
            },
            Action::Enter => self.activate_selected_menu_item(),
            Action::Mouse(mouse) => self.handle_menu_mouse(mouse),
            _ => true,
        }
    }

    fn handle_code_action_overlay(&mut self, action: Action) -> (ok: bool)
        requires
            old(self).wf(),
        ensures
            final(self).wf(),
            old(self)@.code_actions_step(action, final(self)@, ok),
    {
        match action {
            Action::Escape => {
                self.mode = Mode::Normal;
                true
            },
            Action::Move { kind: MoveKind::Char(Direction::Up), .. } => {
                self.move_code_action_selection(-1);
                true
            },
            Action::Move { kind: MoveKind::Char(Direction::Down), .. } => {
                self.move_code_action_selection(1);
                true
            },
            Action::Enter => self.apply_selected_code_action(),
            Action::Mouse(mouse) => {
                match mouse.kind {
                    MouseEventKind::ScrollUp => self.move_code_action_selection(-3),
                    MouseEventKind::ScrollDown => self.move_code_action_selection(3),
                    _ => {},
                }
                true
            },
            _ => true,
        }
    }

    /// Carries out one action in the current mode.  `clipboard` is the
    /// system clipboard's text, read for a paste; `height` the terminal's
    /// rows, if known.  Returns false, leaving the editor in no particular
    /// state, where the action cannot be carried out without a fault: a move
    /// or deletion that starts inside a character, a search that would
    /// resume inside one, a buffer with no room left, or a session out of
    /// request ids.
    pub fn handle_action(&mut self, action: Action, clipboard: Option<String>, height: Option<u16>) -> (ok: bool)
        requires
            old(self).wf(),
        ensures
            final(self).wf(),
            old(self)@.step(action, opt_view(clipboard), height, final(self)@, ok),
    {
        match action {
            Action::Nothing | Action::Quit => {},
            _ => {
                self.quit_armed = false;
            },
        }
        let tag: u8 = match self.mode {
            Mode::Normal => 0,
            Mode::Search => 1,
            Mode::Picker => 2,
            Mode::Menu { .. } => 3,
            Mode::CodeActions { .. } => 4,
        };
        if tag == 1 {
            self.handle_search_action(action, clipboard, height)
        } else if tag == 2 {
            self.handle_picker_action(action, clipboard)
        } else if tag == 3 {
            self.handle_menu_action(action)
        } else if tag == 4 {
            self.handle_code_action_overlay(action)
        } else {
            self.handle_normal_action(action, clipboard, height)
        }
    }
}

impl AppView {
    /// After the file was written (or not).
    pub open spec fn save_reported(self, result: Result<(), Seq<char>>) -> AppView {
        match result {
            Ok(_) => {
                let b = BufferView { modified: false, ..self.buffer };
                AppView {
                    buffer: b,
                    status: "Saved"@,
                    lsp: match self.lsp {
                        Some(c) => Some(c.after_did_change(b)),
                        None => None,
                    },
                    ..self
                }
            },
            Err(e) => self.say("Save failed: "@ + e),
        }
    }

    /// Switching to a newly read or created buffer.
    pub open spec fn switched_to(self, b: BufferView, status: Seq<char>) -> AppView {
        AppView {
            buffer: b,
            indent: indent_style_of(buffer_lines(b)),
            viewport: ViewportView { top_line: 0, left_col: 0, preferred_col: None },
            diagnostics: Seq::empty(),
            status,
            ..self
        }
    }

    /// What the server's events do, in order.
    pub open spec fn after_events(self, es: Seq<EventView>) -> AppView
        decreases es.len(),
    {
        if es.len() == 0 {
            self
        } else {
            let s = self.after_events(es.drop_last());
            match es.last() {
                EventView::Diagnostics(ds) => AppView { diagnostics: ds, ..s },
                EventView::CodeActions(items) => match s.mode {
                    ModeView::CodeActions { message, selected, .. } => s.in_mode(
                        ModeView::CodeActions { message, items, selected, loading: false },
                    ),
                    _ => s,
                },
                EventView::Status(t) => s.say(t),
            }
        }
    }
}

/// True when a file's text fits in a buffer.
pub open spec fn text_fits(t: Seq<char>) -> bool {
    utf8_len(t) + utf8_len(t) / 8 + crate::buffer::INITIAL_GAP <= usize::MAX
}

/// Whether a file's text fits in a buffer.
pub fn fits_in_buffer(text: &str) -> (r: bool)
    ensures
        r == text_fits(text@),
{
    let n = utf8_len_of(text);
    n <= usize::MAX - crate::buffer::INITIAL_GAP && n / 8 <= usize::MAX - crate::buffer::INITIAL_GAP - n
}

impl App {
    /// The editor on `buffer`, in the project at `cwd` whose files (relative
    /// to it) are `files`, with a language server asked for.
    pub fn new(buffer: Buffer, cwd: String, files: Vec<String>, config: Config, clipboard_available: bool) -> (app: App)
        requires
            buffer.wf(),
        ensures
            app.wf(),
            app@ == (AppView {
                buffer: buffer@,
                viewport: ViewportView { top_line: 0, left_col: 0, preferred_col: None },
                search: SearchView { active: false, query: Seq::empty(), matches: Seq::empty(), current: 0 },
                picker: app@.picker,
                config: config@,
                lsp: None,
                diagnostics: Seq::empty(),
                clipboard_available,
                indent: indent_style_of(buffer_lines(buffer@)),
                cwd: cwd@,
                mode: ModeView::Normal,
                running: true,
                status: Seq::empty(),
                quit_armed: false,
                effects: Seq::empty(),
            }).lsp_restarted(),
            !app@.picker.active,
            app@.picker.query.len() == 0,
            app@.picker.cwd == cwd@,
            string_views(files@).to_multiset() == app@.picker.files.to_multiset(),
            app@.picker.files_sorted(),
            app@.picker.selected == 0,
    {
        let indent = detect_indent_style(&buffer);
        let picker = Picker::new(cwd.clone(), files);
        let effects: Vec<Effect> = Vec::new();
        let mut app = App {
            buffer,
            view: Viewport::new(),
            search: SearchState::default(),
            picker,
            config,
            lsp: None,
            diagnostics: DiagnosticStore::default(),
            clipboard_available,
            indent,
            cwd,
            mode: Mode::Normal,
            running: true,
            status: String::new(),
            quit_armed: false,
            effects,
        };
        proof {
            assert(effect_views(app.effects@) =~= Seq::<EffectView>::empty());
            assert(app@.search.query =~= Seq::<char>::empty());
            assert(app@.search.matches =~= Seq::<(int, int)>::empty());
            assert(app@.diagnostics =~= Seq::<DiagView>::empty());
            assert(app@.status =~= Seq::<char>::empty());
        }
        app.start_lsp();
        app
    }

    /// Opens the file picker; `fresh_files`, when the caller listed the
    /// project's files anew, replaces the list.
    pub fn open_picker(&mut self, fresh_files: Option<Vec<String>>)
        requires
            old(self).wf(),
        ensures
            final(self).wf(),
            final(self)@ == (AppView { picker: final(self)@.picker, mode: ModeView::Picker, ..old(self)@ }),
            final(self)@.picker.active,
            final(self)@.picker.query.len() == 0,
            final(self)@.picker.cwd == old(self)@.picker.cwd,
            final(self)@.picker.selected == 0,
            fresh_files is None ==> final(self)@.picker.files == old(self)@.picker.files,
            fresh_files matches Some(f) ==> string_views(f@).to_multiset()
                == final(self)@.picker.files.to_multiset() && final(self)@.picker.files_sorted(),
            is_ranking(final(self)@.picker.filtered, final(self)@.picker.files, Seq::empty()),
    {
        self.picker.open(fresh_files);
        self.mode = Mode::Picker;
    }

    /// Reports the outcome of writing the file.
    pub fn save_finished(&mut self, result: Result<(), String>)
        requires
            old(self).wf(),
        ensures
            final(self).wf(),
            final(self)@ == old(self)@.save_reported(
                match result {
                    Ok(_) => Ok(()),
                    Err(e) => Err(e@),
                },
            ),
    {
        match result {
            Ok(()) => {
                self.buffer.mark_saved();
                self.status = "Saved".to_owned();
                match self.lsp.take() {
                    Some(mut c) => {
                        c.notify_did_change(&self.buffer);
                        self.lsp = Some(c);
                    },
                    None => {},
                }
            },
            Err(e) => {
                let mut status = "Save failed: ".to_owned();
                push_str(&mut status, e.as_str());
                self.status = status;
            },
        }
    }

    /// Reports the outcome of reading a file to open: on success the editor
    /// switches to it, searches it and asks for its language server.  Returns
    /// false, as `handle_action` does, where searching it would resume inside
    /// a character.
    pub fn open_finished(&mut self, path: String, result: Result<String, String>) -> (ok: bool)
        requires
            old(self).wf(),
            result matches Ok(t) ==> text_fits(t@),
        ensures
            final(self).wf(),
            match result {
                Ok(t) => {
                    let s = old(self)@.switched_to(
                        fresh_buffer(vstd::utf8::encode_utf8(t@), Some(path@)),
                        "Opened "@ + path@,
                    );
                    let s2 = AppView {
                        search: s.search.recomputed(s.buffer.text(), 0),
                        ..s
                    };
                    &&& ok == s.search.search_completes(s.buffer.text())
                    &&& ok ==> final(self)@ == s2.lsp_restarted()
                },
                Err(e) => ok && final(self)@ == old(self)@.say("Open failed: "@ + e@),
            },
    {
        match result {
            Ok(text) => {
                let buffer = Buffer::open(path.clone(), text.as_str());
                proof {
                    assert(buffer@.undo =~= Seq::<crate::buffer::EditView>::empty());
                    assert(buffer@.redo =~= Seq::<crate::buffer::EditView>::empty());
                }
                self.indent = detect_indent_style(&buffer);
                self.buffer = buffer;
                self.view = Viewport::new();
                self.diagnostics = DiagnosticStore::default();
                proof {
                    assert(self.diagnostics@ =~= Seq::<DiagView>::empty());
                }
                let mut status = "Opened ".to_owned();
                push_str(&mut status, path.as_str());
                self.status = status;
                let ok = self.search.recompute(&self.buffer);
                if !ok {
                    return false;
                }
                self.start_lsp();
                true
            },
            Err(e) => {
                let mut status = "Open failed: ".to_owned();
                push_str(&mut status, e.as_str());
                self.status = status;
                true
            },
        }
    }

    /// Reports the outcome of creating a file: on success the editor switches
    /// to it, empty, and asks for its language server.
    pub fn create_finished(&mut self, path: String, result: Result<(), String>)
        requires
            old(self).wf(),
        ensures
            final(self).wf(),
            final(self)@ == match result {
                Ok(_) => old(self)@.switched_to(
                    fresh_buffer(Seq::empty(), Some(path@)),
                    "Created "@ + path@,
                ).lsp_restarted(),
                Err(e) => old(self)@.say("Create failed: "@ + e@),
            },
    {
        match result {
            Ok(()) => {
                let buffer = Buffer::empty(Some(path.clone()));
                proof {
                    assert(buffer@.undo =~= Seq::<crate::buffer::EditView>::empty());
                    assert(buffer@.redo =~= Seq::<crate::buffer::EditView>::empty());
                }
                self.indent = detect_indent_style(&buffer);
                self.buffer = buffer;
                self.view = Viewport::new();
                self.diagnostics = DiagnosticStore::default();
                proof {
                    assert(self.diagnostics@ =~= Seq::<DiagView>::empty());
                }
                let mut status = "Created ".to_owned();
                push_str(&mut status, path.as_str());
                self.status = status;
                self.start_lsp();
            },
            Err(e) => {
                let mut status = "Create failed: ".to_owned();
                push_str(&mut status, e.as_str());
                self.status = status;
            },
        }
    }

    /// Starts the session with a language server that was started for the
    /// document at `document_path` in the project at `root`.
    pub fn attach_lsp(&mut self, config: LspServerConfig, document_path: &str, root: &str, process_id: u32)
        requires
            old(self).wf(),
        ensures
            final(self).wf(),
            final(self)@ == (AppView {
                lsp: Some(
                    (ClientView {
                        config: config@,
                        uri: crate::lsp::file_uri_text(document_path@),
                        root_uri: crate::lsp::file_uri_text(root@),
                        next_id: 1,
                        pending: Map::empty(),
                        initialized: false,
                        opened: false,
                        outgoing: Seq::empty(),
                    }).requested(
                        "initialize"@,
                        crate::lsp::initialize_params(process_id, crate::lsp::file_uri_text(root@)),
                        crate::lsp::PendingRequest::Initialize,
                    ),
                ),
                ..old(self)@
            }),
    {
        self.lsp = Some(LspClient::spawn(config, document_path, root, process_id));
    }

    /// Reports that the language server could not be started.
    pub fn lsp_failed(&mut self, error: String)
        ensures
            final(self)@ == old(self)@.say("LSP unavailable: "@ + error@),
            final(self).wf() == old(self).wf(),
    {
        let mut status = "LSP unavailable: ".to_owned();
        push_str(&mut status, error.as_str());
        self.status = status;
    }

    /// Reports whether the clipboard took the text of a `WriteClipboard`
    /// effect with the given `report`.
    pub fn clipboard_written(&mut self, written: bool, report: bool)
        ensures
            final(self)@ == if written && report {
                old(self)@.say("Clipboard updated"@)
            } else {
                old(self)@
            },
            final(self).wf() == old(self).wf(),
    {
        if written && report {
            self.status = "Clipboard updated".to_owned();
        }
    }

    /// Takes the effects asked for, oldest first.
    pub fn take_effects(&mut self) -> (r: Vec<Effect>)
        ensures
            effect_views(r@) == old(self)@.effects,
            final(self)@ == (AppView { effects: Seq::empty(), ..old(self)@ }),
            final(self).wf() == old(self).wf(),
    {
        let mut r: Vec<Effect> = Vec::new();
        std::mem::swap(&mut r, &mut self.effects);
        proof {
            assert(effect_views(self.effects@) =~= Seq::<EffectView>::empty());
        }
        r
    }

    /// Takes the messages waiting to go to the language server.
    pub fn take_lsp_messages(&mut self) -> (r: Vec<JsonValue>)
        ensures
            match old(self)@.lsp {
                Some(c) => crate::json::data_seq(r@) == c.outgoing && final(self)@ == (AppView {
                    lsp: Some(ClientView { outgoing: Seq::empty(), ..c }),
                    ..old(self)@
                }),
                None => r@.len() == 0 && final(self)@ == old(self)@,
            },
            final(self).wf() == old(self).wf(),
    {
        match self.lsp.take() {
            Some(mut c) => {
                let r = c.take_outgoing();
                self.lsp = Some(c);
                r
            },
            None => Vec::new(),
        }
    }

    /// Hands the server's messages to the session and acts on what they
    /// say.  Returns whether anything happened.
    pub fn process_lsp(&mut self, messages: Vec<ServerMessage>) -> (r: bool)
        requires
            old(self).wf(),
        ensures
            final(self).wf(),
            match old(self)@.lsp {
                None => !r && final(self)@ == old(self)@,
                Some(c) => {
                    let (c2, es) = c.after_messages(
                        messages@.map_values(|m: ServerMessage| message_view(m)),
                        old(self)@.buffer,
                    );
                    &&& r == (es.len() > 0)
                    &&& final(self)@ == (AppView { lsp: Some(c2), ..old(self)@ }).after_events(es)
                },
            },
    {
        let mut c = match self.lsp.take() {
            Some(c) => c,
            None => return false,
        };
        let mut events = c.poll(messages, &self.buffer);
        self.lsp = Some(c);
        let n0 = events.len();
        let changed = n0 > 0;
        let ghost es = event_views(events@);
        let ghost s0 = self@;
        let mut k: usize = 0;
        proof {
            assert(es.take(0) =~= Seq::<EventView>::empty());
        }
        while events.len() > 0
            invariant
                self.wf(),
                k + events@.len() == es.len(),
                es.len() == n0,
                event_views(events@) == es.skip(k as int),
                self@ == s0.after_events(es.take(k as int)),
            decreases events@.len(),
        {
            let ghost ev0 = events@;
            let e = events.remove(0);
            proof {
                assert(events@ =~= ev0.subrange(1, ev0.len() as int));
                assert(es.skip(k as int)[0] == crate::lsp::event_view(e));
                assert forall|j: int| 0 <= j < events@.len() implies #[trigger] event_views(events@)[j]
                    == es.skip(k + 1)[j] by {
                    assert(events@[j] == ev0[j + 1]);
                    assert(event_views(ev0)[j + 1] == es.skip(k as int)[j + 1]);
                }
                assert(event_views(events@) =~= es.skip(k + 1));
                assert(es.take(k + 1).drop_last() =~= es.take(k as int));
                assert(es.take(k + 1).last() == crate::lsp::event_view(e));
            }
            match e {
                LspEvent::Diagnostics(ds) => {
                    self.diagnostics.set(ds);
                },
                LspEvent::CodeActions(items) => {
                    let mut mode = Mode::Normal;
                    std::mem::swap(&mut mode, &mut self.mode);
                    match mode {
                        Mode::CodeActions { message, selected, .. } => {
                            self.mode = Mode::CodeActions { message, items, selected, loading: false };
                        },
                        other => {
                            self.mode = other;
                        },
                    }
                },
                LspEvent::Status(status) => {
                    self.status = status;
                },
            }
            k = k + 1;
        }
        proof {
            assert(es.take(k as int) =~= es);
        }
        changed
    }

    /// Whether the editor is still running.
    pub fn is_running(&self) -> (r: bool)
        ensures
            r == self@.running,
    {
        self.running
    }
}

/// What the status line says of the language server.
pub open spec fn lsp_status_text(lsp: Option<ClientView>) -> Seq<char> {
    match lsp {
        Some(c) => "LSP:"@ + c.config.language_id,
        None => "LSP:off"@,
    }
}

/// What is open over the text in a mode.
pub open spec fn overlay_of(a: AppView) -> OverlayView {
    match a.mode {
        ModeView::Normal => OverlayView::Nothing,
        ModeView::Search => OverlayView::Search,
        ModeView::Picker => OverlayView::Picker(a.picker),
        ModeView::Menu { menu, selected } => OverlayView::Menu {
            title: menu_title(menu),
            items: menu_items(menu),
            x: menu_x(menu),
            selected,
        },
        ModeView::CodeActions { message, items, selected, loading } => OverlayView::CodeActions {
            message,
            items: items.map_values(|i: (Seq<char>, Option<JsonData>, Option<JsonData>)| i.0),
            selected,
            loading,
        },
    }
}

/// What the editor's frame is drawn from, with the theme's name and the
/// highlighted lines.
pub open spec fn render_view(a: AppView, theme: Seq<char>, highlighted: Seq<Seq<(Seq<char>, Option<crate::view::Color>)>>) -> RenderView {
    RenderView {
        buffer: a.buffer,
        search: a.search,
        theme_name: theme,
        diagnostics: a.diagnostics,
        overlay: overlay_of(a),
        status_message: a.status,
        lsp_status: lsp_status_text(a.lsp),
        highlighted,
    }
}

impl AppView {
    /// The editor once its viewport is scrolled to show the cursor on a
    /// terminal of `width` columns and `height` rows.
    pub open spec fn scrolled_for(self, width: u16, height: u16) -> AppView {
        AppView {
            viewport: ViewportView {
                top_line: scrolled_to(self.viewport.top_line, self.buffer.line_of_cursor(), max_int(height - 2, 0)),
                left_col: scrolled_to(
                    self.viewport.left_col,
                    self.buffer.col_of_cursor(),
                    max_int(max_int(width - (gutter_width_of(self.buffer.line_count()) + 1), 0), 1),
                ),
                preferred_col: self.viewport.preferred_col,
            },
            ..self
        }
    }
}

fn action_titles(items: &Vec<CodeActionItem>) -> (r: Vec<String>)
    ensures
        r@.map_values(|t: String| t@) == items@.map_values(|a: CodeActionItem| item_view(a)).map_values(
            |i: (Seq<char>, Option<JsonData>, Option<JsonData>)| i.0,
        ),
{
    let mut r: Vec<String> = Vec::new();
    let mut i: usize = 0;
    while i < items.len()
        invariant
            i <= items@.len(),
            r@.len() == i,
            forall|j: int| 0 <= j < i ==> (#[trigger] r@[j])@ == items@[j].title@,
        decreases items@.len() - i,
    {
        let t = items[i].title.clone();
        r.push(t);
        i = i + 1;
    }
    proof {
        assert(r@.map_values(|t: String| t@) =~= items@.map_values(|a: CodeActionItem| item_view(a)).map_values(
            |i: (Seq<char>, Option<JsonData>, Option<JsonData>)| i.0,
        ));
    }
    r
}

impl App {
    /// Draws a frame for a terminal of `width` columns and `height` rows,
    /// with the theme's name and the highlighted lines of the buffer, after
    /// scrolling the cursor into view. The flag is false where the frame
    /// cannot be drawn.
    pub fn render(&mut self, width: u16, height: u16, theme_name: &str, highlighted: &[Vec<StyledSegment>]) -> (r: (Vec<Draw>, bool))
        requires
            old(self).wf(),
        ensures
            final(self).wf(),
            final(self)@ == old(self)@.scrolled_for(width, height),
            match frame_draws(
                render_view(old(self)@, theme_name@, highlight_views(highlighted@)),
                final(self)@.viewport.top_line,
                final(self)@.viewport.left_col,
                width,
                height,
            ) {
                Some(d) => r.1 && draws(r.0@) == d,
                None => !r.1,
            },
    {
        let titles: Vec<String> = match &self.mode {
            Mode::CodeActions { items, .. } => action_titles(items),
            _ => Vec::new(),
        };
        let lsp_status = match &self.lsp {
            Some(c) => {
                let mut t = "LSP:".to_owned();
                push_str(&mut t, c.language_id());
                t
            },
            None => "LSP:off".to_owned(),
        };
        proof {
            reveal_strlit("LSP:");
            reveal_strlit("LSP:off");
        }
        let menu_items: Vec<&str> = match &self.mode {
            Mode::Menu { menu, .. } => menu.items(),
            _ => Vec::new(),
        };
        let overlay = match &self.mode {
            Mode::Normal => OverlayInfo::Nothing,
            Mode::Search => OverlayInfo::Search,
            Mode::Picker => OverlayInfo::Picker(&self.picker),
            Mode::Menu { menu, selected } => OverlayInfo::Menu {
                title: menu.title(),
                items: menu_items.as_slice(),
                x: menu.x(),
                selected: *selected,
            },
            Mode::CodeActions { message, selected, loading, .. } => OverlayInfo::CodeActions {
                message: message.as_str(),
                items: titles.as_slice(),
                selected: *selected,
                loading: *loading,
            },
        };
        let info = RenderInfo {
            buffer: &self.buffer,
            search: &self.search,
            theme_name,
            diagnostics: &self.diagnostics,
            overlay,
            status_message: self.status.as_str(),
            lsp_status: lsp_status.as_str(),
            highlighted,
        };
        proof {
            assert(info@ == render_view(self@, theme_name@, highlight_views(highlighted@)));
        }
        self.view.render(&info, width, height)
    }
}

/// Quitting is guarded: while editing or searching, the first Ctrl+Q on a
/// buffer with unsaved changes only arms the guard and the editor keeps
/// running; a second Ctrl+Q right after it stops the editor.
pub proof fn law_quit_twice(a: AppView, n1: AppView, ok1: bool, n2: AppView, ok2: bool)
    requires
        a.mode == ModeView::Normal || a.mode == ModeView::Search,
        a.running,
        a.step(Action::Quit, None, None, n1, ok1),
        n1.step(Action::Quit, None, None, n2, ok2),
    ensures
        ok1 && ok2,
        a.buffer.modified && !a.quit_armed ==> n1.running && n1.quit_armed,
        !n2.running,
{
}

#[verifier::rlimit(50)]
proof fn lemma_normal_step_disarmed(s: AppView, action: Action, clip: Option<Seq<char>>, height: Option<u16>)
    requires
        !s.quit_armed,
        action != Action::Quit,
    ensures
        !s.normal_step(action, clip, height).0.quit_armed,
{
}

#[verifier::rlimit(50)]
proof fn lemma_search_step_disarmed(s: AppView, action: Action, clip: Option<Seq<char>>, height: Option<u16>)
    requires
        !s.quit_armed,
        action != Action::Quit,
    ensures
        !s.search_step(action, clip, height).0.quit_armed,
{
    lemma_normal_step_disarmed(s, action, clip, height);
}

#[verifier::rlimit(50)]
proof fn lemma_picker_step_disarmed(s: AppView, action: Action, clip: Option<Seq<char>>, n: AppView)
    requires
        !s.quit_armed,
        s.picker_step(action, clip, n, true),
    ensures
        !n.quit_armed,
{
}

#[verifier::rlimit(50)]
proof fn lemma_code_actions_step_disarmed(s: AppView, action: Action, n: AppView)
    requires
        !s.quit_armed,
        s.code_actions_step(action, n, true),
    ensures
        !n.quit_armed,
{
}

/// Any action other than quitting disarms the quit guard: a Ctrl+Q after it
/// asks again before quitting with unsaved changes. (An open menu is left
/// out: choosing its Quit entry is quitting.)
pub proof fn law_other_action_disarms(a: AppView, action: Action, clip: Option<Seq<char>>, height: Option<u16>, n: AppView)
    requires
        action != Action::Quit,
        action != Action::Nothing,
        !(a.mode is Menu),
        a.step(action, clip, height, n, true),
    ensures
        !n.quit_armed,
{
    let s = AppView { quit_armed: false, ..a };
    match a.mode {
        ModeView::Normal => {
            lemma_normal_step_disarmed(s, action, clip, height);
        },
        ModeView::Search => {
            lemma_search_step_disarmed(s, action, clip, height);
        },
        ModeView::Picker => {
            lemma_picker_step_disarmed(s, action, clip, n);
        },
        ModeView::CodeActions { .. } => {
            lemma_code_actions_step_disarmed(s, action, n);
        },
        ModeView::Menu { .. } => {},
    }
}

/// Scrolling the cursor into view twice is scrolling it once: a frame
/// drawn right after `scroll_into_view` shows the lines it chose.
pub proof fn law_scroll_settles(a: AppView, width: u16, height: u16)
    requires
        a.viewport.top_line >= 0,
        a.viewport.left_col >= 0,
        a.buffer.line_of_cursor() >= 0,
        a.buffer.col_of_cursor() >= 0,
    ensures
        a.scrolled_for(width, height).scrolled_for(width, height) == a.scrolled_for(width, height),
{
    let rows = max_int(height - 2, 0);
    let cols = max_int(max_int(width - (gutter_width_of(a.buffer.line_count()) + 1), 0), 1);
    crate::view::law_scrolled_shows_line(a.viewport.left_col, a.buffer.col_of_cursor(), cols);
    if rows >= 1 {
        crate::view::law_scrolled_shows_line(a.viewport.top_line, a.buffer.line_of_cursor(), rows);
    }
}

impl App {
    /// Scrolls the viewport so that the cursor is on screen, for a terminal
    /// of `width` columns and `height` rows.
    pub fn scroll_into_view(&mut self, width: u16, height: u16)
        requires
            old(self).wf(),
        ensures
            final(self).wf(),
            final(self)@ == old(self)@.scrolled_for(width, height),
    {
        self.view.ensure_cursor_visible(&self.buffer, height, width);
    }

    /// The first buffer line on screen.
    pub fn first_visible_line(&self) -> (r: usize)
        ensures
            r == self@.viewport.top_line,
    {
        self.view.first_line()
    }

    /// The buffer being edited.
    pub fn buffer(&self) -> (r: &Buffer)
        ensures
            r@ == self@.buffer,
            self.wf() ==> r.wf(),
    {
        &self.buffer
    }
}

/// Up, Down, Page Up and Page Down remember the column: after such a move
/// the preferred column is the one remembered before it, or, if none was,
/// the column the cursor was in; the move always succeeds.  So two vertical
/// moves in a row aim at the column the cursor had before the first, however
/// short the line passed over.
pub proof fn law_vertical_moves_keep_column(s: AppView, kind: MoveKind, kind2: MoveKind, selecting: bool)
    requires
        kind == MoveKind::Char(Direction::Up) || kind == MoveKind::Char(Direction::Down) || kind
            == MoveKind::PageUp || kind == MoveKind::PageDown,
        kind2 == MoveKind::Char(Direction::Up) || kind2 == MoveKind::Char(Direction::Down) || kind2
            == MoveKind::PageUp || kind2 == MoveKind::PageDown,
    ensures
        s.moved(kind, selecting).1,
        s.moved(kind, selecting).0.viewport.preferred_col == Some(
            match s.viewport.preferred_col {
                Some(p) => p,
                None => s.buffer.col_of_cursor(),
            },
        ),
        s.moved(kind, selecting).0.moved(kind2, selecting).0.viewport.preferred_col == Some(
            match s.viewport.preferred_col {
                Some(p) => p,
                None => s.buffer.col_of_cursor(),
            },
        ),
{
}

/// Any other move (by character or word, to a line's start or end) forgets
/// the remembered column, when it succeeds.
pub proof fn law_other_moves_forget_column(s: AppView, kind: MoveKind, selecting: bool)
    requires
        !(kind == MoveKind::Char(Direction::Up) || kind == MoveKind::Char(Direction::Down) || kind
            == MoveKind::PageUp || kind == MoveKind::PageDown),
    ensures
        s.moved(kind, selecting).1 ==> s.moved(kind, selecting).0.viewport.preferred_col is None,
{
}

} // verus!
