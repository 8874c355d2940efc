//! The text buffer: a gap buffer of bytes with a line index, a selection and
//! undo/redo history.
//!
//! The buffer's contents are bytes.  Its text is what UTF-8 decoding makes of
//! them (`BufferView::text`); offsets into the text count bytes of the text's
//! own encoding.  The two agree whenever the contents are valid UTF-8.

use vstd::prelude::*;
use vstd::utf8::*;
use std::ops::Range;
use crate::text::{
    lemma_encode_subrange, lemma_char_index_in_range, lemma_encode_concat, lemma_char_index_unique,
    utf8_len_of, is_whitespace, is_word,
    chars_of, string_from_chars, find_char_index, char_offsets, lemma_offset_strict,
    lemma_offset_full,
    str_eq, string_from_utf8_lossy,
    utf8_len, offset_of, is_char_offset, char_index, spec_is_word, char_is_whitespace,
    lossy_decode,
};
use crate::paths::{path_extension, extension_of};

verus! {

/// Smallest number of free bytes the gap grows by.
pub const INITIAL_GAP: usize = 4096;

/// One recorded edit: at `pos`, `deleted` was replaced by `inserted`.
#[derive(Clone, Debug)]
pub struct AppliedEdit {
    pub pos: usize,
    pub deleted: String,
    pub inserted: String,
}

/// The mathematical form of a recorded edit.
pub struct EditView {
    pub pos: nat,
    pub deleted: Seq<char>,
    pub inserted: Seq<char>,
}

impl View for AppliedEdit {
    type V = EditView;

    open spec fn view(&self) -> EditView {
        EditView { pos: self.pos as nat, deleted: self.deleted@, inserted: self.inserted@ }
    }
}

/// The mathematical form of a buffer.
pub struct BufferView {
    /// The bytes of the document.
    pub content: Seq<u8>,
    /// The cursor, a byte offset into `content`.
    pub cursor: nat,
    /// The other end of the selection, if one is being made.
    pub anchor: Option<nat>,
    /// Edits that `undo` reverts, most recent last.
    pub undo: Seq<EditView>,
    /// Edits that `redo` re-applies, most recent last.
    pub redo: Seq<EditView>,
    pub path: Option<Seq<char>>,
    pub modified: bool,
    pub version: i32,
}

pub open spec fn min_int(a: int, b: int) -> int {
    if a <= b { a } else { b }
}

pub open spec fn max_int(a: int, b: int) -> int {
    if a >= b { a } else { b }
}

/// Offsets just after each newline, preceded by 0: where the lines of `t`
/// start.
pub open spec fn line_starts_of(t: Seq<u8>) -> Seq<int>
    decreases t.len(),
{
    if t.len() == 0 {
        seq![0]
    } else if t.last() == 10u8 {
        line_starts_of(t.drop_last()).push(t.len() as int)
    } else {
        line_starts_of(t.drop_last())
    }
}

/// Line starts begin with 0, grow strictly and stay within the text.
pub proof fn lemma_line_starts(t: Seq<u8>)
    ensures
        line_starts_of(t).len() >= 1,
        line_starts_of(t)[0] == 0,
        forall|i: int, j: int|
            0 <= i < j < line_starts_of(t).len() ==> line_starts_of(t)[i] < line_starts_of(t)[j],
        forall|i: int|
            0 <= i < line_starts_of(t).len() ==> 0 <= #[trigger] line_starts_of(t)[i] <= t.len(),
    decreases t.len(),
{
    if t.len() > 0 {
        lemma_line_starts(t.drop_last());
    }
}

/// The characters of `cs` between byte offsets `start` and `end`, clamped to
/// the text; empty when either clamped offset falls inside a character.
pub open spec fn slice_of(cs: Seq<char>, start: int, end: int) -> Seq<char> {
    let n = utf8_len(cs) as int;
    let s = min_int(start, n);
    let e = max_int(min_int(end, n), s);
    if is_char_offset(cs, s) && is_char_offset(cs, e) {
        cs.subrange(char_index(cs, s), char_index(cs, e))
    } else {
        Seq::empty()
    }
}

/// An empty byte range gives the empty slice.
pub proof fn lemma_slice_empty(cs: Seq<char>, p: int)
    ensures
        slice_of(cs, p, p) == Seq::<char>::empty(),
{
    let n = utf8_len(cs) as int;
    let s = min_int(p, n);
    if is_char_offset(cs, s) {
        lemma_char_index_in_range(cs, s);
        assert(cs.subrange(char_index(cs, s), char_index(cs, s)) =~= Seq::<char>::empty());
    }
}

/// `c` with the bytes from `pos` on (`del` of them, as far as there are)
/// replaced by `ins`; `pos` is clamped to the end.
pub open spec fn replaced(c: Seq<u8>, pos: int, del: int, ins: Seq<u8>) -> Seq<u8> {
    let p = min_int(pos, c.len() as int);
    let e = min_int(p + del, c.len() as int);
    c.take(p) + ins + c.skip(e)
}

/// The version after an edit: one more, saturating.
pub open spec fn next_version(v: i32) -> i32 {
    if v == i32::MAX { v } else { (v + 1) as i32 }
}

/// Offset of the character before the one at `p` (0 at the start).
pub open spec fn prev_char_offset(cs: Seq<char>, p: int) -> int {
    let k = char_index(cs, p);
    if k == 0 { 0 } else { offset_of(cs, k - 1) as int }
}

/// Offset just after the character at `p` (the end if `p` is at or past it).
pub open spec fn next_char_offset(cs: Seq<char>, p: int) -> int {
    if p >= utf8_len(cs) {
        utf8_len(cs) as int
    } else {
        offset_of(cs, char_index(cs, p) + 1) as int
    }
}

/// Index left of the whitespace run that ends at index `j`.
pub open spec fn skip_ws_back(cs: Seq<char>, j: int) -> int
    decreases j,
{
    if 0 < j <= cs.len() && char_is_whitespace(cs[j - 1]) {
        skip_ws_back(cs, j - 1)
    } else {
        j
    }
}

/// Index left of the run of non-whitespace characters of word class `w` that
/// ends at index `j`.
pub open spec fn skip_class_back(cs: Seq<char>, j: int, w: bool) -> int
    decreases j,
{
    if 0 < j <= cs.len() && spec_is_word(cs[j - 1]) == w && !char_is_whitespace(cs[j - 1]) {
        skip_class_back(cs, j - 1, w)
    } else {
        j
    }
}

/// Index right of the whitespace run that starts at index `j`.
pub open spec fn skip_ws_fwd(cs: Seq<char>, j: int) -> int
    decreases cs.len() - j,
{
    if 0 <= j < cs.len() && char_is_whitespace(cs[j]) {
        skip_ws_fwd(cs, j + 1)
    } else {
        j
    }
}

/// Index right of the run of non-whitespace characters of word class `w`
/// that starts at index `j`.
pub open spec fn skip_class_fwd(cs: Seq<char>, j: int, w: bool) -> int
    decreases cs.len() - j,
{
    if 0 <= j < cs.len() && spec_is_word(cs[j]) == w && !char_is_whitespace(cs[j]) {
        skip_class_fwd(cs, j + 1, w)
    } else {
        j
    }
}

/// Start of the word before offset `p`: skip whitespace leftwards, then the
/// run of characters of the same class (word or punctuation).
pub open spec fn prev_word_offset(cs: Seq<char>, p: int) -> int {
    let j = skip_ws_back(cs, char_index(cs, p));
    if j <= 0 {
        0
    } else {
        offset_of(cs, skip_class_back(cs, j, spec_is_word(cs[j - 1]))) as int
    }
}

/// End of the word after offset `p`: skip whitespace rightwards, then the run
/// of characters of the same class.
pub open spec fn next_word_offset(cs: Seq<char>, p: int) -> int {
    let j = skip_ws_fwd(cs, char_index(cs, p));
    if j >= cs.len() {
        utf8_len(cs) as int
    } else {
        offset_of(cs, skip_class_fwd(cs, j, spec_is_word(cs[j]))) as int
    }
}

/// The language named for a file extension.
pub open spec fn language_for_extension(ext: Seq<char>) -> Seq<char> {
    if ext == "rs"@ {
        "Rust"@
    } else if ext == "py"@ {
        "Python"@
    } else if ext == "js"@ || ext == "mjs"@ || ext == "cjs"@ {
        "JavaScript"@
    } else if ext == "ts"@ || ext == "tsx"@ {
        "TypeScript"@
    } else if ext == "go"@ {
        "Go"@
    } else if ext == "md"@ || ext == "markdown"@ {
        "Markdown"@
    } else if ext == "json"@ {
        "JSON"@
    } else if ext == "toml"@ {
        "TOML"@
    } else if ext == "yaml"@ || ext == "yml"@ {
        "YAML"@
    } else if ext == "html"@ || ext == "htm"@ {
        "HTML"@
    } else if ext == "css"@ {
        "CSS"@
    } else if ext == "sh"@ || ext == "bash"@ {
        "Shell"@
    } else {
        "Plain Text"@
    }
}

impl BufferView {
    pub open spec fn len(self) -> nat {
        self.content.len()
    }

    /// The extension of the buffer's path; empty when there is none.
    pub open spec fn extension(self) -> Seq<char> {
        match self.path {
            Some(p) => match path_extension(p) {
                Some(e) => e,
                None => Seq::empty(),
            },
            None => Seq::empty(),
        }
    }

    /// The buffer's text: its contents decoded as UTF-8.
    pub open spec fn text(self) -> Seq<char> {
        lossy_decode(self.content)
    }

    /// Byte length of the text.
    pub open spec fn text_len(self) -> nat {
        utf8_len(self.text())
    }

    /// True when the contents are valid UTF-8.
    pub open spec fn is_utf8(self) -> bool {
        valid_utf8(self.content)
    }

    /// True when decoding loses nothing: the text encodes back to the contents.
    pub open spec fn faithful(self) -> bool {
        encode_utf8(self.text()) == self.content
    }

    pub open spec fn line_starts(self) -> Seq<int> {
        line_starts_of(encode_utf8(self.text()))
    }

    pub open spec fn line_count(self) -> nat {
        self.line_starts().len()
    }

    pub open spec fn line_start(self, line: int) -> int {
        if 0 <= line < self.line_starts().len() {
            self.line_starts()[line]
        } else {
            self.len() as int
        }
    }

    pub open spec fn line_end(self, line: int) -> int {
        if 0 <= line && line + 1 < self.line_starts().len() {
            max_int(self.line_starts()[line + 1] - 1, 0)
        } else {
            self.len() as int
        }
    }

    pub open spec fn slice(self, start: int, end: int) -> Seq<char> {
        slice_of(self.text(), start, end)
    }

    /// The selection, from its smaller end to its larger, if it is not empty.
    pub open spec fn selected_range(self) -> Option<(nat, nat)> {
        match self.anchor {
            None => None,
            Some(a) => if a == self.cursor {
                None
            } else if a < self.cursor {
                Some((a, self.cursor))
            } else {
                Some((self.cursor, a))
            },
        }
    }

    /// The offset of a line and column: the column counts bytes from the
    /// line's start and stops at the line's end.
    pub open spec fn offset_for_line_col(self, line: int, col: int) -> int {
        let l = min_int(line, self.line_count() - 1);
        min_int(self.line_start(l) + col, self.line_end(l))
    }

    /// True when the line and column (`line`, `col`) are those of `offset`.
    pub open spec fn is_line_col(self, offset: int, line: int, col: int) -> bool {
        let o = min_int(offset, self.len() as int);
        &&& 0 <= line < self.line_starts().len()
        &&& self.line_starts()[line] <= o
        &&& (line + 1 == self.line_starts().len() || o < self.line_starts()[line + 1])
        &&& col == o - self.line_starts()[line]
    }

    /// The line and column of `offset` (clamped to the end).
    pub open spec fn line_col_of(self, offset: int) -> (int, int) {
        choose|lc: (int, int)| self.is_line_col(offset, lc.0, lc.1)
    }

    /// The cursor's line.
    pub open spec fn line_of_cursor(self) -> int {
        self.line_col_of(self.cursor as int).0
    }

    /// The cursor's column: bytes from the start of its line.
    pub open spec fn col_of_cursor(self) -> int {
        self.line_col_of(self.cursor as int).1
    }

    /// True when there is room to hold `extra` more bytes besides the gap's
    /// growth.
    pub open spec fn fits(self, extra: int) -> bool {
        self.len() + extra + INITIAL_GAP <= usize::MAX
    }

    /// The cursor moved to `pos`, extending the selection if `selecting`.
    pub open spec fn with_cursor(self, pos: int, selecting: bool) -> BufferView {
        BufferView {
            cursor: min_int(pos, self.len() as int) as nat,
            anchor: if selecting {
                if self.anchor is Some {
                    self.anchor
                } else {
                    Some(self.cursor)
                }
            } else {
                None
            },
            ..self
        }
    }

    /// The contents after replacing `del` bytes at `pos` by `ins`, without
    /// recording it; the cursor ends after the inserted text.
    pub open spec fn with_edit(self, pos: int, del: int, ins: Seq<char>) -> BufferView {
        let p = min_int(pos, self.len() as int);
        BufferView {
            content: replaced(self.content, pos, del, encode_utf8(ins)),
            cursor: (p + utf8_len(ins)) as nat,
            anchor: None,
            modified: true,
            version: next_version(self.version),
            ..self
        }
    }

    /// Replacing the text between `start` and `end` by `ins`, recorded for
    /// undo; nothing happens when both the replaced text and `ins` are empty.
    pub open spec fn with_replaced_range(self, start: int, end: int, ins: Seq<char>) -> BufferView {
        let s = min_int(start, self.len() as int);
        let e = max_int(min_int(end, self.len() as int), s);
        let deleted = self.slice(s, e);
        if deleted.len() == 0 && ins.len() == 0 {
            self
        } else {
            let b = self.with_edit(s, e - s, ins);
            BufferView {
                undo: b.undo.push(EditView { pos: s as nat, deleted, inserted: ins }),
                redo: Seq::empty(),
                ..b
            }
        }
    }

    /// Undoing the most recent edit, which moves to the redo history.
    pub open spec fn after_undo(self) -> BufferView {
        if self.undo.len() == 0 {
            self
        } else {
            let e = self.undo.last();
            let b = self.with_edit(e.pos as int, utf8_len(e.inserted) as int, e.deleted);
            BufferView { undo: self.undo.drop_last(), redo: self.redo.push(e), ..b }
        }
    }

    /// Redoing the most recently undone edit, which moves back to the undo
    /// history.
    pub open spec fn after_redo(self) -> BufferView {
        if self.redo.len() == 0 {
            self
        } else {
            let e = self.redo.last();
            let b = self.with_edit(e.pos as int, utf8_len(e.deleted) as int, e.inserted);
            BufferView { redo: self.redo.drop_last(), undo: self.undo.push(e), ..b }
        }
    }

    /// Inserting `ins` over the selection, or at the cursor.
    pub open spec fn after_insert(self, ins: Seq<char>) -> BufferView {
        if ins.len() == 0 {
            self
        } else {
            match self.selected_range() {
                Some((a, b)) => self.with_replaced_range(a as int, b as int, ins),
                None => self.with_replaced_range(self.cursor as int, self.cursor as int, ins),
            }
        }
    }

    /// Backspace: delete the selection, or the character before the cursor.
    pub open spec fn after_delete_backward(self) -> BufferView {
        match self.selected_range() {
            Some((a, b)) => self.with_replaced_range(a as int, b as int, Seq::empty()),
            None => if self.cursor == 0 {
                self
            } else {
                self.with_replaced_range(
                    prev_char_offset(self.text(), self.cursor as int),
                    self.cursor as int,
                    Seq::empty(),
                )
            },
        }
    }

    /// Delete: delete the selection, or the character after the cursor.
    pub open spec fn after_delete_forward(self) -> BufferView {
        match self.selected_range() {
            Some((a, b)) => self.with_replaced_range(a as int, b as int, Seq::empty()),
            None => if self.cursor >= self.len() {
                self
            } else {
                self.with_replaced_range(
                    self.cursor as int,
                    next_char_offset(self.text(), self.cursor as int),
                    Seq::empty(),
                )
            },
        }
    }

    /// True when there is room to undo the most recent edit.
    pub open spec fn undo_fits(self) -> bool {
        self.undo.len() == 0 || utf8_len(self.undo.last().deleted) == 0 || self.fits(
            utf8_len(self.undo.last().deleted) as int,
        )
    }

    /// True when there is room to redo the most recently undone edit.
    pub open spec fn redo_fits(self) -> bool {
        self.redo.len() == 0 || utf8_len(self.redo.last().inserted) == 0 || self.fits(
            utf8_len(self.redo.last().inserted) as int,
        )
    }

    /// True when a character-wise delete at the cursor would find the cursor
    /// between two characters of the text.
    pub open spec fn can_delete_backward(self) -> bool {
        self.selected_range() is Some || self.cursor == 0 || is_char_offset(
            self.text(),
            self.cursor as int,
        )
    }

    pub open spec fn can_delete_forward(self) -> bool {
        self.selected_range() is Some || self.cursor >= self.len() || self.cursor
            >= self.text_len() || is_char_offset(self.text(), self.cursor as int)
    }
}

/// True when the stored edit's texts have lengths that fit in `usize`.
pub open spec fn edit_fits(e: EditView) -> bool {
    utf8_len(e.inserted) <= usize::MAX && utf8_len(e.deleted) <= usize::MAX && e.pos
        <= usize::MAX
}

/// A text buffer.
#[derive(Debug)]
pub struct Buffer {
    bytes: Vec<u8>,
    gap_start: usize,
    gap_end: usize,
    line_starts: Vec<usize>,
    selection_anchor: Option<usize>,
    undo: Vec<AppliedEdit>,
    redo: Vec<AppliedEdit>,
    path: Option<String>,
    modified: bool,
    version: i32,
}

impl View for Buffer {
    type V = BufferView;

    closed spec fn view(&self) -> BufferView {
        BufferView {
            content: self.bytes@.take(self.gap_start as int) + self.bytes@.skip(self.gap_end as int),
            cursor: self.gap_start as nat,
            anchor: match self.selection_anchor {
                Some(a) => Some(a as nat),
                None => None,
            },
            undo: self.undo@.map_values(|e: AppliedEdit| e@),
            redo: self.redo@.map_values(|e: AppliedEdit| e@),
            path: match self.path {
                Some(p) => Some(p@),
                None => None,
            },
            modified: self.modified,
            version: self.version,
        }
    }
}

impl Buffer {
    spec fn gap_ok(&self) -> bool {
        self.gap_start <= self.gap_end <= self.bytes.len()
    }

    spec fn lines_ok(&self) -> bool {
        &&& self.line_starts@.len() == self@.line_starts().len()
        &&& forall|i: int|
            0 <= i < self.line_starts@.len() ==> self.line_starts@[i] as int
                == #[trigger] self@.line_starts()[i]
    }

    spec fn history_ok(&self) -> bool {
        &&& forall|i: int| 0 <= i < self@.undo.len() ==> edit_fits(#[trigger] self@.undo[i])
        &&& forall|i: int| 0 <= i < self@.redo.len() ==> edit_fits(#[trigger] self@.redo[i])
    }

    /// The buffer's internal invariant.
    pub closed spec fn wf(&self) -> bool {
        &&& self.gap_ok()
        &&& self.lines_ok()
        &&& self.history_ok()
        &&& (self.selection_anchor matches Some(a) ==> a <= self@.len())
    }
}


/// The contents of a buffer whose gap spans `gs..ge` of `bytes`.
pub open spec fn gap_content(bytes: Seq<u8>, gs: int, ge: int) -> Seq<u8> {
    bytes.take(gs) + bytes.skip(ge)
}

impl Buffer {
    /// An empty buffer, optionally bound to a file path.
    pub fn empty(path: Option<String>) -> (b: Buffer)
        ensures
            b.wf(),
            b@.content == Seq::<u8>::empty(),
            b@.is_utf8(),
            b@.cursor == 0,
            b@.anchor is None,
            b@.undo.len() == 0,
            b@.redo.len() == 0,
            b@.path == (match path {
                Some(p) => Some(p@),
                None => None::<Seq<char>>,
            }),
            !b@.modified,
            b@.version == 0,
    {
        let bytes = vec![0u8; INITIAL_GAP];
        let gap_end = bytes.len();
        let mut this = Buffer {
            bytes,
            gap_start: 0,
            gap_end,
            line_starts: vec![0],
            selection_anchor: None,
            undo: Vec::new(),
            redo: Vec::new(),
            path,
            modified: false,
            version: 0,
        };
        proof {
            assert(this@.content =~= Seq::<u8>::empty());
            assert(this@.undo =~= Seq::<EditView>::empty());
            assert(this@.redo =~= Seq::<EditView>::empty());
        }
        this.rebuild_line_index();
        this
    }

    /// A buffer holding `text`, read from the file at `path`, with the cursor
    /// at the start.  Reading the file is the caller's part.
    pub fn open(path: String, text: &str) -> (b: Buffer)
        requires
            utf8_len(text@) + utf8_len(text@) / 8 + INITIAL_GAP <= usize::MAX,
        ensures
            b.wf(),
            b@.content == encode_utf8(text@),
            b@.is_utf8(),
            b@.text() == text@,
            b@.cursor == 0,
            b@.anchor is None,
            b@.undo.len() == 0,
            b@.redo.len() == 0,
            b@.path == Some(path@),
            !b@.modified,
            b@.version == 0,
    {
        let src = text.as_bytes();
        let n = src.len();
        let gap = if n / 8 > INITIAL_GAP {
            n / 8
        } else {
            INITIAL_GAP
        };
        let mut bytes: Vec<u8> = Vec::new();
        let mut i: usize = 0;
        while i < n
            invariant
                n == src@.len(),
                i <= n,
                bytes@ == src@.take(i as int),
            decreases n - i,
        {
            bytes.push(src[i]);
            i = i + 1;
        }
        let mut j: usize = 0;
        while j < gap
            invariant
                n == src@.len(),
                j <= gap,
                bytes@.len() == n + j,
                bytes@.take(n as int) == src@,
                n + gap <= usize::MAX,
            decreases gap - j,
        {
            bytes.push(0);
            j = j + 1;
            proof {
                assert(bytes@.take(n as int) =~= src@);
            }
        }
        let mut this = Buffer {
            bytes,
            gap_start: n,
            gap_end: n + gap,
            line_starts: vec![0],
            selection_anchor: None,
            undo: Vec::new(),
            redo: Vec::new(),
            path: Some(path),
            modified: false,
            version: 0,
        };
        proof {
            assert(this@.content =~= src@);
            assert(this@.undo =~= Seq::<EditView>::empty());
            assert(this@.redo =~= Seq::<EditView>::empty());
        }
        this.rebuild_line_index();
        this.set_cursor(0, false);
        proof {
            encode_utf8_valid_utf8(text@);
            encode_utf8_decode_utf8(text@);
        }
        this
    }

    /// Records that the text was written to its file.
    pub fn mark_saved(&mut self)
        requires
            old(self).wf(),
        ensures
            final(self).wf(),
            final(self)@ == (BufferView { modified: false, ..old(self)@ }),
    {
        self.modified = false;
    }

    pub fn path(&self) -> (r: Option<&str>)
        ensures
            (match r {
                Some(p) => self@.path == Some(p@),
                None => self@.path is None,
            }),
    {
        match &self.path {
            Some(p) => Some(p.as_str()),
            None => None,
        }
    }

    /// The path for display, or `[No Name]`.
    pub fn file_name(&self) -> (r: String)
        ensures
            r@ == (match self@.path {
                Some(p) => p,
                None => "[No Name]"@,
            }),
    {
        match &self.path {
            Some(p) => p.clone(),
            None => String::from_str("[No Name]"),
        }
    }

    /// The language of the file, by its extension.
    pub fn language_name(&self) -> (r: &'static str)
        ensures
            r@ == language_for_extension(self@.extension()),
    {
        let ext = match &self.path {
            Some(p) => match extension_of(p.as_str()) {
                Some(e) => e,
                None => String::new(),
            },
            None => String::new(),
        };
        let e = ext.as_str();
        if str_eq(e, "rs") {
            "Rust"
        } else if str_eq(e, "py") {
            "Python"
        } else if str_eq(e, "js") || str_eq(e, "mjs") || str_eq(e, "cjs") {
            "JavaScript"
        } else if str_eq(e, "ts") || str_eq(e, "tsx") {
            "TypeScript"
        } else if str_eq(e, "go") {
            "Go"
        } else if str_eq(e, "md") || str_eq(e, "markdown") {
            "Markdown"
        } else if str_eq(e, "json") {
            "JSON"
        } else if str_eq(e, "toml") {
            "TOML"
        } else if str_eq(e, "yaml") || str_eq(e, "yml") {
            "YAML"
        } else if str_eq(e, "html") || str_eq(e, "htm") {
            "HTML"
        } else if str_eq(e, "css") {
            "CSS"
        } else if str_eq(e, "sh") || str_eq(e, "bash") {
            "Shell"
        } else {
            "Plain Text"
        }
    }

    /// Number of bytes in the buffer.
    pub fn len(&self) -> (n: usize)
        requires
            self.wf(),
        ensures
            n == self@.len(),
    {
        self.bytes.len() - self.gap_len()
    }

    pub fn cursor(&self) -> (c: usize)
        ensures
            c == self@.cursor,
    {
        self.gap_start
    }

    pub fn version(&self) -> (v: i32)
        ensures
            v == self@.version,
    {
        self.version
    }

    pub fn is_modified(&self) -> (m: bool)
        ensures
            m == self@.modified,
    {
        self.modified
    }

    fn gap_len(&self) -> (n: usize)
        requires
            self.gap_ok(),
        ensures
            n == self.gap_end - self.gap_start,
            self@.len() == self.bytes.len() - n,
    {
        self.gap_end - self.gap_start
    }

    /// The bytes of the buffer, in order.
    fn content_bytes(&self) -> (v: Vec<u8>)
        requires
            self.gap_ok(),
        ensures
            v@ == self@.content,
    {
        let mut out: Vec<u8> = Vec::new();
        let mut i: usize = 0;
        while i < self.gap_start
            invariant
                self.gap_ok(),
                i <= self.gap_start,
                out@ == self.bytes@.take(i as int),
            decreases self.gap_start - i,
        {
            out.push(self.bytes[i]);
            i = i + 1;
            proof {
                assert(out@ =~= self.bytes@.take(i as int));
            }
        }
        let mut j: usize = self.gap_end;
        while j < self.bytes.len()
            invariant
                self.gap_ok(),
                self.gap_end <= j <= self.bytes.len(),
                out@ == self.bytes@.take(self.gap_start as int) + self.bytes@.subrange(
                    self.gap_end as int,
                    j as int,
                ),
            decreases self.bytes.len() - j,
        {
            out.push(self.bytes[j]);
            j = j + 1;
            proof {
                assert(out@ =~= self.bytes@.take(self.gap_start as int) + self.bytes@.subrange(
                    self.gap_end as int,
                    j as int,
                ));
            }
        }
        proof {
            assert(out@ =~= self@.content);
        }
        out
    }

    /// The buffer's text.
    pub fn text(&self) -> (s: String)
        requires
            self.wf(),
        ensures
            s@ == self@.text(),
    {
        self.decoded()
    }

    fn decoded(&self) -> (s: String)
        requires
            self.gap_ok(),
        ensures
            s@ == self@.text(),
    {
        let v = self.content_bytes();
        string_from_utf8_lossy(v.as_slice())
    }

    fn rebuild_line_index(&mut self)
        requires
            old(self).gap_ok(),
        ensures
            final(self)@ == old(self)@,
            final(self).gap_ok(),
            final(self).lines_ok(),
            final(self).bytes == old(self).bytes,
            final(self).gap_start == old(self).gap_start,
            final(self).gap_end == old(self).gap_end,
            final(self).selection_anchor == old(self).selection_anchor,
            final(self).undo == old(self).undo,
            final(self).redo == old(self).redo,
    {
        let text = self.decoded();
        let starts = recompute_line_starts(text.as_str().as_bytes());
        self.line_starts = starts;
    }
}


/// Where the lines of `bytes` start: 0, then just after each newline.
fn recompute_line_starts(bytes: &[u8]) -> (starts: Vec<usize>)
    ensures
        starts@.len() == line_starts_of(bytes@).len(),
        forall|k: int|
            0 <= k < starts@.len() ==> starts@[k] as int == #[trigger] line_starts_of(bytes@)[k],
{
    let t = bytes;
    let mut starts: Vec<usize> = Vec::new();
    starts.push(0);
    let mut i: usize = 0;
    proof {
        assert(t@.take(0) =~= Seq::<u8>::empty());
    }
    while i < t.len()
        invariant
            i <= t@.len(),
            starts@.len() == line_starts_of(t@.take(i as int)).len(),
            forall|k: int|
                0 <= k < starts@.len() ==> starts@[k] as int == #[trigger] line_starts_of(
                    t@.take(i as int),
                )[k],
        decreases t@.len() - i,
    {
        proof {
            assert(t@.take(i + 1).drop_last() =~= t@.take(i as int));
        }
        if t[i] == 10u8 {
            starts.push(i + 1);
        }
        i = i + 1;
    }
    proof {
        assert(t@.take(i as int) =~= t@);
    }
    starts
}

impl Buffer {
    /// Moves the gap so that it starts at `pos`; the contents stay.
    fn move_gap(&mut self, pos: usize)
        requires
            old(self).gap_ok(),
            pos <= old(self)@.len(),
        ensures
            final(self).gap_ok(),
            final(self).gap_start == pos,
            final(self).bytes.len() == old(self).bytes.len(),
            final(self).gap_end - final(self).gap_start == old(self).gap_end - old(self).gap_start,
            final(self)@ == (BufferView { cursor: pos as nat, ..old(self)@ }),
            final(self).line_starts == old(self).line_starts,
            final(self).selection_anchor == old(self).selection_anchor,
            final(self).undo == old(self).undo,
            final(self).redo == old(self).redo,
    {
        let ghost c = self@.content;
        while pos < self.gap_start
            invariant
                self.gap_ok(),
                pos <= c.len(),
                self.bytes.len() == old(self).bytes.len(),
                self.gap_end - self.gap_start == old(self).gap_end - old(self).gap_start,
                gap_content(self.bytes@, self.gap_start as int, self.gap_end as int) == c,
                self.line_starts == old(self).line_starts,
                self.selection_anchor == old(self).selection_anchor,
                self.undo == old(self).undo,
                self.redo == old(self).redo,
                self.path == old(self).path,
                self.modified == old(self).modified,
                self.version == old(self).version,
            decreases self.gap_start,
        {
            let ghost before = self.bytes@;
            let b = self.bytes[self.gap_start - 1];
            self.bytes.set(self.gap_end - 1, b);
            self.gap_start = self.gap_start - 1;
            self.gap_end = self.gap_end - 1;
            proof {
                assert(gap_content(self.bytes@, self.gap_start as int, self.gap_end as int)
                    =~= gap_content(before, self.gap_start + 1, self.gap_end + 1));
            }
        }
        while pos > self.gap_start
            invariant
                self.gap_ok(),
                pos >= self.gap_start,
                pos <= c.len(),
                self.bytes.len() == old(self).bytes.len(),
                self.gap_end - self.gap_start == old(self).gap_end - old(self).gap_start,
                gap_content(self.bytes@, self.gap_start as int, self.gap_end as int) == c,
                self.line_starts == old(self).line_starts,
                self.selection_anchor == old(self).selection_anchor,
                self.undo == old(self).undo,
                self.redo == old(self).redo,
                self.path == old(self).path,
                self.modified == old(self).modified,
                self.version == old(self).version,
            decreases pos - self.gap_start,
        {
            let ghost before = self.bytes@;
            let b = self.bytes[self.gap_end];
            self.bytes.set(self.gap_start, b);
            self.gap_start = self.gap_start + 1;
            self.gap_end = self.gap_end + 1;
            proof {
                assert(gap_content(self.bytes@, self.gap_start as int, self.gap_end as int)
                    =~= gap_content(before, self.gap_start - 1, self.gap_end - 1));
            }
        }
        proof {
            assert(self@.undo =~= old(self)@.undo);
            assert(self@.redo =~= old(self)@.redo);
        }
    }

    /// Grows the gap, if needed, to hold at least `needed` bytes.
    fn ensure_gap(&mut self, needed: usize)
        requires
            old(self).gap_ok(),
            old(self).gap_end - old(self).gap_start >= needed || old(self)@.len() + needed
                + INITIAL_GAP <= usize::MAX,
        ensures
            final(self).gap_ok(),
            final(self).gap_end - final(self).gap_start >= needed,
            final(self).gap_start == old(self).gap_start,
            final(self)@ == old(self)@,
            final(self).line_starts == old(self).line_starts,
            final(self).selection_anchor == old(self).selection_anchor,
            final(self).undo == old(self).undo,
            final(self).redo == old(self).redo,
    {
        let gap = self.gap_len();
        if gap >= needed {
            return;
        }
        let grow_by = if needed - gap > INITIAL_GAP {
            needed - gap
        } else {
            INITIAL_GAP
        };
        let mut nb: Vec<u8> = Vec::new();
        let mut i: usize = 0;
        while i < self.gap_end
            invariant
                self.gap_ok(),
                i <= self.gap_end,
                nb@ == self.bytes@.take(i as int),
            decreases self.gap_end - i,
        {
            nb.push(self.bytes[i]);
            i = i + 1;
            proof {
                assert(nb@ =~= self.bytes@.take(i as int));
            }
        }
        let mut j: usize = 0;
        while j < grow_by
            invariant
                self.gap_ok(),
                j <= grow_by,
                nb@.len() == self.gap_end + j,
                nb@.take(self.gap_end as int) == self.bytes@.take(self.gap_end as int),
                self.gap_end + grow_by <= usize::MAX,
            decreases grow_by - j,
        {
            nb.push(0);
            j = j + 1;
            proof {
                assert(nb@.take(self.gap_end as int) =~= self.bytes@.take(self.gap_end as int));
            }
        }
        let mut k: usize = self.gap_end;
        while k < self.bytes.len()
            invariant
                self.gap_ok(),
                self.gap_end <= k <= self.bytes.len(),
                nb@.len() == k + grow_by,
                nb@.take(self.gap_end as int) == self.bytes@.take(self.gap_end as int),
                nb@.skip(self.gap_end + grow_by) == self.bytes@.subrange(
                    self.gap_end as int,
                    k as int,
                ),
                self.bytes.len() + grow_by <= usize::MAX,
            decreases self.bytes.len() - k,
        {
            let ghost before = nb@;
            nb.push(self.bytes[k]);
            k = k + 1;
            proof {
                assert(nb@.take(self.gap_end as int) =~= before.take(self.gap_end as int));
                assert(nb@.skip(self.gap_end + grow_by) =~= self.bytes@.subrange(
                    self.gap_end as int,
                    k as int,
                ));
            }
        }
        let ghost old_bytes = self.bytes@;
        let ghost ge = self.gap_end;
        self.bytes = nb;
        self.gap_end = self.gap_end + grow_by;
        proof {
            assert(self.bytes@.take(self.gap_start as int) =~= old_bytes.take(
                self.gap_start as int,
            ));
            assert(self.bytes@.skip(self.gap_end as int) =~= old_bytes.skip(ge as int));
        }
    }

    /// Moves the cursor to `pos` (clamped to the end).  With `selecting` the
    /// selection keeps (or starts at) its anchor, else it is dropped.
    pub fn set_cursor(&mut self, pos: usize, selecting: bool)
        requires
            old(self).wf(),
        ensures
            final(self).wf(),
            final(self)@ == old(self)@.with_cursor(pos as int, selecting),
    {
        let old_cursor = self.cursor();
        if selecting {
            if self.selection_anchor.is_none() {
                self.selection_anchor = Some(old_cursor);
            }
        } else {
            self.selection_anchor = None;
        }
        let len = self.len();
        let target = if pos < len {
            pos
        } else {
            len
        };
        self.move_gap(target);
    }

    /// Selects the whole text, leaving the cursor at the end.
    pub fn select_all(&mut self)
        requires
            old(self).wf(),
        ensures
            final(self).wf(),
            final(self)@ == (BufferView {
                anchor: Some(0),
                cursor: old(self)@.len(),
                ..old(self)@
            }),
    {
        self.selection_anchor = Some(0);
        let len = self.len();
        self.move_gap(len);
    }

    /// Number of lines.
    pub fn line_count(&self) -> (n: usize)
        requires
            self.wf(),
        ensures
            n == self@.line_count(),
            n >= 1,
    {
        proof {
            lemma_line_starts(encode_utf8(self@.text()));
        }
        self.line_starts.len()
    }

    /// Offset where line `line` starts (the end of the buffer past the last
    /// line).
    pub fn line_start(&self, line: usize) -> (r: usize)
        requires
            self.wf(),
        ensures
            r == self@.line_start(line as int),
    {
        if line < self.line_starts.len() {
            self.line_starts[line]
        } else {
            self.len()
        }
    }

    /// Offset where line `line` ends, before its newline.
    pub fn line_end(&self, line: usize) -> (r: usize)
        requires
            self.wf(),
        ensures
            r == self@.line_end(line as int),
    {
        proof {
            lemma_line_starts(encode_utf8(self@.text()));
        }
        if line < self.line_starts.len() - 1 {
            let s = self.line_starts[line + 1];
            if s >= 1 {
                s - 1
            } else {
                0
            }
        } else {
            self.len()
        }
    }

    /// The text of line `line`, without its newline.
    pub fn line_text(&self, line: usize) -> (r: String)
        requires
            self.wf(),
        ensures
            r@ == self@.slice(self@.line_start(line as int), self@.line_end(line as int)),
    {
        let start = self.line_start(line);
        let end = self.line_end(line);
        self.slice(start..end)
    }

    /// The text between two offsets, clamped to the text; empty when an end
    /// falls inside a character.
    pub fn slice(&self, range: Range<usize>) -> (r: String)
        requires
            self.wf(),
        ensures
            r@ == self@.slice(range.start as int, range.end as int),
    {
        let text = self.text();
        let cs = chars_of(text.as_str());
        let n = text_byte_len(&cs);
        let start = if range.start < n {
            range.start
        } else {
            n
        };
        let end0 = if range.end < n {
            range.end
        } else {
            n
        };
        let end = if end0 > start {
            end0
        } else {
            start
        };
        match (find_char_index(&cs, start), find_char_index(&cs, end)) {
            (Some(a), Some(b)) => {
                proof {
                    if b < a {
                        lemma_offset_strict(cs@, b as int, a as int);
                    }
                }
                let mut out: Vec<char> = Vec::new();
                let mut i = a;
                while i < b
                    invariant
                        a <= i <= b <= cs.len(),
                        out@ == cs@.subrange(a as int, i as int),
                    decreases b - i,
                {
                    out.push(cs[i]);
                    i = i + 1;
                }
                string_from_chars(out.as_slice())
            },
            _ => String::new(),
        }
    }

    /// The line and column of `offset` (clamped to the end): the line is the
    /// last whose start is at or before it, the column counts bytes from
    /// there.
    pub fn line_col_for_offset(&self, offset: usize) -> (r: (usize, usize))
        requires
            self.wf(),
        ensures
            self@.is_line_col(offset as int, r.0 as int, r.1 as int),
            self@.line_col_of(offset as int) == (r.0 as int, r.1 as int),
    {
        proof {
            lemma_line_starts(encode_utf8(self@.text()));
        }
        let len = self.len();
        let o = if offset < len {
            offset
        } else {
            len
        };
        let mut lo: usize = 0;
        let mut hi: usize = self.line_starts.len();
        while hi - lo > 1
            invariant
                self.wf(),
                0 <= lo < hi <= self.line_starts@.len(),
                self.line_starts@[lo as int] <= o,
                hi == self.line_starts@.len() || self.line_starts@[hi as int] > o,
            decreases hi - lo,
        {
            let mid = lo + (hi - lo) / 2;
            if self.line_starts[mid] <= o {
                lo = mid;
            } else {
                hi = mid;
            }
        }
        let r = (lo, o - self.line_starts[lo]);
        proof {
            lemma_line_col_of(self@, offset as int, r.0 as int, r.1 as int);
        }
        r
    }

    /// The line and column of the cursor.
    pub fn line_col(&self) -> (r: (usize, usize))
        requires
            self.wf(),
        ensures
            self@.is_line_col(self@.cursor as int, r.0 as int, r.1 as int),
            r.0 == self@.line_of_cursor(),
            r.1 == self@.col_of_cursor(),
    {
        self.line_col_for_offset(self.cursor())
    }

    /// The offset of a line (clamped to the last) and column (clamped to the
    /// line's end).
    pub fn offset_for_line_col(&self, line: usize, col: usize) -> (r: usize)
        requires
            self.wf(),
        ensures
            r == self@.offset_for_line_col(line as int, col as int),
    {
        let count = self.line_count();
        let l = if line < count - 1 {
            line
        } else {
            count - 1
        };
        let start = self.line_start(l);
        let end = self.line_end(l);
        match start.checked_add(col) {
            Some(x) => if x < end {
                x
            } else {
                end
            },
            None => end,
        }
    }

    /// The selection as a range, if it is not empty.
    pub fn selected_range(&self) -> (r: Option<Range<usize>>)
        requires
            self.wf(),
        ensures
            match r {
                Some(rg) => self@.selected_range() == Some((rg.start as nat, rg.end as nat)),
                None => self@.selected_range() is None,
            },
    {
        match self.selection_anchor {
            None => None,
            Some(anchor) => {
                let cursor = self.cursor();
                if anchor == cursor {
                    None
                } else if anchor < cursor {
                    Some(anchor..cursor)
                } else {
                    Some(cursor..anchor)
                }
            },
        }
    }

    /// The selected text, if the selection is not empty.
    pub fn selected_text(&self) -> (r: Option<String>)
        requires
            self.wf(),
        ensures
            match self@.selected_range() {
                Some((a, b)) => r matches Some(s) && s@ == self@.slice(a as int, b as int),
                None => r is None,
            },
    {
        match self.selected_range() {
            Some(range) => Some(self.slice(range)),
            None => None,
        }
    }
}

/// Byte length of the encoding of a character vector.
fn text_byte_len(cs: &Vec<char>) -> (n: usize)
    requires
        utf8_len(cs@) <= usize::MAX,
    ensures
        n == utf8_len(cs@),
{
    let offs = char_offsets(cs);
    proof {
        lemma_offset_full(cs@);
    }
    offs[cs.len()]
}


impl Buffer {
    /// Replaces `delete_len` bytes at `pos` by `inserted` without recording
    /// the edit.
    #[verifier::spinoff_prover]
    #[verifier::rlimit(40)]
    fn apply_replacement_no_record(&mut self, pos: usize, delete_len: usize, inserted: &str)
        requires
            old(self).wf(),
            utf8_len(inserted@) == 0 || old(self)@.fits(utf8_len(inserted@) as int),
        ensures
            final(self).wf(),
            final(self)@ == old(self)@.with_edit(pos as int, delete_len as int, inserted@),
            final(self).undo == old(self).undo,
            final(self).redo == old(self).redo,
    {
        let ghost v0 = self@;
        self.selection_anchor = None;
        let len = self.len();
        let p = if pos < len {
            pos
        } else {
            len
        };
        self.move_gap(p);
        let room = self.bytes.len() - self.gap_end;
        if delete_len < room {
            self.gap_end = self.gap_end + delete_len;
        } else {
            self.gap_end = self.bytes.len();
        }
        let ghost after_delete = self@.content;
        proof {
            let e = min_int(p + delete_len, len as int);
            assert(after_delete =~= v0.content.take(p as int) + v0.content.skip(e));
        }
        let ins = inserted.as_bytes();
        self.ensure_gap(ins.len());
        let mut i: usize = 0;
        while i < ins.len()
            invariant
                self.gap_ok(),
                i <= ins@.len(),
                self.gap_end - self.gap_start >= ins@.len() - i,
                self.gap_start == p + i,
                self@.content == after_delete.take(p as int) + ins@.take(i as int)
                    + after_delete.skip(p as int),
                after_delete.len() >= p,
                self.line_starts == old(self).line_starts,
                self.selection_anchor is None,
                self.undo == old(self).undo,
                self.redo == old(self).redo,
                self@.path == v0.path,
                self@.modified == v0.modified,
                self@.version == v0.version,
            decreases ins@.len() - i,
        {
            let ghost before = self.bytes@;
            let ghost gs = self.gap_start;
            self.bytes.set(self.gap_start, ins[i]);
            self.gap_start = self.gap_start + 1;
            i = i + 1;
            proof {
                assert(gap_content(self.bytes@, self.gap_start as int, self.gap_end as int)
                    =~= gap_content(before, gs as int, self.gap_end as int).take(gs as int)
                    + seq![ins@[i - 1]] + gap_content(before, gs as int, self.gap_end as int).skip(
                    gs as int,
                ));
                assert(ins@.take(i as int) =~= ins@.take(i - 1).push(ins@[i - 1]));
                assert(self@.content =~= after_delete.take(p as int) + ins@.take(i as int)
                    + after_delete.skip(p as int));
            }
        }
        self.modified = true;
        if self.version < i32::MAX {
            self.version = self.version + 1;
        }
        self.rebuild_line_index();
        proof {
            let e = min_int(p + delete_len, len as int);
            assert(ins@.take(ins@.len() as int) =~= ins@);
            assert(v0.content.take(p as int) + v0.content.skip(e) =~= after_delete);
            assert(after_delete.take(p as int) =~= v0.content.take(p as int));
            assert(after_delete.skip(p as int) =~= v0.content.skip(e));
            assert(self@.content =~= replaced(v0.content, pos as int, delete_len as int, ins@));
            assert(self@ == v0.with_edit(pos as int, delete_len as int, inserted@));
        }
    }

    /// Replaces the text between the range's ends (clamped to the buffer) by
    /// `inserted` and records the edit for undo; the redo history is cleared.
    /// Nothing happens when both the replaced text and `inserted` are empty.
    pub fn replace_range(&mut self, range: Range<usize>, inserted: &str)
        requires
            old(self).wf(),
            utf8_len(inserted@) == 0 || old(self)@.fits(utf8_len(inserted@) as int),
        ensures
            final(self).wf(),
            final(self)@ == old(self)@.with_replaced_range(
                range.start as int,
                range.end as int,
                inserted@,
            ),
    {
        let ghost v0 = self@;
        let len = self.len();
        let start = if range.start < len {
            range.start
        } else {
            len
        };
        let end0 = if range.end < len {
            range.end
        } else {
            len
        };
        let end = if end0 > start {
            end0
        } else {
            start
        };
        let deleted = self.slice(start..end);
        if deleted.as_str().is_empty() && inserted.is_empty() {
            return;
        }
        let _ = utf8_len_of(deleted.as_str());
        let _ = utf8_len_of(inserted);
        self.apply_replacement_no_record(start, end - start, inserted);
        let edit = AppliedEdit { pos: start, deleted, inserted: inserted.to_owned() };
        let ghost u0 = self.undo@;
        self.undo.push(edit);
        self.redo.clear();
        proof {
            assert(self.undo@ =~= u0.push(edit));
            assert(self@.undo =~= v0.with_edit(start as int, (end - start) as int, inserted@).undo.push(
                edit@,
            ));
            assert(self@.redo =~= Seq::<EditView>::empty());
            assert forall|i: int| 0 <= i < self@.undo.len() implies edit_fits(
                #[trigger] self@.undo[i],
            ) by {
                if i < self@.undo.len() - 1 {
                    assert(self@.undo[i] == v0.undo[i]);
                }
            }
        }
    }

    /// Types `text` over the selection, or at the cursor.
    pub fn insert_str(&mut self, text: &str)
        requires
            old(self).wf(),
            old(self)@.fits(utf8_len(text@) as int),
        ensures
            final(self).wf(),
            final(self)@ == old(self)@.after_insert(text@),
    {
        if text.is_empty() {
            return;
        }
        let range = match self.selected_range() {
            Some(r) => r,
            None => self.cursor()..self.cursor(),
        };
        self.replace_range(range, text);
    }

    /// Offset of the character before `pos` (clamped to the end).  The
    /// clamped `pos` must fall between characters of the text.
    pub fn prev_char_boundary(&self, pos: usize) -> (r: usize)
        requires
            self.wf(),
            is_char_offset(self@.text(), min_int(pos as int, self@.len() as int)),
        ensures
            r == prev_char_offset(self@.text(), min_int(pos as int, self@.len() as int)),
    {
        let len = self.len();
        let p = if pos < len {
            pos
        } else {
            len
        };
        let text = self.text();
        let cs = chars_of(text.as_str());
        let offs = char_offsets(&cs);
        match find_char_index(&cs, p) {
            Some(k) => if k == 0 {
                0
            } else {
                offs[k - 1]
            },
            None => 0,
        }
    }

    /// Offset after the character at `pos` (clamped to the end); the end of
    /// the text when `pos` is at or past it.  Otherwise the clamped `pos` must
    /// fall between characters of the text.
    pub fn next_char_boundary(&self, pos: usize) -> (r: usize)
        requires
            self.wf(),
            min_int(pos as int, self@.len() as int) >= self@.text_len() || is_char_offset(
                self@.text(),
                min_int(pos as int, self@.len() as int),
            ),
        ensures
            r == next_char_offset(self@.text(), min_int(pos as int, self@.len() as int)),
    {
        let len = self.len();
        let p = if pos < len {
            pos
        } else {
            len
        };
        let text = self.text();
        let cs = chars_of(text.as_str());
        let offs = char_offsets(&cs);
        let n = offs[cs.len()];
        proof {
            lemma_offset_full(cs@);
        }
        if p >= n {
            return n;
        }
        match find_char_index(&cs, p) {
            Some(k) => {
                proof {
                    if k == cs.len() {
                        assert(false);
                    }
                }
                offs[k + 1]
            },
            None => n,
        }
    }

    /// Start of the word before `pos` (clamped to the text): whitespace is
    /// skipped, then a run of word characters or of other non-whitespace.
    /// The clamped `pos` must fall between characters.
    pub fn prev_word_boundary(&self, pos: usize) -> (r: usize)
        requires
            self.wf(),
            is_char_offset(self@.text(), min_int(pos as int, self@.text_len() as int)),
        ensures
            r == prev_word_offset(self@.text(), min_int(pos as int, self@.text_len() as int)),
    {
        let text = self.text();
        let cs = chars_of(text.as_str());
        let offs = char_offsets(&cs);
        let n = offs[cs.len()];
        proof {
            lemma_offset_full(cs@);
        }
        let p = if pos < n {
            pos
        } else {
            n
        };
        let k = match find_char_index(&cs, p) {
            Some(k) => k,
            None => 0,
        };
        let mut j = k;
        while j > 0 && is_whitespace(cs[j - 1])
            invariant
                j <= k <= cs.len(),
                skip_ws_back(cs@, j as int) == skip_ws_back(cs@, k as int),
            decreases j,
        {
            j = j - 1;
        }
        if j == 0 {
            return 0;
        }
        let want = is_word(cs[j - 1]);
        let mut i = j;
        while i > 0 && is_word(cs[i - 1]) == want && !is_whitespace(cs[i - 1])
            invariant
                i <= j <= cs.len(),
                skip_class_back(cs@, i as int, want) == skip_class_back(cs@, j as int, want),
            decreases i,
        {
            i = i - 1;
        }
        offs[i]
    }

    /// End of the word after `pos` (clamped to the text): whitespace is
    /// skipped, then a run of word characters or of other non-whitespace.
    /// The clamped `pos` must fall between characters.
    pub fn next_word_boundary(&self, pos: usize) -> (r: usize)
        requires
            self.wf(),
            is_char_offset(self@.text(), min_int(pos as int, self@.text_len() as int)),
        ensures
            r == next_word_offset(self@.text(), min_int(pos as int, self@.text_len() as int)),
    {
        let text = self.text();
        let cs = chars_of(text.as_str());
        let offs = char_offsets(&cs);
        let n = offs[cs.len()];
        proof {
            lemma_offset_full(cs@);
        }
        let p = if pos < n {
            pos
        } else {
            n
        };
        let k = match find_char_index(&cs, p) {
            Some(k) => k,
            None => 0,
        };
        let mut j = k;
        while j < cs.len() && is_whitespace(cs[j])
            invariant
                k <= j <= cs.len(),
                skip_ws_fwd(cs@, j as int) == skip_ws_fwd(cs@, k as int),
            decreases cs.len() - j,
        {
            j = j + 1;
        }
        if j >= cs.len() {
            return n;
        }
        let want = is_word(cs[j]);
        let mut i = j;
        while i < cs.len() && is_word(cs[i]) == want && !is_whitespace(cs[i])
            invariant
                j <= i <= cs.len(),
                skip_class_fwd(cs@, i as int, want) == skip_class_fwd(cs@, j as int, want),
            decreases cs.len() - i,
        {
            i = i + 1;
        }
        offs[i]
    }

    /// Backspace: deletes the selection, or the character before the cursor.
    pub fn delete_backward(&mut self)
        requires
            old(self).wf(),
            old(self)@.can_delete_backward(),
        ensures
            final(self).wf(),
            final(self)@ == old(self)@.after_delete_backward(),
    {
        proof {
            reveal_strlit("");
            assert(""@ =~= Seq::<char>::empty());
        }
        if let Some(range) = self.selected_range() {
            self.replace_range(range, "");
            return;
        }
        let cursor = self.cursor();
        if cursor == 0 {
            return;
        }
        let start = self.prev_char_boundary(cursor);
        self.replace_range(start..cursor, "");
    }

    /// Delete: deletes the selection, or the character after the cursor.
    pub fn delete_forward(&mut self)
        requires
            old(self).wf(),
            old(self)@.can_delete_forward(),
        ensures
            final(self).wf(),
            final(self)@ == old(self)@.after_delete_forward(),
    {
        proof {
            reveal_strlit("");
            assert(""@ =~= Seq::<char>::empty());
        }
        if let Some(range) = self.selected_range() {
            self.replace_range(range, "");
            return;
        }
        let cursor = self.cursor();
        if cursor >= self.len() {
            return;
        }
        let end = self.next_char_boundary(cursor);
        self.replace_range(cursor..end, "");
    }

    /// Removes the selected text and returns it; `None` without a selection.
    pub fn cut_selection(&mut self) -> (r: Option<String>)
        requires
            old(self).wf(),
        ensures
            final(self).wf(),
            match old(self)@.selected_range() {
                Some((a, b)) => r matches Some(s) && s@ == old(self)@.slice(a as int, b as int)
                    && final(self)@ == old(self)@.with_replaced_range(a as int, b as int, Seq::empty()),
                None => r is None && final(self)@ == old(self)@,
            },
    {
        proof {
            reveal_strlit("");
            assert(""@ =~= Seq::<char>::empty());
        }
        let range = match self.selected_range() {
            Some(r) => r,
            None => return None,
        };
        let deleted = self.slice(range.start..range.end);
        self.replace_range(range, "");
        Some(deleted)
    }

    /// Reverts the most recent edit; false when there is none.
    pub fn undo(&mut self) -> (r: bool)
        requires
            old(self).wf(),
            old(self)@.undo_fits(),
        ensures
            final(self).wf(),
            r == (old(self)@.undo.len() > 0),
            final(self)@ == old(self)@.after_undo(),
    {
        let ghost v0 = self@;
        let edit = match self.undo.pop() {
            Some(e) => e,
            None => return false,
        };
        proof {
            assert(self@.undo =~= v0.undo.drop_last());
            assert(edit@ == v0.undo.last());
            assert(edit_fits(v0.undo[v0.undo.len() - 1]));
        }
        let n = utf8_len_of(edit.inserted.as_str());
        self.apply_replacement_no_record(edit.pos, n, edit.deleted.as_str());
        let ghost r0 = self.redo@;
        self.redo.push(edit);
        proof {
            assert(self.redo@ =~= r0.push(edit));
            assert(self@.redo =~= v0.redo.push(edit@));
            assert forall|i: int| 0 <= i < self@.redo.len() implies edit_fits(
                #[trigger] self@.redo[i],
            ) by {
                if i < self@.redo.len() - 1 {
                    assert(self@.redo[i] == v0.redo[i]);
                }
            }
            assert forall|i: int| 0 <= i < self@.undo.len() implies edit_fits(
                #[trigger] self@.undo[i],
            ) by {
                assert(self@.undo[i] == v0.undo[i]);
            }
        }
        true
    }

    /// Re-applies the most recently undone edit; false when there is none.
    pub fn redo(&mut self) -> (r: bool)
        requires
            old(self).wf(),
            old(self)@.redo_fits(),
        ensures
            final(self).wf(),
            r == (old(self)@.redo.len() > 0),
            final(self)@ == old(self)@.after_redo(),
    {
        let ghost v0 = self@;
        let edit = match self.redo.pop() {
            Some(e) => e,
            None => return false,
        };
        proof {
            assert(self@.redo =~= v0.redo.drop_last());
            assert(edit@ == v0.redo.last());
            assert(edit_fits(v0.redo[v0.redo.len() - 1]));
        }
        let n = utf8_len_of(edit.deleted.as_str());
        self.apply_replacement_no_record(edit.pos, n, edit.inserted.as_str());
        let ghost u0 = self.undo@;
        self.undo.push(edit);
        proof {
            assert(self.undo@ =~= u0.push(edit));
            assert(self@.undo =~= v0.undo.push(edit@));
            assert forall|i: int| 0 <= i < self@.undo.len() implies edit_fits(
                #[trigger] self@.undo[i],
            ) by {
                if i < self@.undo.len() - 1 {
                    assert(self@.undo[i] == v0.undo[i]);
                }
            }
            assert forall|i: int| 0 <= i < self@.redo.len() implies edit_fits(
                #[trigger] self@.redo[i],
            ) by {
                assert(self@.redo[i] == v0.redo[i]);
            }
        }
        true
    }
}


impl Buffer {
    /// Whether `pos` falls between two characters of the text.
    pub fn is_char_offset_at(&self, pos: usize) -> (r: bool)
        requires
            self.wf(),
        ensures
            r == is_char_offset(self@.text(), pos as int),
    {
        let text = self.text();
        let cs = chars_of(text.as_str());
        find_char_index(&cs, pos).is_some()
    }

    /// True when there is room for `extra` more bytes.
    pub fn fits_extra(&self, extra: usize) -> (r: bool)
        requires
            self.wf(),
        ensures
            r == self@.fits(extra as int),
    {
        let len = self.len();
        len <= usize::MAX - INITIAL_GAP && extra <= usize::MAX - INITIAL_GAP - len
    }

    /// True when there is room to undo the most recent edit.
    pub fn undo_room(&self) -> (r: bool)
        requires
            self.wf(),
        ensures
            r == self@.undo_fits(),
    {
        if self.undo.len() == 0 {
            return true;
        }
        let e = &self.undo[self.undo.len() - 1];
        let n = utf8_len_of(e.deleted.as_str());
        n == 0 || self.fits_extra(n)
    }

    /// True when there is room to redo the most recently undone edit.
    pub fn redo_room(&self) -> (r: bool)
        requires
            self.wf(),
        ensures
            r == self@.redo_fits(),
    {
        if self.redo.len() == 0 {
            return true;
        }
        let e = &self.redo[self.redo.len() - 1];
        let n = utf8_len_of(e.inserted.as_str());
        n == 0 || self.fits_extra(n)
    }

    /// `prev_char_boundary`, or `None` where the clamped `pos` falls inside a
    /// character.
    pub fn try_prev_char_boundary(&self, pos: usize) -> (r: Option<usize>)
        requires
            self.wf(),
        ensures
            match r {
                Some(x) => is_char_offset(self@.text(), min_int(pos as int, self@.len() as int))
                    && x == prev_char_offset(self@.text(), min_int(pos as int, self@.len() as int)),
                None => !is_char_offset(self@.text(), min_int(pos as int, self@.len() as int)),
            },
    {
        let len = self.len();
        let p = if pos < len {
            pos
        } else {
            len
        };
        if self.is_char_offset_at(p) {
            Some(self.prev_char_boundary(pos))
        } else {
            None
        }
    }

    /// `next_char_boundary`, or `None` where the clamped `pos` falls inside a
    /// character.
    pub fn try_next_char_boundary(&self, pos: usize) -> (r: Option<usize>)
        requires
            self.wf(),
        ensures
            ({
                let p = min_int(pos as int, self@.len() as int);
                let ok = p >= self@.text_len() || is_char_offset(self@.text(), p);
                match r {
                    Some(x) => ok && x == next_char_offset(self@.text(), p),
                    None => !ok,
                }
            }),
    {
        let len = self.len();
        let p = if pos < len {
            pos
        } else {
            len
        };
        let n = utf8_len_of(self.text().as_str());
        if p >= n || self.is_char_offset_at(p) {
            Some(self.next_char_boundary(pos))
        } else {
            None
        }
    }

    /// `prev_word_boundary`, or `None` where the clamped `pos` falls inside a
    /// character.
    pub fn try_prev_word_boundary(&self, pos: usize) -> (r: Option<usize>)
        requires
            self.wf(),
        ensures
            ({
                let p = min_int(pos as int, self@.text_len() as int);
                match r {
                    Some(x) => is_char_offset(self@.text(), p) && x == prev_word_offset(
                        self@.text(),
                        p,
                    ),
                    None => !is_char_offset(self@.text(), p),
                }
            }),
    {
        let n = utf8_len_of(self.text().as_str());
        let p = if pos < n {
            pos
        } else {
            n
        };
        if self.is_char_offset_at(p) {
            Some(self.prev_word_boundary(pos))
        } else {
            None
        }
    }

    /// `next_word_boundary`, or `None` where the clamped `pos` falls inside a
    /// character.
    pub fn try_next_word_boundary(&self, pos: usize) -> (r: Option<usize>)
        requires
            self.wf(),
        ensures
            ({
                let p = min_int(pos as int, self@.text_len() as int);
                match r {
                    Some(x) => is_char_offset(self@.text(), p) && x == next_word_offset(
                        self@.text(),
                        p,
                    ),
                    None => !is_char_offset(self@.text(), p),
                }
            }),
    {
        let n = utf8_len_of(self.text().as_str());
        let p = if pos < n {
            pos
        } else {
            n
        };
        if self.is_char_offset_at(p) {
            Some(self.next_word_boundary(pos))
        } else {
            None
        }
    }

    /// `delete_backward` where it applies; false, with nothing changed, where
    /// the cursor falls inside a character.
    pub fn try_delete_backward(&mut self) -> (r: bool)
        requires
            old(self).wf(),
        ensures
            final(self).wf(),
            r == old(self)@.can_delete_backward(),
            r ==> final(self)@ == old(self)@.after_delete_backward(),
            !r ==> final(self)@ == old(self)@,
    {
        let ok = self.selected_range().is_some() || self.cursor() == 0 || self.is_char_offset_at(
            self.cursor(),
        );
        if ok {
            self.delete_backward();
        }
        ok
    }

    /// `delete_forward` where it applies; false, with nothing changed, where
    /// the cursor falls inside a character.
    pub fn try_delete_forward(&mut self) -> (r: bool)
        requires
            old(self).wf(),
        ensures
            final(self).wf(),
            r == old(self)@.can_delete_forward(),
            r ==> final(self)@ == old(self)@.after_delete_forward(),
            !r ==> final(self)@ == old(self)@,
    {
        let c = self.cursor();
        let n = utf8_len_of(self.text().as_str());
        let ok = self.selected_range().is_some() || c >= self.len() || c >= n
            || self.is_char_offset_at(c);
        if ok {
            self.delete_forward();
        }
        ok
    }
}

/// Undo reverts a recorded replacement: when the contents are valid UTF-8
/// and both clamped ends of the range fall between characters,
/// undoing the replacement restores the contents and the undo history, and
/// leaves the edit in the redo history.
pub proof fn law_undo_reverts_replace(v: BufferView, start: int, end: int, ins: Seq<char>)
    requires
        v.is_utf8(),
        is_char_offset(v.text(), min_int(start, v.len() as int)),
        is_char_offset(v.text(), max_int(min_int(end, v.len() as int), min_int(start, v.len() as int))),
        ins.len() > 0 || v.slice(
            min_int(start, v.len() as int),
            max_int(min_int(end, v.len() as int), min_int(start, v.len() as int)),
        ).len() > 0,
    ensures
        v.with_replaced_range(start, end, ins).after_undo().content == v.content,
        v.with_replaced_range(start, end, ins).after_undo().text() == v.text(),
        v.with_replaced_range(start, end, ins).after_undo().undo == v.undo,
        v.with_replaced_range(start, end, ins).after_undo().redo.len() == 1,
        v.with_replaced_range(start, end, ins).after_undo().cursor == max_int(
            min_int(end, v.len() as int),
            min_int(start, v.len() as int),
        ),
        v.with_replaced_range(start, end, ins).after_undo().anchor is None,
        v.with_replaced_range(start, end, ins).after_undo().modified,
        v.with_replaced_range(start, end, ins).after_undo().version == next_version(
            next_version(v.version),
        ),
{
    law_utf8_contents(v);
    let cs = v.text();
    let c = v.content;
    let s = min_int(start, v.len() as int);
    let e = max_int(min_int(end, v.len() as int), s);
    lemma_offset_full(cs);
    let a = char_index(cs, s);
    let b = char_index(cs, e);
    assert(0 <= a <= cs.len() && offset_of(cs, a) == s);
    assert(0 <= b <= cs.len() && offset_of(cs, b) == e);
    if b < a {
        lemma_offset_strict(cs, b, a);
    }
    lemma_encode_subrange(cs, a, b);
    let deleted = cs.subrange(a, b);
    assert(v.slice(s, e) == deleted);
    let w = v.with_replaced_range(start, end, ins);
    let enc = encode_utf8(ins);
    assert(w.content =~= c.take(s) + enc + c.skip(e));
    assert(w.undo.last() == EditView { pos: s as nat, deleted, inserted: ins });
    let u = w.after_undo();
    assert(u.content =~= c.take(s) + encode_utf8(deleted) + c.skip(e));
    assert(c.take(s) + c.subrange(s, e) + c.skip(e) =~= c);
    assert(w.undo.drop_last() =~= v.undo);
}

/// Redo re-applies what undo reverted: when the most recent edit's inserted
/// text stands at its position, undoing and then redoing it gives back the
/// contents.
pub proof fn law_redo_after_undo(v: BufferView)
    requires
        v.undo.len() > 0,
        v.undo.last().pos + utf8_len(v.undo.last().inserted) <= v.len(),
        v.content.subrange(
            v.undo.last().pos as int,
            (v.undo.last().pos + utf8_len(v.undo.last().inserted)) as int,
        ) == encode_utf8(v.undo.last().inserted),
    ensures
        v.after_undo().after_redo().content == v.content,
        v.after_undo().after_redo().undo == v.undo,
        v.after_undo().after_redo().redo == v.redo,
{
    let e = v.undo.last();
    let c = v.content;
    let p = e.pos as int;
    let n = utf8_len(e.inserted) as int;
    let d = encode_utf8(e.deleted);
    let u = v.after_undo();
    assert(u.content =~= c.take(p) + d + c.skip(p + n));
    assert(u.redo.last() == e);
    let r = u.after_redo();
    assert(r.content =~= c.take(p) + encode_utf8(e.inserted) + c.skip(p + n));
    assert(c.take(p) + c.subrange(p, p + n) + c.skip(p + n) =~= c);
    assert(r.undo =~= v.undo);
    assert(r.redo =~= v.redo);
}

/// A replacement, undone and redone, leaves the contents as the replacement
/// made them.
pub proof fn law_replace_undo_redo(v: BufferView, start: int, end: int, ins: Seq<char>)
    requires
        v.is_utf8(),
        is_char_offset(v.text(), min_int(start, v.len() as int)),
        is_char_offset(v.text(), max_int(min_int(end, v.len() as int), min_int(start, v.len() as int))),
        ins.len() > 0 || v.slice(
            min_int(start, v.len() as int),
            max_int(min_int(end, v.len() as int), min_int(start, v.len() as int)),
        ).len() > 0,
    ensures
        v.with_replaced_range(start, end, ins).after_undo().after_redo().content
            == v.with_replaced_range(start, end, ins).content,
        v.with_replaced_range(start, end, ins).after_undo().after_redo().text()
            == v.with_replaced_range(start, end, ins).text(),
        v.with_replaced_range(start, end, ins).after_undo().after_redo().cursor
            == v.with_replaced_range(start, end, ins).cursor,
        v.with_replaced_range(start, end, ins).after_undo().after_redo().version == next_version(
            next_version(v.with_replaced_range(start, end, ins).version),
        ),
        v.with_replaced_range(start, end, ins).after_undo().after_redo().undo
            == v.with_replaced_range(start, end, ins).undo,
        v.with_replaced_range(start, end, ins).after_undo().after_redo().redo.len() == 0,
{
    law_utf8_contents(v);
    let w = v.with_replaced_range(start, end, ins);
    let s = min_int(start, v.len() as int);
    let e = max_int(min_int(end, v.len() as int), s);
    let c = v.content;
    let enc = encode_utf8(ins);
    lemma_offset_full(v.text());
    let a = char_index(v.text(), s);
    let b = char_index(v.text(), e);
    assert(0 <= a <= v.text().len() && offset_of(v.text(), a) == s);
    assert(0 <= b <= v.text().len() && offset_of(v.text(), b) == e);
    if b < a {
        lemma_offset_strict(v.text(), b, a);
    }
    assert(w.content =~= c.take(s) + enc + c.skip(e));
    assert(w.undo.last().pos == s);
    assert(w.undo.last().inserted == ins);
    assert(w.content.subrange(s, s + enc.len()) =~= enc);
    law_redo_after_undo(w);
}

/// Line and column of an offset lead back to the offset (clamped to the
/// end).
pub proof fn law_line_col_round_trip(v: BufferView, offset: int, line: int, col: int)
    requires
        v.is_line_col(offset, line, col),
    ensures
        v.offset_for_line_col(line, col) == min_int(offset, v.len() as int),
{
    lemma_line_starts(encode_utf8(v.text()));
}

/// The line and column of an offset are unique.
pub proof fn lemma_line_col_unique(v: BufferView, offset: int, l1: int, c1: int, l2: int, c2: int)
    requires
        v.is_line_col(offset, l1, c1),
        v.is_line_col(offset, l2, c2),
    ensures
        l1 == l2,
        c1 == c2,
{
    lemma_line_starts(encode_utf8(v.text()));
    let ls = v.line_starts();
    if l1 < l2 {
        assert(ls[l1 + 1] <= ls[l2]);
    } else if l2 < l1 {
        assert(ls[l2 + 1] <= ls[l1]);
    }
}

/// `line_col_of` names the one line and column of an offset.
pub proof fn lemma_line_col_of(v: BufferView, offset: int, line: int, col: int)
    requires
        v.is_line_col(offset, line, col),
    ensures
        v.line_col_of(offset) == (line, col),
{
    assert(v.is_line_col(offset, (line, col).0, (line, col).1));
    let lc = v.line_col_of(offset);
    lemma_line_col_unique(v, offset, line, col, lc.0, lc.1);
}

/// Number of newline bytes.
pub open spec fn newline_count(t: Seq<u8>) -> nat
    decreases t.len(),
{
    if t.len() == 0 {
        0
    } else {
        newline_count(t.drop_last()) + if t.last() == 10u8 {
            1nat
        } else {
            0nat
        }
    }
}

/// Lines start at 0 and right after each newline: there is one line more
/// than there are newlines, every line but the first starts after a newline,
/// and after every newline a line starts; line `i` starts right after the
/// `i`-th newline (exactly `i` newlines come before it).
pub proof fn law_line_starts_follow_newlines(t: Seq<u8>)
    ensures
        line_starts_of(t).len() == newline_count(t) + 1,
        line_starts_of(t)[0] == 0,
        forall|i: int| 0 < i < line_starts_of(t).len() ==> t[#[trigger] line_starts_of(t)[i] - 1] == 10u8,
        forall|k: int| 0 <= k < t.len() && #[trigger] t[k] == 10u8 ==> line_starts_of(t).contains(k + 1),
        forall|i: int|
            0 <= i < line_starts_of(t).len() ==> newline_count(t.take(#[trigger] line_starts_of(t)[i])) == i,
    decreases t.len(),
{
    lemma_line_starts(t);
    if t.len() == 0 {
        assert(t.take(0) =~= t);
    }
    if t.len() > 0 {
        let u = t.drop_last();
        law_line_starts_follow_newlines(u);
        lemma_line_starts(u);
        let su = line_starts_of(u);
        let st = line_starts_of(t);
        assert forall|i: int| 0 <= i < st.len() implies newline_count(t.take(#[trigger] st[i])) == i by {
            if i < su.len() {
                assert(st[i] == su[i]);
                assert(t.take(su[i]) =~= u.take(su[i]));
            } else {
                assert(t.last() == 10u8);
                assert(st[i] == t.len());
                assert(t.take(t.len() as int) =~= t);
                assert(newline_count(t) == newline_count(u) + 1);
            }
        }
        assert forall|i: int| 0 < i < st.len() implies t[#[trigger] st[i] - 1] == 10u8 by {
            if i < su.len() {
                assert(st[i] == su[i]);
                assert(u[su[i] - 1] == 10u8);
            }
        }
        assert forall|k: int| 0 <= k < t.len() && #[trigger] t[k] == 10u8 implies st.contains(k + 1) by {
            if k < u.len() {
                assert(u[k] == t[k]);
                let j = choose|j: int| 0 <= j < su.len() && su[j] == k + 1;
                assert(st[j] == su[j]);
            } else {
                assert(st[st.len() - 1] == t.len());
            }
        }
    }
}

/// Moves keep the text and the history: only the cursor and the anchor
/// change; a move without selecting drops the selection, a selecting move
/// keeps an anchor there is, or starts one at the cursor.
pub proof fn law_moves_keep_contents(v: BufferView, pos: int, selecting: bool)
    ensures
        ({
            let w = v.with_cursor(pos, selecting);
            &&& w.content == v.content
            &&& w.undo == v.undo
            &&& w.redo == v.redo
            &&& w.version == v.version
            &&& w.modified == v.modified
            &&& !selecting ==> w.selected_range() is None
            &&& selecting && v.anchor is Some ==> w.anchor == v.anchor
        }),
{
}

/// A move to `a` without selecting, then one to `b` selecting, selects from
/// `a` to `b` (both within the text), whichever comes first; later selecting
/// moves keep `a` as the selection's anchor.
pub proof fn law_selection_anchor(v: BufferView, a: int, b: int, c: int)
    requires
        0 <= a,
        0 <= b,
    ensures
        ({
            let w = v.with_cursor(a, false).with_cursor(b, true);
            let a2 = min_int(a, v.len() as int) as nat;
            let b2 = min_int(b, v.len() as int) as nat;
            &&& w.anchor == Some(a2)
            &&& w.selected_range() == if a2 == b2 {
                None
            } else if a2 < b2 {
                Some((a2, b2))
            } else {
                Some((b2, a2))
            }
            &&& w.with_cursor(c, true).anchor == Some(a2)
        }),
{
}

/// A selection runs forward within the text, with the cursor at one end.
pub proof fn law_selection_shape(v: BufferView)
    requires
        v.cursor <= v.len(),
        v.anchor matches Some(a) ==> a <= v.len(),
    ensures
        v.selected_range() matches Some((s, e)) ==> s < e <= v.len() && (v.cursor == s || v.cursor == e),
{
}

/// An edit, and an undo or redo that finds something to do, drops the
/// selection, marks the buffer modified and raises its version by one (up
/// to the largest); an undo or redo with an empty history changes nothing.
pub proof fn law_edits_mark_and_count(v: BufferView, pos: int, del: int, ins: Seq<char>)
    ensures
        v.with_edit(pos, del, ins).selected_range() is None,
        v.with_edit(pos, del, ins).modified,
        v.with_edit(pos, del, ins).version == next_version(v.version),
        v.version < i32::MAX ==> next_version(v.version) == v.version + 1,
        next_version(v.version) >= v.version,
        v.undo.len() > 0 ==> {
            &&& v.after_undo().selected_range() is None
            &&& v.after_undo().modified
            &&& v.after_undo().version == next_version(v.version)
        },
        v.undo.len() == 0 ==> v.after_undo() == v,
        v.redo.len() > 0 ==> {
            &&& v.after_redo().selected_range() is None
            &&& v.after_redo().modified
            &&& v.after_redo().version == next_version(v.version)
        },
        v.redo.len() == 0 ==> v.after_redo() == v,
{
}

/// Contents are valid UTF-8 exactly when the text encodes back to them; then
/// the buffer's byte length is the encoded length of its text.
pub proof fn law_utf8_contents(v: BufferView)
    ensures
        v.is_utf8() <==> v.faithful(),
        v.is_utf8() ==> v.len() == v.text_len(),
{
    if v.is_utf8() {
        decode_utf8_encode_utf8(v.content);
    }
    if v.faithful() {
        encode_utf8_valid_utf8(v.text());
    }
}

/// A replacement whose clamped ends fall between characters keeps valid
/// UTF-8 contents valid: the text becomes the characters before the range,
/// the inserted text, then the characters after the range, and the length
/// changes by the inserted bytes less the replaced ones.
pub proof fn law_boundary_replace_keeps_utf8(v: BufferView, start: int, end: int, ins: Seq<char>)
    requires
        v.is_utf8(),
        is_char_offset(v.text(), min_int(start, v.len() as int)),
        is_char_offset(v.text(), max_int(min_int(end, v.len() as int), min_int(start, v.len() as int))),
    ensures
        v.with_replaced_range(start, end, ins).is_utf8(),
        v.with_replaced_range(start, end, ins).len() == v.len() - (max_int(
            min_int(end, v.len() as int),
            min_int(start, v.len() as int),
        ) - min_int(start, v.len() as int)) + utf8_len(ins),
        v.with_replaced_range(start, end, ins).text() == v.text().take(
            char_index(v.text(), min_int(start, v.len() as int)),
        ) + ins + v.text().skip(
            char_index(v.text(), max_int(min_int(end, v.len() as int), min_int(start, v.len() as int))),
        ),
{
    let cs = v.text();
    let c = v.content;
    law_utf8_contents(v);
    let s = min_int(start, v.len() as int);
    let e = max_int(min_int(end, v.len() as int), s);
    lemma_offset_full(cs);
    lemma_char_index_in_range(cs, s);
    lemma_char_index_in_range(cs, e);
    let a = char_index(cs, s);
    let b = char_index(cs, e);
    if b < a {
        lemma_offset_strict(cs, b, a);
    }
    let w = v.with_replaced_range(start, end, ins);
    let t = cs.take(a) + ins + cs.skip(b);
    lemma_encode_subrange(cs, 0, a);
    lemma_encode_subrange(cs, b, cs.len() as int);
    assert(cs.subrange(0, a) =~= cs.take(a));
    assert(cs.subrange(b, cs.len() as int) =~= cs.skip(b));
    assert(c.subrange(0, s) =~= c.take(s));
    assert(c.subrange(e, c.len() as int) =~= c.skip(e));
    lemma_encode_concat(cs.take(a), ins);
    lemma_encode_concat(cs.take(a) + ins, cs.skip(b));
    if v.slice(s, e).len() == 0 && ins.len() == 0 {
        assert(v.slice(s, e) == cs.subrange(a, b));
        assert(a == b);
        assert(t =~= cs);
    } else {
        assert(w.content =~= c.take(s) + encode_utf8(ins) + c.skip(e));
        assert(w.content =~= encode_utf8(t));
        encode_utf8_valid_utf8(t);
        encode_utf8_decode_utf8(t);
    }
}

impl Buffer {
    /// A well-formed buffer's cursor and selection anchor lie within its
    /// contents; so its selection, if any, runs forward within the text with
    /// the cursor at one end.
    pub proof fn lemma_wf_bounds(&self)
        requires
            self.wf(),
        ensures
            self@.cursor <= self@.len(),
            self@.anchor matches Some(a) ==> a <= self@.len(),
            self@.selected_range() matches Some((s, e)) ==> s < e <= self@.len() && (self@.cursor == s
                || self@.cursor == e),
    {
    }
}

/// What a call that may edit leaves: the buffer unchanged, or the edit
/// applied, with the version raised by one (up to the largest), the buffer
/// marked modified and the selection dropped.
pub open spec fn edited_or_unchanged(v: BufferView, w: BufferView) -> bool {
    ||| w == v
    ||| (w.version == next_version(v.version) && w.modified && w.anchor is None)
}

/// Version and modified mark across every call that changes a buffer: moves
/// and select-all keep both; recording a save keeps the version and clears
/// the mark; every edit, undo and redo either changes nothing or applies an
/// edit, raising the version and setting the mark.  So the version never
/// falls.
pub proof fn law_version_and_modified(v: BufferView, pos: int, selecting: bool, start: int, end: int, ins: Seq<char>)
    ensures
        v.with_cursor(pos, selecting).version == v.version,
        v.with_cursor(pos, selecting).modified == v.modified,
        (BufferView { anchor: Some(0), cursor: v.len(), ..v }).version == v.version,
        (BufferView { anchor: Some(0), cursor: v.len(), ..v }).modified == v.modified,
        (BufferView { modified: false, ..v }).version == v.version,
        edited_or_unchanged(v, v.with_replaced_range(start, end, ins)),
        edited_or_unchanged(v, v.after_insert(ins)),
        edited_or_unchanged(v, v.after_delete_backward()),
        edited_or_unchanged(v, v.after_delete_forward()),
        edited_or_unchanged(v, v.after_undo()),
        edited_or_unchanged(v, v.after_redo()),
        next_version(v.version) >= v.version,
{
}

proof fn lemma_skip_ws_back(cs: Seq<char>, j: int)
    requires
        0 <= j <= cs.len(),
    ensures
        0 <= skip_ws_back(cs, j) <= j,
        forall|t: int| skip_ws_back(cs, j) <= t < j ==> char_is_whitespace(#[trigger] cs[t]),
        skip_ws_back(cs, j) == 0 || !char_is_whitespace(cs[skip_ws_back(cs, j) - 1]),
    decreases j,
{
    if 0 < j && char_is_whitespace(cs[j - 1]) {
        lemma_skip_ws_back(cs, j - 1);
    }
}

proof fn lemma_skip_class_back(cs: Seq<char>, j: int, w: bool)
    requires
        0 <= j <= cs.len(),
    ensures
        0 <= skip_class_back(cs, j, w) <= j,
        forall|t: int|
            skip_class_back(cs, j, w) <= t < j ==> !char_is_whitespace(#[trigger] cs[t]) && spec_is_word(
                cs[t],
            ) == w,
        skip_class_back(cs, j, w) == 0 || char_is_whitespace(cs[skip_class_back(cs, j, w) - 1])
            || spec_is_word(cs[skip_class_back(cs, j, w) - 1]) != w,
    decreases j,
{
    if 0 < j && spec_is_word(cs[j - 1]) == w && !char_is_whitespace(cs[j - 1]) {
        lemma_skip_class_back(cs, j - 1, w);
    }
}

proof fn lemma_skip_ws_fwd(cs: Seq<char>, j: int)
    requires
        0 <= j <= cs.len(),
    ensures
        j <= skip_ws_fwd(cs, j) <= cs.len(),
        forall|t: int| j <= t < skip_ws_fwd(cs, j) ==> char_is_whitespace(#[trigger] cs[t]),
        skip_ws_fwd(cs, j) == cs.len() || !char_is_whitespace(cs[skip_ws_fwd(cs, j)]),
    decreases cs.len() - j,
{
    if j < cs.len() && char_is_whitespace(cs[j]) {
        lemma_skip_ws_fwd(cs, j + 1);
    }
}

proof fn lemma_skip_class_fwd(cs: Seq<char>, j: int, w: bool)
    requires
        0 <= j <= cs.len(),
    ensures
        j <= skip_class_fwd(cs, j, w) <= cs.len(),
        forall|t: int|
            j <= t < skip_class_fwd(cs, j, w) ==> !char_is_whitespace(#[trigger] cs[t]) && spec_is_word(
                cs[t],
            ) == w,
        skip_class_fwd(cs, j, w) == cs.len() || char_is_whitespace(cs[skip_class_fwd(cs, j, w)])
            || spec_is_word(cs[skip_class_fwd(cs, j, w)]) != w,
    decreases cs.len() - j,
{
    if j < cs.len() && spec_is_word(cs[j]) == w && !char_is_whitespace(cs[j]) {
        lemma_skip_class_fwd(cs, j + 1, w);
    }
}

/// Moving left by a word from the character with index `k`: the result is
/// the offset of a character index `i`, found through an index `j` with
/// `i <= j <= k`.  Only whitespace lies between `j` and `k`, and the
/// character before `j` (if any) is not whitespace.  When there is such a
/// character, every character from `i` to `j` is of its class (word
/// characters, or punctuation) and not whitespace, and the character before
/// `i` (if any) is whitespace or of the other class; at the start of the
/// text the result is 0.  The returned pair is (`i`, `j`).
pub proof fn law_prev_word_offset(cs: Seq<char>, k: int) -> (ij: (int, int))
    requires
        0 <= k <= cs.len(),
    ensures
        0 <= ij.0 <= ij.1 <= k,
        prev_word_offset(cs, offset_of(cs, k) as int) == offset_of(cs, ij.0),
        forall|t: int| ij.1 <= t < k ==> char_is_whitespace(#[trigger] cs[t]),
        ij.1 == 0 ==> ij.0 == 0,
        ij.1 > 0 ==> {
            &&& !char_is_whitespace(cs[ij.1 - 1])
            &&& forall|t: int|
                ij.0 <= t < ij.1 ==> !char_is_whitespace(#[trigger] cs[t]) && spec_is_word(cs[t])
                    == spec_is_word(cs[ij.1 - 1])
            &&& ij.0 == 0 || char_is_whitespace(cs[ij.0 - 1]) || spec_is_word(cs[ij.0 - 1])
                != spec_is_word(cs[ij.1 - 1])
        },
{
    lemma_char_index_unique(cs, k);
    lemma_skip_ws_back(cs, k);
    let j = skip_ws_back(cs, k);
    if j <= 0 {
        lemma_offset_full(cs);
        (0, 0)
    } else {
        let w = spec_is_word(cs[j - 1]);
        lemma_skip_class_back(cs, j, w);
        (skip_class_back(cs, j, w), j)
    }
}

/// Moving right by a word from the character with index `k`: the result is
/// the offset of a character index `i`, found through an index `j` with
/// `k <= j <= i`.  Only whitespace lies between `k` and `j`, and the
/// character at `j` (if any) is not whitespace.  When there is such a
/// character, every character from `j` to `i` is of its class and not
/// whitespace, and the character at `i` (if any) is whitespace or of the
/// other class; at the end of the text the result is the text's length.
/// The returned pair is (`j`, `i`).
pub proof fn law_next_word_offset(cs: Seq<char>, k: int) -> (ji: (int, int))
    requires
        0 <= k <= cs.len(),
    ensures
        k <= ji.0 <= ji.1 <= cs.len(),
        next_word_offset(cs, offset_of(cs, k) as int) == offset_of(cs, ji.1),
        forall|t: int| k <= t < ji.0 ==> char_is_whitespace(#[trigger] cs[t]),
        ji.0 == cs.len() ==> ji.1 == cs.len(),
        ji.0 < cs.len() ==> {
            &&& !char_is_whitespace(cs[ji.0])
            &&& forall|t: int|
                ji.0 <= t < ji.1 ==> !char_is_whitespace(#[trigger] cs[t]) && spec_is_word(cs[t])
                    == spec_is_word(cs[ji.0])
            &&& ji.1 == cs.len() || char_is_whitespace(cs[ji.1]) || spec_is_word(cs[ji.1])
                != spec_is_word(cs[ji.0])
        },
{
    lemma_char_index_unique(cs, k);
    lemma_skip_ws_fwd(cs, k);
    let j = skip_ws_fwd(cs, k);
    if j >= cs.len() {
        lemma_offset_full(cs);
        (j, j)
    } else {
        let w = spec_is_word(cs[j]);
        lemma_skip_class_fwd(cs, j, w);
        (j, skip_class_fwd(cs, j, w))
    }
}

} // verus!
