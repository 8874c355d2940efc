//! Diagnostics published by the language server, looked up by position.

use vstd::prelude::*;
use crate::json::{JsonValue, JsonData, from_serde, to_serde};
use lsp_types::PublishDiagnosticsParams;
use serde_json::{from_value, to_value};

verus! {

/// Severity code of an error (in the protocol's numbering).
pub const SEVERITY_ERROR: i32 = 1;

/// Severity code of a warning.
pub const SEVERITY_WARNING: i32 = 2;

/// A zero-based line and character.
#[derive(Clone, Copy, Debug, PartialEq, Eq, Structural)]
pub struct Position {
    pub line: u32,
    pub character: u32,
}

/// A span of the document, its end excluded.
#[derive(Clone, Copy, Debug, PartialEq, Eq, Structural)]
pub struct DiagRange {
    pub start: Position,
    pub end: Position,
}

/// A diagnostic: where it is, how severe, what it says, and the server's
/// full record of it as JSON, handed back with code-action requests.
#[derive(Debug)]
pub struct DiagnosticEntry {
    pub range: DiagRange,
    pub severity: Option<i32>,
    pub message: String,
    pub raw: JsonValue,
}

pub struct DiagView {
    pub range: DiagRange,
    pub severity: Option<i32>,
    pub message: Seq<char>,
    pub raw: JsonData,
}

impl View for DiagnosticEntry {
    type V = DiagView;

    open spec fn view(&self) -> DiagView {
        DiagView {
            range: self.range,
            severity: self.severity,
            message: self.message@,
            raw: self.raw.data(),
        }
    }
}

impl DiagnosticEntry {
    /// A copy of the diagnostic.
    pub fn duplicate(&self) -> (r: DiagnosticEntry)
        ensures
            r@ == self@,
    {
        DiagnosticEntry {
            range: self.range,
            severity: self.severity,
            message: self.message.clone(),
            raw: crate::json::clone_json(&self.raw),
        }
    }
}

/// Whether (`line`, `col`) lies in the range, its end excluded.
pub open spec fn range_contains(r: DiagRange, line: int, col: int) -> bool {
    &&& r.start.line <= line <= r.end.line
    &&& !(line == r.start.line && col < r.start.character)
    &&& !(line == r.end.line && col >= r.end.character)
}

/// Whether `line` lies between the range's first and last line.
pub open spec fn range_covers_line(r: DiagRange, line: int) -> bool {
    r.start.line <= line <= r.end.line
}

/// Whether the range is empty (starts where it ends).
pub open spec fn range_is_empty(r: DiagRange) -> bool {
    r.start.line == r.end.line && r.start.character == r.end.character
}

/// The diagnostics, in order, that satisfy `f`.
pub open spec fn diags_where(s: Seq<DiagView>, f: spec_fn(DiagView) -> bool) -> Seq<DiagView>
    decreases s.len(),
{
    if s.len() == 0 {
        Seq::empty()
    } else if f(s.last()) {
        diags_where(s.drop_last(), f).push(s.last())
    } else {
        diags_where(s.drop_last(), f)
    }
}

pub open spec fn at_spec(line: int, col: int) -> spec_fn(DiagView) -> bool {
    |d: DiagView| range_contains(d.range, line, col)
}

pub open spec fn on_line_spec(line: int) -> spec_fn(DiagView) -> bool {
    |d: DiagView| range_covers_line(d.range, line)
}

/// Whether a diagnostic marks the character at (`line`, `col`) of a line of
/// `line_len` bytes: it contains the position, or it is empty, covers the line
/// and the column is within the line.
pub open spec fn marks(d: DiagView, line: int, col: int, line_len: int) -> bool {
    range_contains(d.range, line, col) || (range_is_empty(d.range) && range_covers_line(
        d.range,
        line,
    ) && col < line_len)
}

/// Whether an error (or a diagnostic without severity) covers a line.
pub open spec fn is_error_on(d: DiagView, line: int) -> bool {
    range_covers_line(d.range, line) && (d.severity == Some(SEVERITY_ERROR) || d.severity is None)
}

pub open spec fn is_warning_on(d: DiagView, line: int) -> bool {
    range_covers_line(d.range, line) && d.severity == Some(SEVERITY_WARNING)
}

pub open spec fn views(s: Seq<DiagnosticEntry>) -> Seq<DiagView> {
    s.map_values(|d: DiagnosticEntry| d@)
}

pub open spec fn ref_views(s: Seq<&DiagnosticEntry>) -> Seq<DiagView> {
    s.map_values(|d: &DiagnosticEntry| d@)
}

fn contains(range: &DiagRange, line: usize, col: usize) -> (r: bool)
    ensures
        r == range_contains(*range, line as int, col as int),
{
    let start_line = range.start.line as usize;
    let start_col = range.start.character as usize;
    let end_line = range.end.line as usize;
    let end_col = range.end.character as usize;
    if line < start_line || line > end_line {
        return false;
    }
    if line == start_line && col < start_col {
        return false;
    }
    if line == end_line && col >= end_col {
        return false;
    }
    true
}

fn line_in_range(range: &DiagRange, line: usize) -> (r: bool)
    ensures
        r == range_covers_line(*range, line as int),
{
    let start = range.start.line as usize;
    let end = range.end.line as usize;
    start <= line && line <= end
}

fn is_degenerate(range: &DiagRange) -> (r: bool)
    ensures
        r == range_is_empty(*range),
{
    range.start.line == range.end.line && range.start.character == range.end.character
}

/// The latest diagnostics for the open document.
#[derive(Debug)]
pub struct DiagnosticStore {
    diagnostics: Vec<DiagnosticEntry>,
}

impl View for DiagnosticStore {
    type V = Seq<DiagView>;

    closed spec fn view(&self) -> Seq<DiagView> {
        views(self.diagnostics@)
    }
}

impl Default for DiagnosticStore {
    fn default() -> (s: DiagnosticStore)
        ensures
            s@.len() == 0,
    {
        let s = DiagnosticStore { diagnostics: Vec::new() };
        proof {
            assert(s@ =~= Seq::<DiagView>::empty());
        }
        s
    }
}

impl DiagnosticStore {
    /// Replaces the stored diagnostics.
    pub fn set(&mut self, diagnostics: Vec<DiagnosticEntry>)
        ensures
            final(self)@ == views(diagnostics@),
    {
        self.diagnostics = diagnostics;
    }

    /// The diagnostics on a line, in order.
    pub fn on_line(&self, line: usize) -> (r: Vec<&DiagnosticEntry>)
        ensures
            ref_views(r@) == diags_where(self@, on_line_spec(line as int)),
    {
        let ghost s = self@;
        let mut out: Vec<&DiagnosticEntry> = Vec::new();
        let mut i: usize = 0;
        proof {
            assert(s.take(0) =~= Seq::<DiagView>::empty());
            assert(ref_views(out@) =~= Seq::<DiagView>::empty());
        }
        while i < self.diagnostics.len()
            invariant
                s == self@,
                i <= self.diagnostics@.len(),
                ref_views(out@) == diags_where(s.take(i as int), on_line_spec(line as int)),
            decreases self.diagnostics@.len() - i,
        {
            proof {
                assert(s.take(i + 1).drop_last() =~= s.take(i as int));
                assert(s.take(i + 1).last() == self.diagnostics@[i as int]@);
            }
            let d = &self.diagnostics[i];
            if line_in_range(&d.range, line) {
                let ghost before = out@;
                out.push(d);
                proof {
                    assert(ref_views(out@) =~= ref_views(before).push(d@));
                }
            }
            i = i + 1;
        }
        proof {
            assert(s.take(i as int) =~= s);
        }
        out
    }

    /// Copies of the diagnostics that satisfy `f`.
    fn collect_at(&self, line: usize, col: usize) -> (r: Vec<DiagnosticEntry>)
        ensures
            views(r@) == diags_where(self@, at_spec(line as int, col as int)),
    {
        let ghost s = self@;
        let mut out: Vec<DiagnosticEntry> = Vec::new();
        let mut i: usize = 0;
        proof {
            assert(s.take(0) =~= Seq::<DiagView>::empty());
            assert(views(out@) =~= Seq::<DiagView>::empty());
        }
        while i < self.diagnostics.len()
            invariant
                s == self@,
                i <= self.diagnostics@.len(),
                views(out@) == diags_where(s.take(i as int), at_spec(line as int, col as int)),
            decreases self.diagnostics@.len() - i,
        {
            proof {
                assert(s.take(i + 1).drop_last() =~= s.take(i as int));
                assert(s.take(i + 1).last() == self.diagnostics@[i as int]@);
            }
            if contains(&self.diagnostics[i].range, line, col) {
                let d = self.diagnostics[i].duplicate();
                let ghost before = out@;
                out.push(d);
                proof {
                    assert(views(out@) =~= views(before).push(d@));
                }
            }
            i = i + 1;
        }
        proof {
            assert(s.take(i as int) =~= s);
        }
        out
    }

    /// The diagnostics that contain the position; if none do, those on its
    /// line.
    pub fn at_position(&self, line: usize, col: usize) -> (r: Vec<DiagnosticEntry>)
        ensures
            views(r@) == if diags_where(self@, at_spec(line as int, col as int)).len() > 0 {
                diags_where(self@, at_spec(line as int, col as int))
            } else {
                diags_where(self@, on_line_spec(line as int))
            },
    {
        let exact = self.collect_at(line, col);
        if exact.len() == 0 {
            let refs = self.on_line(line);
            let mut out: Vec<DiagnosticEntry> = Vec::new();
            let mut i: usize = 0;
            while i < refs.len()
                invariant
                    i <= refs@.len(),
                    out@.len() == i,
                    forall|k: int| 0 <= k < i ==> (#[trigger] out@[k])@ == refs@[k]@,
                decreases refs@.len() - i,
            {
                out.push(refs[i].duplicate());
                i = i + 1;
            }
            proof {
                assert(views(out@) =~= ref_views(refs@));
            }
            out
        } else {
            exact
        }
    }

    /// Whether some diagnostic marks the character at (`line`, `col`) of a
    /// line of `line_len` bytes.
    pub fn highlights_position(&self, line: usize, col: usize, line_len: usize) -> (r: bool)
        ensures
            r == exists|i: int|
                0 <= i < self@.len() && marks(
                    #[trigger] self@[i],
                    line as int,
                    col as int,
                    line_len as int,
                ),
    {
        let mut i: usize = 0;
        while i < self.diagnostics.len()
            invariant
                i <= self.diagnostics@.len(),
                forall|k: int|
                    0 <= k < i ==> !marks(
                        #[trigger] self@[k],
                        line as int,
                        col as int,
                        line_len as int,
                    ),
            decreases self.diagnostics@.len() - i,
        {
            let range = &self.diagnostics[i].range;
            if contains(range, line, col) || (is_degenerate(range) && line_in_range(range, line)
                && col < line_len) {
                proof {
                    assert(self@[i as int] == self.diagnostics@[i as int]@);
                    assert(marks(self@[i as int], line as int, col as int, line_len as int));
                }
                return true;
            }
            proof {
                assert(self@[i as int] == self.diagnostics@[i as int]@);
            }
            i = i + 1;
        }
        false
    }

    /// Whether an error, or a diagnostic without severity, covers the line.
    pub fn has_error_on_line(&self, line: usize) -> (r: bool)
        ensures
            r == exists|i: int| 0 <= i < self@.len() && is_error_on(#[trigger] self@[i], line as int),
    {
        let mut i: usize = 0;
        while i < self.diagnostics.len()
            invariant
                i <= self.diagnostics@.len(),
                forall|k: int| 0 <= k < i ==> !is_error_on(#[trigger] self@[k], line as int),
            decreases self.diagnostics@.len() - i,
        {
            let d = &self.diagnostics[i];
            proof {
                assert(self@[i as int] == d@);
            }
            let error = match d.severity {
                Some(s) => s == SEVERITY_ERROR,
                None => true,
            };
            if line_in_range(&d.range, line) && error {
                return true;
            }
            i = i + 1;
        }
        false
    }

    /// Whether a warning covers the line.
    pub fn has_warning_on_line(&self, line: usize) -> (r: bool)
        ensures
            r == exists|i: int| 0 <= i < self@.len() && is_warning_on(#[trigger] self@[i], line as int),
    {
        let mut i: usize = 0;
        while i < self.diagnostics.len()
            invariant
                i <= self.diagnostics@.len(),
                forall|k: int| 0 <= k < i ==> !is_warning_on(#[trigger] self@[k], line as int),
            decreases self.diagnostics@.len() - i,
        {
            let d = &self.diagnostics[i];
            proof {
                assert(self@[i as int] == d@);
            }
            let warning = match d.severity {
                Some(s) => s == SEVERITY_WARNING,
                None => false,
            };
            if line_in_range(&d.range, line) && warning {
                return true;
            }
            i = i + 1;
        }
        false
    }
}

/// The diagnostics that `serde_json::from_value` reads, as
/// `lsp_types::PublishDiagnosticsParams`, from a `publishDiagnostics`
/// notification's parameters; none where they do not read as such.
pub uninterp spec fn published_diagnostics(params: JsonData) -> Option<Seq<DiagView>>;

/// Reads a `publishDiagnostics` notification's parameters with
/// `serde_json::from_value` into `lsp_types::PublishDiagnosticsParams`, and
/// gives each diagnostic's range, severity number, message and full record
/// (`serde_json::to_value`). The result is named `published_diagnostics`.
#[verifier::external_body]
pub(crate) fn diagnostics_of(params: &JsonValue) -> (r: Option<Vec<DiagnosticEntry>>)
    ensures
        match r {
            Some(v) => published_diagnostics(params.data()) == Some(views(v@)),
            None => published_diagnostics(params.data()) is None,
        },
{
    let p: PublishDiagnosticsParams = from_value(to_serde(params)).ok()?;
    Some(p.diagnostics.into_iter().map(|d| DiagnosticEntry {
        range: DiagRange {
            start: Position { line: d.range.start.line, character: d.range.start.character },
            end: Position { line: d.range.end.line, character: d.range.end.character },
        },
        severity: d.severity.and_then(|s| to_value(s).ok()?.as_i64()?.try_into().ok()),
        raw: to_value(&d).map(|v| from_serde(&v)).unwrap_or(JsonValue::Null),
        message: d.message,
    }).collect())
}

/// Whether position (`l1`, `c1`) comes before (`l2`, `c2`) in a text: an
/// earlier line, or the same line and an earlier character.
pub open spec fn position_before(l1: int, c1: int, l2: int, c2: int) -> bool {
    l1 < l2 || (l1 == l2 && c1 < c2)
}

/// A range contains exactly the positions from its start (included) to its
/// end (excluded) in text order: on a line strictly between its first and
/// last line every column is inside, the start character bounds only the
/// first line and the end character only the last.  Such a position is
/// marked, whatever the line's length.
pub proof fn law_range_contains_positions(d: DiagView, line: int, col: int, line_len: int)
    ensures
        range_contains(d.range, line, col) == (!position_before(
            line,
            col,
            d.range.start.line as int,
            d.range.start.character as int,
        ) && position_before(line, col, d.range.end.line as int, d.range.end.character as int)),
        d.range.start.line < line < d.range.end.line ==> range_contains(d.range, line, col) && marks(
            d,
            line,
            col,
            line_len,
        ),
        d.range.start.line < line < d.range.end.line ==> at_spec(line, col)(d),
        range_contains(d.range, line, col) ==> range_covers_line(d.range, line) && on_line_spec(line)(d),
        range_covers_line(d.range, line) == (d.range.start.line <= line && line <= d.range.end.line),
{
}

} // verus!
