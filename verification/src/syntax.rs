//! Highlighted text: the segments a highlighted line is drawn from, the
//! steps around the highlighter (cutting the text into lines, dropping what
//! it reports past a line's end), and the cache of highlighted lines that is
//! filled line by line as the view needs them.

use vstd::prelude::*;
use syntect::easy::HighlightLines;
use syntect::highlighting::{HighlightState, Theme, ThemeSet};
use syntect::parsing::{ParseState, SyntaxSet};
use crate::text::{
    chars_of, push_char, push_str, utf8_len, utf8_len_of, offset_of, is_char_offset, char_index,
    find_char_index, char_offsets, str_eq,
};
use crate::view::{Color, truncated, truncate_at};

verus! {

/// A run of highlighted text.
#[derive(Clone, Debug)]
pub struct StyledSegment {
    pub text: String,
    pub fg: Option<Color>,
}

pub open spec fn segment_view(s: StyledSegment) -> (Seq<char>, Option<Color>) {
    (s.text@, s.fg)
}

pub open spec fn segment_views(s: Seq<StyledSegment>) -> Seq<(Seq<char>, Option<Color>)> {
    s.map_values(|x: StyledSegment| segment_view(x))
}

/// The text from byte `off` on; empty where `off` is past the end or falls
/// inside a character.
pub open spec fn rest_from(t: Seq<char>, off: int) -> Seq<char> {
    if is_char_offset(t, off) {
        t.skip(char_index(t, off))
    } else {
        Seq::empty()
    }
}

/// The index of the first newline, or the length when there is none.
pub open spec fn newline_index(cs: Seq<char>) -> nat
    decreases cs.len(),
{
    if cs.len() == 0 {
        0
    } else if cs[0] == '\n' {
        0
    } else {
        1 + newline_index(cs.drop_first())
    }
}

/// The line that starts at byte `off`, without its newline, and the offset
/// where the next line starts: just past the newline, or the end of the
/// text after the last line.
pub open spec fn line_at_spec(t: Seq<char>, off: int) -> (Seq<char>, int) {
    let rest = rest_from(t, off);
    let n = newline_index(rest);
    if n < rest.len() {
        (rest.take(n as int), offset_of(t, char_index(t, off) + n + 1) as int)
    } else {
        (rest, utf8_len(t) as int)
    }
}

proof fn lemma_newline_index(cs: Seq<char>)
    ensures
        newline_index(cs) <= cs.len(),
        newline_index(cs) < cs.len() ==> cs[newline_index(cs) as int] == '\n',
        forall|j: int| 0 <= j < newline_index(cs) ==> cs[j] != '\n',
    decreases cs.len(),
{
    if cs.len() > 0 && cs[0] != '\n' {
        lemma_newline_index(cs.drop_first());
        assert forall|j: int| 0 <= j < newline_index(cs) implies cs[j] != '\n' by {
            if j > 0 {
                assert(cs[j] == cs.drop_first()[j - 1]);
            }
        }
    }
}

proof fn lemma_newline_index_of(cs: Seq<char>, k: int)
    requires
        0 <= k <= cs.len(),
        k < cs.len() ==> cs[k] == '\n',
        forall|j: int| 0 <= j < k ==> cs[j] != '\n',
    ensures
        newline_index(cs) == k,
    decreases cs.len(),
{
    if cs.len() > 0 && k > 0 {
        assert(cs[0] != '\n');
        assert forall|j: int| 0 <= j < k - 1 implies cs.drop_first()[j] != '\n' by {
            assert(cs.drop_first()[j] == cs[j + 1]);
        }
        lemma_newline_index_of(cs.drop_first(), k - 1);
    }
}

/// The line that starts at byte `byte_offset` of `text`, without its
/// newline, and the offset where the next line starts.
pub fn line_at(text: &str, byte_offset: usize) -> (r: (String, usize))
    ensures
        (r.0@, r.1 as int) == line_at_spec(text@, byte_offset as int),
{
    let cs = chars_of(text);
    let k = match find_char_index(&cs, byte_offset) {
        Some(k) => k,
        None => {
            proof {
                lemma_newline_index(Seq::<char>::empty());
            }
            return (String::new(), utf8_len_of(text));
        },
    };
    let ghost rest = cs@.skip(k as int);
    let mut line = String::new();
    let mut i: usize = k;
    while i < cs.len() && cs[i] != '\n'
        invariant
            k <= i <= cs@.len(),
            rest == cs@.skip(k as int),
            line@ == cs@.subrange(k as int, i as int),
            forall|j: int| k <= j < i ==> cs@[j] != '\n',
        decreases cs@.len() - i,
    {
        push_char(&mut line, cs[i]);
        proof {
            assert(cs@.subrange(k as int, i + 1) =~= cs@.subrange(k as int, i as int).push(cs@[i as int]));
        }
        i = i + 1;
    }
    proof {
        assert forall|j: int| 0 <= j < i - k implies rest[j] != '\n' by {
            assert(rest[j] == cs@[k + j]);
        }
        if i < cs.len() {
            assert(rest[i - k] == cs@[i as int]);
        }
        lemma_newline_index_of(rest, i - k);
        assert(rest.take(i - k) =~= cs@.subrange(k as int, i as int));
        if i == cs.len() {
            assert(rest =~= cs@.subrange(k as int, i as int));
        }
    }
    if i < cs.len() {
        let offs = char_offsets(&cs);
        (line, offs[i + 1])
    } else {
        (line, utf8_len_of(text))
    }
}

/// What is kept of a highlighter's styled ranges for a line of
/// `remaining` bytes: each range cut to the bytes left, ranges past the end
/// dropped, and a range whose cut would fall inside a character, or would
/// be empty, left out.
pub open spec fn kept_ranges(ranges: Seq<(Option<Color>, Seq<char>)>, remaining: nat) -> Seq<(Seq<char>, Option<Color>)>
    decreases ranges.len(),
{
    if ranges.len() == 0 || remaining == 0 {
        Seq::empty()
    } else {
        let fg = ranges[0].0;
        let t = ranges[0].1;
        let take: nat = if utf8_len(t) < remaining {
            utf8_len(t)
        } else {
            remaining
        };
        (match truncated(t, take) {
            Some(p) => if p.len() > 0 {
                seq![(p, fg)]
            } else {
                Seq::empty()
            },
            None => Seq::empty(),
        }) + kept_ranges(ranges.drop_first(), (remaining - take) as nat)
    }
}

pub open spec fn range_views(ranges: Seq<(Option<Color>, String)>) -> Seq<(Option<Color>, Seq<char>)> {
    ranges.map_values(|r: (Option<Color>, String)| (r.0, r.1@))
}

/// The segments of a line of `line_len` bytes from the highlighter's styled
/// ranges, which also cover the newline it was given.
pub fn trim_highlighted_newline(ranges: Vec<(Option<Color>, String)>, line_len: usize) -> (r: Vec<StyledSegment>)
    ensures
        segment_views(r@) == kept_ranges(range_views(ranges@), line_len as nat),
{
    let ghost rv = range_views(ranges@);
    let mut remaining = line_len;
    let mut segments: Vec<StyledSegment> = Vec::new();
    let mut i: usize = 0;
    proof {
        assert(rv.skip(0) =~= rv);
        assert(segment_views(segments@) =~= Seq::<(Seq<char>, Option<Color>)>::empty());
    }
    while i < ranges.len()
        invariant
            i <= ranges@.len(),
            rv == range_views(ranges@),
            segment_views(segments@) + kept_ranges(rv.skip(i as int), remaining as nat) == kept_ranges(
                rv,
                line_len as nat,
            ),
        decreases ranges@.len() - i,
    {
        let ghost before = segment_views(segments@);
        let ghost tail = rv.skip(i as int);
        if remaining == 0 {
            proof {
                assert(kept_ranges(tail, 0) =~= Seq::<(Seq<char>, Option<Color>)>::empty());
                assert(before + Seq::<(Seq<char>, Option<Color>)>::empty() =~= before);
            }
            return segments;
        }
        let fg = ranges[i].0;
        let t = ranges[i].1.as_str();
        proof {
            assert(tail[0] == (fg, t@));
            assert(tail.drop_first() =~= rv.skip(i + 1));
        }
        let len = utf8_len_of(t);
        let take = if len < remaining {
            len
        } else {
            remaining
        };
        match truncate_at(t, take) {
            Some(p) => {
                if chars_of(p.as_str()).len() > 0 {
                    let ghost pv = p@;
                    segments.push(StyledSegment { text: p, fg });
                    proof {
                        assert(segment_views(segments@) =~= before + seq![(pv, fg)]);
                    }
                }
            },
            None => {},
        }
        remaining = remaining - take;
        i = i + 1;
    }
    proof {
        assert(rv.skip(i as int) =~= Seq::<(Option<Color>, Seq<char>)>::empty());
        assert(segment_views(segments@) + Seq::<(Seq<char>, Option<Color>)>::empty() =~= segment_views(segments@));
    }
    segments
}

/// A highlighter colour as a terminal colour: none for a transparent one.
pub fn syn_to_term(r: u8, g: u8, b: u8, a: u8) -> (c: Option<Color>)
    ensures
        c == (if a == 0 {
            None
        } else {
            Some(Color::Rgb { r, g, b })
        }),
{
    if a == 0 {
        None
    } else {
        Some(Color::Rgb { r, g, b })
    }
}

#[verifier::external_type_specification]
#[verifier::external_body]
pub struct ExSyntaxSet(SyntaxSet);

#[verifier::external_type_specification]
#[verifier::external_body]
pub struct ExTheme(Theme);

#[verifier::external_type_specification]
#[verifier::external_body]
pub struct ExHighlightState(HighlightState);

#[verifier::external_type_specification]
#[verifier::external_body]
pub struct ExParseState(ParseState);

/// Whether a highlighter state parses with the grammars of `ps`: it was
/// built from one of them, or left by highlighting with `ps`. syntect's
/// `ParseState::parse_line` may panic when handed another grammar set.
pub uninterp spec fn parses_with(ps: SyntaxSet, state: (HighlightState, ParseState)) -> bool;

/// The highlighter's state before the first line of a file in the grammar
/// of `ps` called `name`; none where `ps` has no grammar of that name.
pub uninterp spec fn initial_state(ps: SyntaxSet, theme: Theme, name: Seq<char>) -> Option<(HighlightState, ParseState)>;

/// Finds the grammar with `SyntaxSet::find_syntax_by_name` and makes the
/// state with `HighlightLines::new`, taken apart by `HighlightLines::state`.
/// The result is named `initial_state`; it parses with `ps`.
#[verifier::external_body]
fn start_state(ps: &SyntaxSet, theme: &Theme, name: &str) -> (r: Option<(HighlightState, ParseState)>)
    ensures
        r == initial_state(*ps, *theme, name@),
        r matches Some(st) ==> parses_with(*ps, st),
{
    ps.find_syntax_by_name(name).map(|syntax| HighlightLines::new(syntax, theme).state())
}

/// The styled ranges (foreground red, green, blue and alpha, and text) that
/// highlighting `line` from `state` gives; none where the parser fails.
pub uninterp spec fn highlighted_ranges(
    ps: SyntaxSet,
    theme: Theme,
    state: (HighlightState, ParseState),
    line: Seq<char>,
) -> Option<Seq<((u8, u8, u8, u8), Seq<char>)>>;

/// The state highlighting `line` from `state` leaves for the next line.
pub uninterp spec fn next_state(
    ps: SyntaxSet,
    theme: Theme,
    state: (HighlightState, ParseState),
    line: Seq<char>,
) -> (HighlightState, ParseState);

/// The texts of styled ranges, one after another.
pub open spec fn range_texts(rs: Seq<((u8, u8, u8, u8), Seq<char>)>) -> Seq<char>
    decreases rs.len(),
{
    if rs.len() == 0 {
        Seq::empty()
    } else {
        rs[0].1 + range_texts(rs.drop_first())
    }
}

pub open spec fn raw_range_views(v: Seq<((u8, u8, u8, u8), String)>) -> Seq<((u8, u8, u8, u8), Seq<char>)> {
    v.map_values(|r: ((u8, u8, u8, u8), String)| (r.0, r.1@))
}

/// Highlights one line from a state with `HighlightLines::from_state` and
/// `HighlightLines::highlight_line`, and gives back the styled ranges (each
/// with its foreground colour's red, green, blue and alpha) and, through
/// `HighlightLines::state`, the state for the next line; no ranges where the
/// parser fails. The ranges are named `highlighted_ranges`, the state
/// `next_state`; as syntect documents, the ranges' texts make up the line.
#[verifier::external_body]
fn highlight_next(
    ps: &SyntaxSet,
    theme: &Theme,
    state: (HighlightState, ParseState),
    line: &str,
) -> (r: (Option<Vec<((u8, u8, u8, u8), String)>>, (HighlightState, ParseState)))
    requires
        parses_with(*ps, state),
    ensures
        match r.0 {
            Some(v) => highlighted_ranges(*ps, *theme, state, line@) == Some(raw_range_views(v@)),
            None => highlighted_ranges(*ps, *theme, state, line@) is None,
        },
        r.1 == next_state(*ps, *theme, state, line@),
        parses_with(*ps, r.1),
        r.0 matches Some(v) ==> range_texts(raw_range_views(v@)) == line@,
{
    let mut h = HighlightLines::from_state(theme, state.0, state.1);
    let ranges = h.highlight_line(line, ps).ok().map(|rs| {
        rs.into_iter().map(|(style, text)| {
            let c = style.foreground;
            ((c.r, c.g, c.b, c.a), text.to_owned())
        }).collect()
    });
    (ranges, h.state())
}

/// syntect's bundled grammars, from `SyntaxSet::load_defaults_newlines`.
#[verifier::external_body]
fn default_syntaxes() -> (r: SyntaxSet) {
    SyntaxSet::load_defaults_newlines()
}

/// The bundled theme `ThemeSet::load_defaults` holds under a name, if any.
pub uninterp spec fn bundled_theme(name: Seq<char>) -> Option<Theme>;

/// Looks a theme up among syntect's bundled ones; the result is named
/// `bundled_theme`.
#[verifier::external_body]
fn bundled_theme_named(name: &str) -> (r: Option<Theme>)
    ensures
        r == bundled_theme(name@),
{
    ThemeSet::load_defaults().themes.get(name).cloned()
}

/// The first of syntect's bundled themes, if there is one. Which theme it
/// is is not stated.
#[verifier::external_body]
fn any_bundled_theme() -> (r: Option<Theme>) {
    ThemeSet::load_defaults().themes.values().next().cloned()
}

/// The theme the editor starts with: the configured one when it was loaded
/// from its file, or, when no file of that name exists, the bundled theme of
/// that name; else `base16-ocean.dark` (`from_file` is `None` where no file
/// has the configured name, and the outcome of loading it where one has).
pub open spec fn chosen_theme(configured: Option<Seq<char>>, from_file: Option<Option<Theme>>) -> Option<(Theme, Seq<char>)> {
    match configured {
        Some(c) => match from_file {
            Some(Some(t)) => Some((t, c)),
            Some(None) => None,
            None => match bundled_theme(c) {
                Some(t) => Some((t, c)),
                None => None,
            },
        },
        None => None,
    }
}

/// The colour theme, and the name it is shown under.
pub struct SyntaxHighlighter {
    pub theme: Theme,
    pub theme_name: String,
}

impl SyntaxHighlighter {
    /// Picks the theme: see `chosen_theme`; without it, the bundled
    /// `base16-ocean.dark`, else the first bundled theme under that name.
    /// `None` only where syntect bundles no theme at all.
    pub fn new(configured: Option<&str>, from_file: Option<Option<Theme>>) -> (r: Option<SyntaxHighlighter>)
        ensures
            match chosen_theme(opt_chars(configured), from_file) {
                Some((t, n)) => r matches Some(h) && h.theme == t && h.theme_name@ == n,
                None => {
                    &&& r matches Some(h) ==> h.theme_name@ == "base16-ocean.dark"@
                    &&& bundled_theme("base16-ocean.dark"@) matches Some(t) ==> r matches Some(h) && h.theme == t
                },
            },
    {
        proof {
            reveal_strlit("base16-ocean.dark");
        }
        match configured {
            Some(c) => {
                let picked = match from_file {
                    Some(Some(t)) => Some(t),
                    Some(None) => None,
                    None => bundled_theme_named(c),
                };
                if let Some(t) = picked {
                    return Some(SyntaxHighlighter { theme: t, theme_name: c.to_owned() });
                }
            },
            None => {},
        }
        let fallback = match bundled_theme_named("base16-ocean.dark") {
            Some(t) => Some(t),
            None => any_bundled_theme(),
        };
        match fallback {
            Some(t) => Some(SyntaxHighlighter { theme: t, theme_name: "base16-ocean.dark".to_owned() }),
            None => None,
        }
    }

    pub fn theme_name(&self) -> (r: &str)
        ensures
            r@ == self.theme_name@,
    {
        self.theme_name.as_str()
    }

    pub fn theme(&self) -> (r: &Theme)
        ensures
            *r == self.theme,
    {
        &self.theme
    }
}

/// Highlighted lines of one version of a file, kept to be drawn again, with
/// the grammars they are parsed with and where highlighting stopped.
pub struct SyntaxCache {
    ps: SyntaxSet,
    version: Option<i32>,
    path: Option<String>,
    line_count: usize,
    highlighted: Vec<Vec<StyledSegment>>,
    parsed_bytes: usize,
    state: Option<(HighlightState, ParseState)>,
}

/// The mathematical form of a cache.
pub struct SyntaxCacheView {
    pub ps: SyntaxSet,
    pub version: Option<i32>,
    pub path: Option<Seq<char>>,
    pub line_count: nat,
    pub highlighted: Seq<Seq<(Seq<char>, Option<Color>)>>,
    pub parsed_bytes: nat,
    pub state: Option<(HighlightState, ParseState)>,
}

pub open spec fn opt_chars(p: Option<&str>) -> Option<Seq<char>> {
    match p {
        Some(s) => Some(s@),
        None => None,
    }
}

impl View for SyntaxCache {
    type V = SyntaxCacheView;

    closed spec fn view(&self) -> SyntaxCacheView {
        SyntaxCacheView {
            ps: self.ps,
            version: self.version,
            path: match self.path {
                Some(p) => Some(p@),
                None => None,
            },
            line_count: self.line_count as nat,
            highlighted: self.highlighted@.map_values(|v: Vec<StyledSegment>| segment_views(v@)),
            parsed_bytes: self.parsed_bytes as nat,
            state: self.state,
        }
    }
}

impl SyntaxCacheView {
    /// Whether the cache holds lines of this version of this file.
    pub open spec fn matches(self, path: Option<Seq<char>>, version: i32, line_count: nat) -> bool {
        self.version == Some(version) && self.path == path && self.line_count == line_count
    }

    /// The cache kept where it matches the file, else emptied for it.
    pub open spec fn prepared(self, path: Option<Seq<char>>, version: i32, line_count: nat) -> SyntaxCacheView {
        if self.matches(path, version, line_count) {
            self
        } else {
            SyntaxCacheView {
                version: Some(version),
                path,
                line_count,
                highlighted: Seq::empty(),
                parsed_bytes: 0,
                state: None,
                ..self
            }
        }
    }
}

/// The number of lines wanted to show line `through`: up to it, within the
/// file.
pub open spec fn requested_lines(through: int, line_count: nat) -> nat {
    if through + 1 < line_count {
        (through + 1) as nat
    } else {
        line_count
    }
}

/// A highlighter colour, given as red, green, blue and alpha, as a
/// terminal colour.
pub open spec fn term_color(c: (u8, u8, u8, u8)) -> Option<Color> {
    if c.3 == 0 {
        None
    } else {
        Some(Color::Rgb { r: c.0, g: c.1, b: c.2 })
    }
}

pub open spec fn term_ranges(rs: Seq<((u8, u8, u8, u8), Seq<char>)>) -> Seq<(Option<Color>, Seq<char>)> {
    rs.map_values(|r: ((u8, u8, u8, u8), Seq<char>)| (term_color(r.0), r.1))
}

/// What the highlighter is handed for line number `idx`: the line, with its
/// newline unless it is the file's last.
pub open spec fn line_input(line: Seq<char>, idx: int, line_count: nat) -> Seq<char> {
    if idx + 1 < line_count {
        line.push('\n')
    } else {
        line
    }
}

/// The segments of a line: the highlighter's ranges cut to the line, or the
/// whole line unstyled where the parser failed or no grammar was found.
pub open spec fn line_segments(
    ps: SyntaxSet,
    theme: Theme,
    st: Option<(HighlightState, ParseState)>,
    input: Seq<char>,
    line: Seq<char>,
) -> Seq<(Seq<char>, Option<Color>)> {
    match st {
        Some(s) => match highlighted_ranges(ps, theme, s, input) {
            Some(rs) => kept_ranges(term_ranges(rs), utf8_len(line)),
            None => seq![(line, None::<Color>)],
        },
        None => seq![(line, None::<Color>)],
    }
}

pub open spec fn state_after(
    ps: SyntaxSet,
    theme: Theme,
    st: Option<(HighlightState, ParseState)>,
    input: Seq<char>,
) -> Option<(HighlightState, ParseState)> {
    match st {
        Some(s) => Some(next_state(ps, theme, s, input)),
        None => None,
    }
}

/// Highlighting `n` lines of `t`, the first starting at byte `off` and being
/// line number `idx`, from state `st`: the lines' segments, the state left,
/// and where the next line starts.
pub open spec fn highlight_run(
    ps: SyntaxSet,
    theme: Theme,
    st: Option<(HighlightState, ParseState)>,
    t: Seq<char>,
    off: int,
    idx: int,
    n: nat,
    line_count: nat,
) -> (Seq<Seq<(Seq<char>, Option<Color>)>>, Option<(HighlightState, ParseState)>, int)
    decreases n,
{
    if n == 0 {
        (Seq::empty(), st, off)
    } else {
        let (segs, s, o) = highlight_run(ps, theme, st, t, off, idx, (n - 1) as nat, line_count);
        let line = line_at_spec(t, o).0;
        let input = line_input(line, idx + n - 1, line_count);
        (
            segs.push(line_segments(ps, theme, s, input, line)),
            state_after(ps, theme, s, input),
            line_at_spec(t, o).1,
        )
    }
}

/// The highlighter's ranges with their colours as terminal colours.
fn ranges_from(rs: &Vec<((u8, u8, u8, u8), String)>) -> (r: Vec<(Option<Color>, String)>)
    ensures
        range_views(r@) == term_ranges(raw_range_views(rs@)),
{
    let mut r: Vec<(Option<Color>, String)> = Vec::new();
    let mut i: usize = 0;
    while i < rs.len()
        invariant
            i <= rs@.len(),
            r@.len() == i,
            forall|j: int| 0 <= j < i ==> (#[trigger] r@[j]).0 == term_color(rs@[j].0) && r@[j].1@ == rs@[j].1@,
        decreases rs@.len() - i,
    {
        let (c, text) = &rs[i];
        let fg = syn_to_term(c.0, c.1, c.2, c.3);
        r.push((fg, text.clone()));
        i = i + 1;
    }
    proof {
        assert(range_views(r@) =~= term_ranges(raw_range_views(rs@)));
    }
    r
}

impl Default for SyntaxCache {
    /// An empty cache over syntect's bundled grammars.
    fn default() -> (c: SyntaxCache)
        ensures
            c.wf(),
            c@.version is None,
            c@.path is None,
            c@.line_count == 0,
            c@.highlighted.len() == 0,
            c@.parsed_bytes == 0,
            c@.state is None,
    {
        SyntaxCache {
            ps: default_syntaxes(),
            version: None,
            path: None,
            line_count: 0,
            highlighted: Vec::new(),
            parsed_bytes: 0,
            state: None,
        }
    }
}

impl SyntaxCache {
    /// The cache's invariant: a kept highlighter state parses with its
    /// grammars.
    pub closed spec fn wf(&self) -> bool {
        self.state matches Some(st) ==> parses_with(self.ps, st)
    }

    /// The grammars lines are parsed with.
    pub fn syntax_set(&self) -> (r: &SyntaxSet)
        ensures
            *r == self@.ps,
    {
        &self.ps
    }

    /// Whether the cache holds lines of this version of this file.
    fn matches(&self, path: Option<&str>, version: i32, line_count: usize) -> (r: bool)
        ensures
            r == self@.matches(opt_chars(path), version, line_count as nat),
    {
        let same_path = match (&self.path, path) {
            (Some(a), Some(b)) => str_eq(a.as_str(), b),
            (None, None) => true,
            _ => false,
        };
        self.version == Some(version) && same_path && self.line_count == line_count
    }

    fn reset(&mut self, path: Option<&str>, version: i32, line_count: usize)
        ensures
            final(self)@ == (SyntaxCacheView {
                version: Some(version),
                path: opt_chars(path),
                line_count: line_count as nat,
                highlighted: Seq::empty(),
                parsed_bytes: 0,
                state: None,
                ..old(self)@
            }),
    {
        self.version = Some(version);
        self.path = match path {
            Some(p) => Some(p.to_owned()),
            None => None,
        };
        self.line_count = line_count;
        self.highlighted = Vec::new();
        self.parsed_bytes = 0;
        self.state = None;
        proof {
            assert(self@.highlighted =~= Seq::<Seq<(Seq<char>, Option<Color>)>>::empty());
        }
    }

    /// The highlighted segments of line `line_idx`; none for a line not
    /// highlighted yet.
    pub fn line(&self, line_idx: usize) -> (r: &[StyledSegment])
        ensures
            segment_views(r@) == (if line_idx < self@.highlighted.len() {
                self@.highlighted[line_idx as int]
            } else {
                Seq::empty()
            }),
    {
        if line_idx < self.highlighted.len() {
            self.highlighted[line_idx].as_slice()
        } else {
            let r: &[StyledSegment] = &[];
            proof {
                assert(segment_views(r@) =~= Seq::<(Seq<char>, Option<Color>)>::empty());
            }
            r
        }
    }

    /// The highlighted lines, line `i` at entry `i`.
    pub fn lines(&self) -> (r: &[Vec<StyledSegment>])
        ensures
            r@.map_values(|v: Vec<StyledSegment>| segment_views(v@)) == self@.highlighted,
    {
        self.highlighted.as_slice()
    }

    /// Whether showing line `through_line` of this version of the file
    /// takes highlighting more lines.
    pub fn needs_highlighting(&self, path: Option<&str>, version: i32, line_count: usize, through_line: usize) -> (r: bool)
        ensures
            r == (requested_lines(through_line as int, line_count as nat) > self@.prepared(
                opt_chars(path),
                version,
                line_count as nat,
            ).highlighted.len()),
    {
        let requested = if through_line < line_count {
            through_line + 1
        } else {
            line_count
        };
        if self.matches(path, version, line_count) {
            requested > self.highlighted.len()
        } else {
            requested > 0
        }
    }

    /// Highlights the lines of `text` (this version of the file at `path`,
    /// of `line_count` lines, in the grammar called `syntax_name`) up to line
    /// `through_line`, going on from the line and the highlighter state where
    /// it stopped; the cache is emptied first where it holds another version
    /// or file.
    pub fn ensure_highlighted(
        &mut self,
        theme: &Theme,
        syntax_name: &str,
        path: Option<&str>,
        version: i32,
        line_count: usize,
        through_line: usize,
        text: &str,
    )
        requires
            old(self).wf(),
        ensures
            final(self).wf(),
            ({
                let p = old(self)@.prepared(opt_chars(path), version, line_count as nat);
                let req = requested_lines(through_line as int, line_count as nat);
                let start = if p.parsed_bytes < utf8_len(text@) {
                    p.parsed_bytes as int
                } else {
                    utf8_len(text@) as int
                };
                let st = match p.state {
                    Some(s) => Some(s),
                    None => initial_state(p.ps, *theme, syntax_name@),
                };
                let run = highlight_run(
                    p.ps,
                    *theme,
                    st,
                    text@,
                    start,
                    p.highlighted.len() as int,
                    (req - p.highlighted.len()) as nat,
                    line_count as nat,
                );
                if req <= p.highlighted.len() {
                    final(self)@ == p
                } else {
                    final(self)@ == (SyntaxCacheView {
                        highlighted: p.highlighted + run.0,
                        state: run.1,
                        parsed_bytes: run.2 as nat,
                        ..p
                    })
                }
            }),
    {
        if !self.matches(path, version, line_count) {
            self.reset(path, version, line_count);
        }
        let ghost p = self@;
        let requested = if through_line < line_count {
            through_line + 1
        } else {
            line_count
        };
        if requested <= self.highlighted.len() {
            return;
        }
        let mut taken: Option<(HighlightState, ParseState)> = None;
        std::mem::swap(&mut taken, &mut self.state);
        let mut state = match taken {
            Some(st) => Some(st),
            None => start_state(&self.ps, theme, syntax_name),
        };
        let ghost st0 = state;
        let tl = utf8_len_of(text);
        let mut off = if self.parsed_bytes < tl {
            self.parsed_bytes
        } else {
            tl
        };
        let ghost start = off as int;
        let ghost base = self@.highlighted.len();
        proof {
            assert(p.highlighted + Seq::<Seq<(Seq<char>, Option<Color>)>>::empty() =~= p.highlighted);
        }
        while self.highlighted.len() < requested
            invariant
                base == p.highlighted.len(),
                base <= self@.highlighted.len() <= requested,
                requested <= line_count,
                self@.ps == p.ps,
                self@.version == p.version,
                self@.path == p.path,
                self@.line_count == p.line_count,
                self@.parsed_bytes == p.parsed_bytes,
                state matches Some(s) ==> parses_with(self@.ps, s),
                ({
                    let run = highlight_run(
                        p.ps,
                        *theme,
                        st0,
                        text@,
                        start,
                        base as int,
                        (self@.highlighted.len() - base) as nat,
                        line_count as nat,
                    );
                    &&& self@.highlighted == p.highlighted + run.0
                    &&& state == run.1
                    &&& off as int == run.2
                }),
            decreases requested - self@.highlighted.len(),
        {
            let ghost h0 = self@.highlighted;
            let ghost k = (h0.len() - base) as nat;
            let ghost s0 = state;
            let idx = self.highlighted.len();
            let (line, next) = line_at(text, off);
            let mut input = line.clone();
            if idx + 1 < line_count {
                push_str(&mut input, "\n");
            }
            proof {
                reveal_strlit("\n");
                assert(input@ =~= line_input(line@, idx as int, line_count as nat));
            }
            let n = utf8_len_of(line.as_str());
            let mut cur: Option<(HighlightState, ParseState)> = None;
            std::mem::swap(&mut cur, &mut state);
            let segs = match cur {
                Some(st) => {
                    let (ranges, st2) = highlight_next(&self.ps, theme, st, input.as_str());
                    state = Some(st2);
                    match ranges {
                        Some(rs) => {
                            let conv = ranges_from(&rs);
                            trim_highlighted_newline(conv, n)
                        },
                        None => vec![StyledSegment { text: line, fg: None }],
                    }
                },
                None => vec![StyledSegment { text: line, fg: None }],
            };
            proof {
                let lv = line_at_spec(text@, off as int).0;
                assert(segment_views(segs@) =~= line_segments(p.ps, *theme, s0, line_input(lv, idx as int, line_count as nat), lv));
                assert(state == state_after(p.ps, *theme, s0, line_input(lv, idx as int, line_count as nat)));
            }
            let ghost sv = segment_views(segs@);
            self.highlighted.push(segs);
            proof {
                assert(self@.highlighted =~= h0.push(sv));
                let r0 = highlight_run(p.ps, *theme, st0, text@, start, base as int, k, line_count as nat);
                let r1 = highlight_run(p.ps, *theme, st0, text@, start, base as int, k + 1, line_count as nat);
                assert(r1.0 == r0.0.push(sv));
                assert(p.highlighted + r1.0 =~= (p.highlighted + r0.0).push(sv));
            }
            off = next;
        }
        self.parsed_bytes = off;
        self.state = state;
    }
}

} // verus!
